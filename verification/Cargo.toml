[package]
name = "swcify"
version = "0.1.0"
edition = "2021"
publish = false

[dependencies]
rustc-hash = "=1.1.0"
radix_fmt = "=1.0.0"
serde = { version = "=1.0.229", features = ["derive"] }
serde_json = "=1.0.154"
anyhow = "=1.0.104"
backtrace = "=0.3.77"
swc_common = "=27.0.0"
swc_atoms = "=10.0.0"
swc_ecmascript = { version = "=75.0.0", features = ["parser", "visit", "utils", "transforms", "minifier", "codegen"] }
swc = { version = "=81.0.0", features = ["concurrent"] }
swc_ecma_ast = { version = "=30.0.0", features = ["serde-impl"] }
swc_node_base = "=0.5.9"
par-core = { version = "=2.0.0", features = ["chili"] }
napi = { version = "=3.16.1", features = ["napi4", "compat-mode", "serde-json"] }
napi-derive = { version = "=3.7.0", features = ["compat-mode"] }
