use swcify::ast::{Kind, Node, Span, VarKind};
use swcify::async_transform::{rewrite_call_expr, AsyncTransform};

fn sp() -> Span {
    Span { lo: 0, hi: 0 }
}

fn node(kind: Kind, children: Vec<Node>) -> Node {
    Node { kind, text: String::new(), ctxt: 0, span: sp(), children }
}

fn leaf(kind: Kind, text: &str) -> Node {
    Node { kind, text: text.to_string(), ctxt: 0, span: sp(), children: vec![] }
}

fn ident(sym: &str) -> Node {
    leaf(Kind::Ident, sym)
}

fn local(sym: &str, ctxt: u32) -> Node {
    Node { kind: Kind::Ident, text: sym.to_string(), ctxt, span: sp(), children: vec![] }
}

fn string(value: &str) -> Node {
    leaf(Kind::Str, value)
}

fn call(callee: Node, args: Vec<Node>) -> Node {
    let mut children = vec![callee];
    children.extend(args);
    node(Kind::Call, children)
}

fn kv(key: &str, value: Node) -> Node {
    node(Kind::KeyValueProp, vec![ident(key), value])
}

fn object(props: Vec<Node>) -> Node {
    node(Kind::Object, props)
}

fn arrow(body: Node) -> Node {
    node(Kind::Arrow { is_async: false, is_generator: false }, vec![node(Kind::Params, vec![]), body])
}

fn function(stmts: Vec<Node>) -> Node {
    node(Kind::Function { is_async: false, is_generator: false }, vec![node(Kind::Params, vec![]), node(Kind::Block, stmts)])
}

fn ret(e: Node) -> Node {
    node(Kind::Return, vec![e])
}

fn dynamic_import(path: &str) -> Node {
    call(ident("import"), vec![string(path)])
}

fn expr_stmt(e: Node) -> Node {
    node(Kind::ExprStmt, vec![e])
}

fn import_named(source: &str, names: &[&str]) -> Node {
    let mut children = vec![string(source)];
    for n in names {
        children.push(node(Kind::ImportNamed, vec![local(n, 1)]));
    }
    node(Kind::ImportDecl { type_only: false }, children)
}

fn module(items: Vec<Node>) -> Node {
    node(Kind::Module, items)
}

fn id_prop(path: &str) -> Node {
    kv(
        "id",
        arrow(call(node(Kind::Member { computed: false }, vec![ident("require"), ident("resolveWeak")]), vec![string(path)])),
    )
}

fn target_call(name: &str, args: Vec<Node>) -> Node {
    call(local(name, 1), args)
}

fn show(n: &Node) -> String {
    format!("{:?}", n)
}

fn run(m: Node) -> Node {
    let mut t = AsyncTransform::with_defaults();
    t.fold_module(m)
}

fn assert_unchanged(m: Node) {
    let before = show(&m);
    assert_eq!(show(&run(m)), before);
}

#[test]
fn default_packages() {
    let input = module(vec![
        import_named("@shopify/react-async", &["createAsyncComponent"]),
        expr_stmt(target_call("createAsyncComponent", vec![object(vec![kv("load", arrow(dynamic_import("./Foo")))])])),
    ]);
    let expected = module(vec![
        import_named("@shopify/react-async", &["createAsyncComponent"]),
        expr_stmt(target_call(
            "createAsyncComponent",
            vec![object(vec![kv("load", arrow(dynamic_import("./Foo"))), id_prop("./Foo")])],
        )),
    ]);
    assert_eq!(show(&run(input)), show(&expected));
}

#[test]
fn default_packages_multi() {
    let input = module(vec![
        import_named("@shopify/async", &["createResolver"]),
        import_named("@shopify/react-graphql", &["createAsyncQueryComponent"]),
        expr_stmt(target_call("createResolver", vec![object(vec![kv("load", arrow(dynamic_import("./A")))])])),
        expr_stmt(target_call("createAsyncQueryComponent", vec![object(vec![kv("load", arrow(dynamic_import("./B")))])])),
    ]);
    let expected = module(vec![
        import_named("@shopify/async", &["createResolver"]),
        import_named("@shopify/react-graphql", &["createAsyncQueryComponent"]),
        expr_stmt(target_call(
            "createResolver",
            vec![object(vec![kv("load", arrow(dynamic_import("./A"))), id_prop("./A")])],
        )),
        expr_stmt(target_call(
            "createAsyncQueryComponent",
            vec![object(vec![kv("load", arrow(dynamic_import("./B"))), id_prop("./B")])],
        )),
    ]);
    assert_eq!(show(&run(input)), show(&expected));
}

#[test]
fn id_prop_exists() {
    assert_unchanged(module(vec![
        import_named("@shopify/react-async", &["createAsyncComponent"]),
        expr_stmt(target_call(
            "createAsyncComponent",
            vec![object(vec![kv("load", arrow(dynamic_import("./Foo"))), kv("id", arrow(string("x")))])],
        )),
    ]));
}

#[test]
fn load_is_function_declaration() {
    let load = function(vec![ret(dynamic_import("./Foo"))]);
    let input = module(vec![
        import_named("@shopify/react-async", &["createAsyncComponent"]),
        expr_stmt(target_call("createAsyncComponent", vec![object(vec![kv("load", load)])])),
    ]);
    let expected = module(vec![
        import_named("@shopify/react-async", &["createAsyncComponent"]),
        expr_stmt(target_call(
            "createAsyncComponent",
            vec![object(vec![kv("load", function(vec![ret(dynamic_import("./Foo"))])), id_prop("./Foo")])],
        )),
    ]);
    assert_eq!(show(&run(input)), show(&expected));
}

#[test]
fn load_is_method() {
    let method = |path: &str| node(Kind::MethodProp, vec![ident("load"), function(vec![ret(dynamic_import(path))])]);
    let input = module(vec![
        import_named("@shopify/react-async", &["createAsyncComponent"]),
        expr_stmt(target_call("createAsyncComponent", vec![object(vec![method("./Foo")])])),
    ]);
    let expected = module(vec![
        import_named("@shopify/react-async", &["createAsyncComponent"]),
        expr_stmt(target_call("createAsyncComponent", vec![object(vec![method("./Foo"), id_prop("./Foo")])])),
    ]);
    assert_eq!(show(&run(input)), show(&expected));
}

#[test]
fn no_arguments() {
    assert_unchanged(module(vec![
        import_named("@shopify/react-async", &["createAsyncComponent"]),
        expr_stmt(target_call("createAsyncComponent", vec![])),
    ]));
}

#[test]
fn no_dynamic_import() {
    assert_unchanged(module(vec![
        import_named("@shopify/react-async", &["createAsyncComponent"]),
        expr_stmt(target_call(
            "createAsyncComponent",
            vec![object(vec![kv("load", arrow(call(ident("load"), vec![string("./Foo")])))])],
        )),
    ]));
}

#[test]
fn no_load_prop() {
    assert_unchanged(module(vec![
        import_named("@shopify/react-async", &["createAsyncComponent"]),
        expr_stmt(target_call("createAsyncComponent", vec![object(vec![kv("renderLoading", arrow(string("x")))])])),
    ]));
}

#[test]
fn not_call_expression() {
    assert_unchanged(module(vec![
        import_named("@shopify/react-async", &["createAsyncComponent"]),
        expr_stmt(local("createAsyncComponent", 1)),
    ]));
}

#[test]
fn not_function() {
    assert_unchanged(module(vec![
        import_named("@shopify/react-async", &["createAsyncComponent"]),
        expr_stmt(target_call("createAsyncComponent", vec![object(vec![kv("load", string("./Foo"))])])),
    ]));
}

#[test]
fn not_object() {
    assert_unchanged(module(vec![
        import_named("@shopify/react-async", &["createAsyncComponent"]),
        expr_stmt(target_call("createAsyncComponent", vec![ident("options")])),
    ]));
}

#[test]
fn unrelated_function() {
    assert_unchanged(module(vec![
        import_named("some-other-package", &["createAsyncComponent"]),
        expr_stmt(target_call("createAsyncComponent", vec![object(vec![kv("load", arrow(dynamic_import("./Foo")))])])),
    ]));
}

#[test]
fn unrelated_function_call() {
    assert_unchanged(module(vec![
        import_named("@shopify/react-async", &["createAsyncComponent"]),
        expr_stmt(call(local("somethingElse", 1), vec![object(vec![kv("load", arrow(dynamic_import("./Foo")))])])),
    ]));
}

#[test]
fn hiding_declaration_stays_in_its_block() {
    let options = || object(vec![kv("load", arrow(dynamic_import("./Foo")))]);
    let hiding = node(
        Kind::VarDecl(VarKind::Const),
        vec![node(Kind::VarDeclarator, vec![
            Node { kind: Kind::BindingIdent, text: "createAsyncComponent".to_string(), ctxt: 1, span: sp(), children: vec![] },
            ident("other"),
        ])],
    );
    let block = |hide: Node, call: Node| node(Kind::Block, vec![hide, expr_stmt(call)]);
    let input = module(vec![
        import_named("@shopify/react-async", &["createAsyncComponent"]),
        block(hiding, target_call("createAsyncComponent", vec![options()])),
        expr_stmt(target_call("createAsyncComponent", vec![options()])),
    ]);
    let hiding2 = node(
        Kind::VarDecl(VarKind::Const),
        vec![node(Kind::VarDeclarator, vec![
            Node { kind: Kind::BindingIdent, text: "createAsyncComponent".to_string(), ctxt: 1, span: sp(), children: vec![] },
            ident("other"),
        ])],
    );
    let expected = module(vec![
        import_named("@shopify/react-async", &["createAsyncComponent"]),
        block(hiding2, target_call("createAsyncComponent", vec![options()])),
        expr_stmt(target_call(
            "createAsyncComponent",
            vec![object(vec![kv("load", arrow(dynamic_import("./Foo"))), id_prop("./Foo")])],
        )),
    ]);
    assert_eq!(show(&run(input)), show(&expected));
}

#[test]
fn rewrite_twice_is_rewrite_once() {
    let c = target_call("createAsyncComponent", vec![object(vec![kv("load", arrow(dynamic_import("./Foo")))])]);
    let once = rewrite_call_expr(c, true);
    let once_text = show(&once);
    let twice = rewrite_call_expr(once, true);
    assert_eq!(show(&twice), once_text);
}

#[test]
fn rewrite_without_webpack_uses_resolve() {
    let c = target_call("f", vec![object(vec![kv("load", arrow(dynamic_import("./Foo")))])]);
    let r = rewrite_call_expr(c, false);
    let expected_prop = kv(
        "id",
        arrow(call(node(Kind::Member { computed: false }, vec![ident("require"), ident("resolve")]), vec![string("./Foo")])),
    );
    let expected = target_call("f", vec![object(vec![kv("load", arrow(dynamic_import("./Foo"))), expected_prop])]);
    assert_eq!(show(&r), show(&expected));
}

#[test]
fn spread_options_are_rewritten_inside_the_spread() {
    let spread = |o: Node| node(Kind::Spread, vec![o]);
    let c = target_call("f", vec![spread(object(vec![kv("load", arrow(dynamic_import("./Foo")))]))]);
    let r = rewrite_call_expr(c, true);
    let expected = target_call("f", vec![spread(object(vec![kv("load", arrow(dynamic_import("./Foo"))), id_prop("./Foo")]))]);
    assert_eq!(show(&r), show(&expected));
}
