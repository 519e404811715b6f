use swcify::ast::{Kind, Node, Span};
use swcify::comments::{CommentKind, Comments};
use swcify::web_worker::{loader_options, web_worker, Config, WebWorkerError};

const FRESH: u32 = 100;

fn sp() -> Span {
    Span { lo: 0, hi: 0 }
}

fn node(kind: Kind, children: Vec<Node>) -> Node {
    Node { kind, text: String::new(), ctxt: 0, span: sp(), children }
}

fn leaf(kind: Kind, text: &str, ctxt: u32, span: Span) -> Node {
    Node { kind, text: text.to_string(), ctxt, span, children: vec![] }
}

fn callee(name: &str) -> Node {
    leaf(Kind::Ident, name, 1, Span { lo: 20, hi: 39 })
}

fn path(p: &str) -> Node {
    leaf(Kind::Str, p, 0, Span { lo: 60, hi: 70 })
}

fn worker_arg(arg: Node) -> Node {
    node(
        Kind::Arrow { is_async: false, is_generator: false },
        vec![node(Kind::Params, vec![]), node(Kind::Call, vec![leaf(Kind::Ident, "import", 0, sp()), arg])],
    )
}

fn factory_call(name: &str, arg: Node) -> Node {
    node(Kind::ExprStmt, vec![node(Kind::Call, vec![callee(name), arg])])
}

fn import_named(source: &str, local: &str, imported: Option<&str>) -> Node {
    let mut spec = vec![leaf(Kind::Ident, local, 1, sp())];
    if let Some(i) = imported {
        spec.push(leaf(Kind::Ident, i, 0, sp()));
    }
    node(Kind::ImportDecl { type_only: false }, vec![leaf(Kind::Str, source, 0, sp()), node(Kind::ImportNamed, spec)])
}

fn worker(ctxt: u32) -> Node {
    leaf(Kind::Ident, "_worker", ctxt, sp())
}

fn loader_import(source: &str, ctxt: u32) -> Node {
    Node {
        kind: Kind::ImportDecl { type_only: false },
        text: String::new(),
        ctxt: 0,
        span: Span { lo: 20, hi: 39 },
        children: vec![
            leaf(Kind::Str, source, 0, Span { lo: 60, hi: 70 }),
            node(Kind::ImportDefault, vec![worker(ctxt)]),
        ],
    }
}

fn module(items: Vec<Node>) -> Node {
    node(Kind::Module, items)
}

fn show<T: std::fmt::Debug>(n: &T) -> String {
    format!("{:?}", n)
}

fn comments(list: &[(CommentKind, &str)]) -> Comments {
    let mut c = Comments::new();
    for (kind, text) in list {
        c.add_leading(60, *kind, text.to_string());
    }
    c
}

fn run(m: Node, c: Comments) -> Result<Node, WebWorkerError> {
    let mut t = web_worker(Config::default(), c, FRESH);
    match t.failure(&m) {
        Some(e) => Err(e),
        None => Ok(t.fold_module(m)),
    }
}

fn expect_loader(name: &str, imported: Option<&str>, package: &str, source: &str, c: Comments) {
    let input = module(vec![import_named(package, name, imported), factory_call(name, worker_arg(path("./worker")))]);
    let expected = module(vec![
        loader_import(source, FRESH),
        import_named(package, name, imported),
        factory_call(name, worker(FRESH)),
    ]);
    assert_eq!(show(&run(input, c).unwrap()), show(&expected));
}

#[test]
fn worker_factory_becomes_loader_import() {
    expect_loader(
        "createWorkerFactory",
        None,
        "@shopify/web-worker",
        "@shopify/web-worker/webpack-loader?{\"plain\":false}!./worker",
        Comments::new(),
    );
}

#[test]
fn plain_worker_factory_is_marked_plain() {
    expect_loader(
        "createPlainWorkerFactory",
        None,
        "@shopify/react-web-worker",
        "@shopify/web-worker/webpack-loader?{\"plain\":true}!./worker",
        Comments::new(),
    );
}

#[test]
fn renamed_factory_is_found() {
    expect_loader(
        "makeWorker",
        Some("createWorkerFactory"),
        "@shopify/web-worker",
        "@shopify/web-worker/webpack-loader?{\"plain\":false}!./worker",
        Comments::new(),
    );
}

#[test]
fn chunk_name_comment_names_the_chunk() {
    expect_loader(
        "createWorkerFactory",
        None,
        "@shopify/web-worker",
        "@shopify/web-worker/webpack-loader?{\"name\":\"heavy\",\"plain\":false}!./worker",
        comments(&[(CommentKind::Block, " webpackChunkName: \"heavy\" ")]),
    );
}

#[test]
fn chunk_name_in_single_quotes_is_escaped_as_json() {
    expect_loader(
        "createWorkerFactory",
        None,
        "@shopify/web-worker",
        "@shopify/web-worker/webpack-loader?{\"name\":\"a\\\"b\",\"plain\":false}!./worker",
        comments(&[(CommentKind::Block, "webpackChunkName:  'a\"b'\n")]),
    );
}

#[test]
fn line_comments_and_other_comments_name_nothing() {
    expect_loader(
        "createWorkerFactory",
        None,
        "@shopify/web-worker",
        "@shopify/web-worker/webpack-loader?{\"plain\":false}!./worker",
        comments(&[
            (CommentKind::Line, " webpackChunkName: \"line\""),
            (CommentKind::Block, " webpackPrefetch: true "),
            (CommentKind::Block, " webpackChunkName: \"unclosed "),
        ]),
    );
}

#[test]
fn two_chunk_names_are_an_error() {
    let input = module(vec![
        import_named("@shopify/web-worker", "createWorkerFactory", None),
        factory_call("createWorkerFactory", worker_arg(path("./worker"))),
    ]);
    let c = comments(&[
        (CommentKind::Block, " webpackChunkName: \"a\" "),
        (CommentKind::Block, " webpackChunkName: \"b\" "),
    ]);
    assert_eq!(show(&run(input, c).map(|_| ())), show(&Err::<(), WebWorkerError>(WebWorkerError::DuplicateChunkName)));
}

#[test]
fn import_of_a_non_string_is_an_error() {
    let input = module(vec![
        import_named("@shopify/web-worker", "createWorkerFactory", None),
        factory_call("createWorkerFactory", worker_arg(leaf(Kind::Ident, "where", 0, sp()))),
    ]);
    assert_eq!(
        show(&run(input, Comments::new()).map(|_| ())),
        show(&Err::<(), WebWorkerError>(WebWorkerError::DynamicImportNotString))
    );
}

#[test]
fn modules_without_factories_are_unchanged() {
    let input = module(vec![
        import_named("@shopify/other", "createWorkerFactory", None),
        factory_call("createWorkerFactory", worker_arg(path("./worker"))),
    ]);
    let before = show(&input);
    assert_eq!(show(&run(input, Comments::new()).unwrap()), before);
}

#[test]
fn other_arguments_are_left_alone() {
    let input = module(vec![
        import_named("@shopify/web-worker", "createWorkerFactory", None),
        factory_call("createWorkerFactory", leaf(Kind::Ident, "existing", 0, sp())),
    ]);
    let before = show(&input);
    assert_eq!(show(&run(input, Comments::new()).unwrap()), before);
}

#[test]
fn loader_imports_follow_directives() {
    let directive = node(Kind::ExprStmt, vec![leaf(Kind::Str, "use strict", 0, sp())]);
    let input = module(vec![
        directive,
        import_named("@shopify/web-worker", "createWorkerFactory", None),
        factory_call("createWorkerFactory", worker_arg(path("./a"))),
        factory_call("createWorkerFactory", worker_arg(path("./b"))),
    ]);
    let out = run(input, Comments::new()).unwrap();
    let expected = module(vec![
        node(Kind::ExprStmt, vec![leaf(Kind::Str, "use strict", 0, sp())]),
        loader_import("@shopify/web-worker/webpack-loader?{\"plain\":false}!./a", FRESH),
        loader_import("@shopify/web-worker/webpack-loader?{\"plain\":false}!./b", FRESH + 1),
        import_named("@shopify/web-worker", "createWorkerFactory", None),
        factory_call("createWorkerFactory", worker(FRESH)),
        factory_call("createWorkerFactory", worker(FRESH + 1)),
    ]);
    assert_eq!(show(&out), show(&expected));
}

#[test]
fn loader_options_are_json() {
    assert_eq!(loader_options(None, false), "{\"plain\":false}");
    assert_eq!(loader_options(Some("w"), true), "{\"name\":\"w\",\"plain\":true}");
    assert_eq!(loader_options(Some("a\\b\n"), false), "{\"name\":\"a\\\\b\\n\",\"plain\":false}");
}

#[test]
fn worker_output_transformed_again_is_unchanged() {
    let input = module(vec![
        import_named("@shopify/web-worker", "createWorkerFactory", None),
        factory_call("createWorkerFactory", worker_arg(path("./worker"))),
    ]);
    let once = run(input, Comments::new()).unwrap();
    let shown = show(&once);
    let again = run(once, Comments::new()).unwrap();
    assert_eq!(show(&again), shown);
}

#[test]
fn chunk_names_with_control_characters_are_escaped() {
    assert_eq!(
        loader_options(Some("a\u{1}\u{1f}\t\u{8}\u{c}\\\"b"), true),
        "{\"name\":\"a\\u0001\\u001f\\t\\b\\f\\\\\\\"b\",\"plain\":true}"
    );
}
