use swcify::ast::{Kind, Node, Span};
use swcify::webworker_transform::WebWorkerTransform;

fn leaf(kind: Kind, text: &str) -> Node {
    Node { kind, text: text.to_string(), ctxt: 0, span: Span { lo: 0, hi: 0 }, children: vec![] }
}

#[test]
fn placeholder() {}

#[test]
fn transform_leaves_module_as_it_was() {
    let call = Node {
        kind: Kind::Call,
        text: String::new(),
        ctxt: 0,
        span: Span { lo: 3, hi: 9 },
        children: vec![leaf(Kind::Ident, "f"), leaf(Kind::Str, "x")],
    };
    let stmt = Node { kind: Kind::ExprStmt, text: String::new(), ctxt: 0, span: Span { lo: 0, hi: 0 }, children: vec![call] };
    let module = Node { kind: Kind::Module, text: String::new(), ctxt: 0, span: Span { lo: 0, hi: 0 }, children: vec![stmt] };
    let before = format!("{:?}", module);
    let mut t = WebWorkerTransform::with_defaults();
    let after = t.fold_module(module);
    assert_eq!(format!("{:?}", after), before);
}
