use swcify::ast::{BinOp, Kind, Node, Span, VarKind};
use swcify::comments::{CommentKind, Comments};
use swcify::i18n_transform::{format_id, generate_id, i18n_transform, I18nError, I18nMode, I18nTransform};

const ID: &str = "MyComponent_1a";
const CALL_LO: u32 = 40;

fn sp() -> Span {
    Span { lo: 0, hi: 0 }
}

fn node(kind: Kind, children: Vec<Node>) -> Node {
    Node { kind, text: String::new(), ctxt: 0, span: sp(), children }
}

fn spanned(kind: Kind, span: Span, children: Vec<Node>) -> Node {
    Node { kind, text: String::new(), ctxt: 0, span, children }
}

fn leaf(kind: Kind, text: &str, span: Span) -> Node {
    Node { kind, text: text.to_string(), ctxt: 0, span, children: vec![] }
}

fn ident(sym: &str) -> Node {
    leaf(Kind::Ident, sym, sp())
}

fn bident(sym: &str) -> Node {
    leaf(Kind::BindingIdent, sym, sp())
}

fn string(value: &str) -> Node {
    leaf(Kind::Str, value, sp())
}

fn zero() -> Node {
    leaf(Kind::Num(0), "", sp())
}

fn member(obj: Node, prop: Node) -> Node {
    node(Kind::Member { computed: false }, vec![obj, prop])
}

fn call(callee: Node, args: Vec<Node>) -> Node {
    let mut children = vec![callee];
    children.extend(args);
    node(Kind::Call, children)
}

fn kv(key: &str, value: Node) -> Node {
    node(Kind::KeyValueProp, vec![ident(key), value])
}

fn ret(e: Option<Node>) -> Node {
    node(Kind::Return, e.into_iter().collect())
}

fn check(test: Node) -> Node {
    node(Kind::If, vec![test, node(Kind::Block, vec![ret(None)])])
}

fn not_found_in(target: Node) -> Node {
    node(Kind::Bin(BinOp::Lt), vec![call(member(target, ident("indexOf")), vec![ident("locale")]), zero()])
}

fn dict_arrow() -> Node {
    node(
        Kind::Arrow { is_async: false, is_generator: false },
        vec![
            node(Kind::Params, vec![bident("dict")]),
            node(Kind::Bin(BinOp::LogicalAnd), vec![ident("dict"), member(ident("dict"), ident("default"))]),
        ],
    )
}

fn pos(p: u32) -> Span {
    Span { lo: p, hi: p + 1 }
}

fn import_then(arg: Node, on_resolve: Node) -> Node {
    ret(Some(call(member(call(ident("import"), vec![arg]), ident("then")), vec![on_resolve])))
}

fn template(span: Span) -> Node {
    spanned(
        Kind::Tpl,
        span,
        vec![
            leaf(Kind::Ident, "locale", span),
            leaf(Kind::TplElement { tail: false }, "./translations/", sp()),
            leaf(Kind::TplElement { tail: false }, ".json", sp()),
        ],
    )
}

fn arguments(fallback: Node, stmts: Vec<Node>) -> Node {
    node(
        Kind::Object,
        vec![
            kv("id", string(ID)),
            kv("fallback", fallback),
            node(
                Kind::MethodProp,
                vec![
                    ident("translations"),
                    node(
                        Kind::Function { is_async: false, is_generator: false },
                        vec![node(Kind::Params, vec![bident("locale")]), node(Kind::Block, stmts)],
                    ),
                ],
            ),
        ],
    )
}

fn import_default(id: &str, src: &str) -> Node {
    node(Kind::ImportDecl { type_only: false }, vec![string(src), node(Kind::ImportDefault, vec![ident(id)])])
}

fn import_named(src: &str, local: &str, imported: Option<&str>) -> Node {
    let mut spec = vec![Node { kind: Kind::Ident, text: local.to_string(), ctxt: 1, span: sp(), children: vec![] }];
    if let Some(i) = imported {
        spec.push(ident(i));
    }
    node(Kind::ImportDecl { type_only: false }, vec![string(src), node(Kind::ImportNamed, spec)])
}

fn hook_call(name: &str, args: Vec<Node>) -> Node {
    let mut children = vec![Node { kind: Kind::Ident, text: name.to_string(), ctxt: 1, span: sp(), children: vec![] }];
    children.extend(args);
    spanned(Kind::Call, Span { lo: CALL_LO, hi: CALL_LO + 9 }, children)
}

fn stmt(e: Node) -> Node {
    node(Kind::ExprStmt, vec![e])
}

fn module(items: Vec<Node>) -> Node {
    node(Kind::Module, items)
}

fn show<T: std::fmt::Debug>(n: &T) -> String {
    format!("{:?}", n)
}

fn entries(names: &[&str]) -> Option<Vec<String>> {
    Some(names.iter().map(|s| s.to_string()).collect())
}

/// Transforms `m` as a caller does: the failure first, then the fold.
fn fold(t: &mut I18nTransform, m: Node) -> Result<Node, I18nError> {
    match t.failure(&m) {
        Some(e) => Err(e),
        None => Ok(t.fold_module(m)),
    }
}

fn transform(mode: I18nMode, locale: &str, dir: Option<Vec<String>>) -> I18nTransform {
    I18nTransform::with_id(Some(ID.to_string()), mode, locale.to_string(), Comments::new(), dir)
}

fn adjacent() -> Option<Vec<String>> {
    entries(&["fr.json", "en.json", "de.json", "README.md"])
}

fn comment_texts(t: &I18nTransform) -> Vec<(u32, CommentKind, String)> {
    t.comments().leading.iter().map(|c| (c.pos, c.kind, c.text.clone())).collect()
}

fn lazy_comment() -> String {
    format!(" webpackChunkName: \"{}-i18n\", webpackMode: \"lazy-once\" ", ID)
}

fn chunk_comment() -> String {
    format!(" webpackChunkName: \"{}-i18n\" ", ID)
}

fn dynamic_arguments(fallback_locale: &str, others: &[&str]) -> Node {
    let array = node(Kind::Array, others.iter().map(|l| string(l)).collect());
    arguments(
        ident(&format!("_{}", fallback_locale)),
        vec![check(not_found_in(array)), import_then(template(pos(CALL_LO + 1)), dict_arrow())],
    )
}

fn hook_module(name: &str, imported: Option<&str>, args: Vec<Node>) -> Node {
    module(vec![import_named("@shopify/react-i18n", name, imported), stmt(hook_call(name, args))])
}

fn assert_dynamic_injected(name: &str, imported: Option<&str>) {
    let mut t = transform(I18nMode::WithDynamicPaths, "en", adjacent());
    let out = fold(&mut t, hook_module(name, imported, vec![])).unwrap();
    let expected = module(vec![
        import_default("_en", "./translations/en.json"),
        import_named("@shopify/react-i18n", name, imported),
        stmt(hook_call(name, vec![dynamic_arguments("en", &["de", "fr"])])),
    ]);
    assert_eq!(show(&out), show(&expected));
    assert_eq!(comment_texts(&t), vec![(CALL_LO + 1, CommentKind::Block, lazy_comment())]);
}

fn assert_unchanged(mut t: I18nTransform, m: Node) {
    let before = show(&m);
    let out = fold(&mut t, m).unwrap();
    assert_eq!(show(&out), before);
    assert!(t.comments().leading.is_empty());
}

#[test]
fn injects_arguments_into_with_i18n_when_adjacent_exist() {
    assert_dynamic_injected("withI18n", None);
}

#[test]
fn injects_arguments_into_use_i18n_when_adjacent_exist() {
    assert_dynamic_injected("useI18n", None);
}

#[test]
fn does_not_inject_arguments_when_no_adjacent_exist() {
    assert_unchanged(transform(I18nMode::WithDynamicPaths, "en", None), hook_module("useI18n", None, vec![]));
    assert_unchanged(
        transform(I18nMode::WithDynamicPaths, "en", entries(&["notes.txt"])),
        hook_module("useI18n", None, vec![]),
    );
}

#[test]
fn does_not_transform_other_react_i18n_imports() {
    assert_unchanged(
        transform(I18nMode::WithDynamicPaths, "en", adjacent()),
        hook_module("I18nContext", None, vec![]),
    );
}

#[test]
fn does_not_transform_use_i18n_imports_from_other_libraries() {
    let m = module(vec![import_named("other-i18n", "useI18n", None), stmt(hook_call("useI18n", vec![]))]);
    assert_unchanged(transform(I18nMode::WithDynamicPaths, "en", adjacent()), m);
}

#[test]
fn does_not_transform_with_i18n_imports_from_other_libraries() {
    let m = module(vec![import_named("other-i18n", "withI18n", None), stmt(hook_call("withI18n", vec![]))]);
    assert_unchanged(transform(I18nMode::WithDynamicPaths, "en", adjacent()), m);
}

#[test]
fn transforms_with_i18n_when_it_was_renamed_during_import() {
    assert_dynamic_injected("withTranslations", Some("withI18n"));
}

#[test]
fn transforms_use_i18n_when_it_was_renamed_during_import() {
    assert_dynamic_injected("useTranslations", Some("useI18n"));
}

#[test]
fn does_not_transform_with_i18n_when_it_already_has_arguments() {
    assert_unchanged(
        transform(I18nMode::WithDynamicPaths, "en", adjacent()),
        hook_module("withI18n", None, vec![ident("options")]),
    );
}

#[test]
fn does_not_transform_use_i18n_when_it_already_has_arguments() {
    assert_unchanged(
        transform(I18nMode::WithDynamicPaths, "en", adjacent()),
        hook_module("useI18n", None, vec![ident("options")]),
    );
}

#[test]
fn throws_when_multiple_components_in_a_single_file_request_translations() {
    let m = module(vec![
        import_named("@shopify/react-i18n", "useI18n", None),
        stmt(hook_call("useI18n", vec![])),
        stmt(hook_call("useI18n", vec![])),
    ]);
    let mut t = transform(I18nMode::WithDynamicPaths, "en", adjacent());
    assert_eq!(show(&fold(&mut t, m).map(|_| ())), show(&Err::<(), I18nError>(I18nError::MultipleTranslationRequests)));
}

#[test]
fn injects_arguments_with_translations_import_into_use_i18n_when_mode_equals_to_from_generated_index() {
    let mut t = transform(I18nMode::FromGeneratedIndex, "en", adjacent());
    let out = fold(&mut t, hook_module("useI18n", None, vec![])).unwrap();
    let args = arguments(
        ident("_en"),
        vec![check(not_found_in(ident("__shopify__i18n_translations"))), import_then(template(pos(CALL_LO + 1)), dict_arrow())],
    );
    let expected = module(vec![
        import_default("__shopify__i18n_translations", "./translations"),
        import_default("_en", "./translations/en.json"),
        import_named("@shopify/react-i18n", "useI18n", None),
        stmt(hook_call("useI18n", vec![args])),
    ]);
    assert_eq!(show(&out), show(&expected));
    assert_eq!(comment_texts(&t), vec![(CALL_LO + 1, CommentKind::Block, lazy_comment())]);
}

#[test]
fn loads_fr_json_as_default_translation_when_default_locale_is_set_to_fr() {
    let mut t = transform(I18nMode::WithDynamicPaths, "fr", adjacent());
    let out = fold(&mut t, hook_module("withI18n", None, vec![])).unwrap();
    let expected = module(vec![
        import_default("_fr", "./translations/fr.json"),
        import_named("@shopify/react-i18n", "withI18n", None),
        stmt(hook_call("withI18n", vec![dynamic_arguments("fr", &["de", "en"])])),
    ]);
    assert_eq!(show(&out), show(&expected));
}

#[test]
fn injects_a_dictionary_import_and_returns_dictionary_values_from_use_i18n() {
    let mut t = transform(I18nMode::FromDictionaryIndex, "en", entries(&["en.json"]));
    let out = fold(&mut t, hook_module("useI18n", None, vec![])).unwrap();
    let dict = "__shopify__i18n_translations";
    let fallback = node(
        Kind::Member { computed: true },
        vec![call(member(ident("Object"), ident("values")), vec![ident(dict)]), zero()],
    );
    let body = ret(Some(call(
        member(ident("Promise"), ident("resolve")),
        vec![node(Kind::Member { computed: true }, vec![ident(dict), ident("locale")])],
    )));
    let expected = module(vec![
        import_default(dict, "./translations"),
        import_named("@shopify/react-i18n", "useI18n", None),
        stmt(hook_call("useI18n", vec![arguments(fallback, vec![body])])),
    ]);
    assert_eq!(show(&out), show(&expected));
    assert!(t.comments().leading.is_empty());
}

#[test]
fn injects_proper_translation_function_for_fallback_plus_one_case() {
    let mut t = transform(I18nMode::WithExplicitPaths, "en", entries(&["en.json", "fr.json"]));
    let out = fold(&mut t, hook_module("useI18n", None, vec![])).unwrap();
    let locale_check = node(Kind::Bin(BinOp::StrictNotEq), vec![ident("locale"), string("fr")]);
    let load = import_then(leaf(Kind::Str, "./translations/fr.json", pos(CALL_LO + 1)), dict_arrow());
    let expected = module(vec![
        import_default("_en", "./translations/en.json"),
        import_named("@shopify/react-i18n", "useI18n", None),
        stmt(hook_call("useI18n", vec![arguments(ident("_en"), vec![check(locale_check), load])])),
    ]);
    assert_eq!(show(&out), show(&expected));
    assert_eq!(comment_texts(&t), vec![(CALL_LO + 1, CommentKind::Block, chunk_comment())]);
}

#[test]
fn injects_translation_function_with_multiple_static_imports() {
    let mut t = transform(I18nMode::WithExplicitPaths, "en", adjacent());
    let out = fold(&mut t, hook_module("useI18n", None, vec![])).unwrap();
    let define = node(
        Kind::VarDecl(VarKind::Const),
        vec![node(Kind::VarDeclarator, vec![bident("returnDefault"), dict_arrow()])],
    );
    let case = |id: &str, p: u32| {
        node(
            Kind::Case,
            vec![string(id), import_then(leaf(Kind::Str, &format!("./translations/{}.json", id), pos(p)), ident("returnDefault"))],
        )
    };
    let switch = node(Kind::Switch, vec![ident("locale"), case("de", CALL_LO + 1), case("fr", CALL_LO + 2)]);
    let expected = module(vec![
        import_default("_en", "./translations/en.json"),
        import_named("@shopify/react-i18n", "useI18n", None),
        stmt(hook_call("useI18n", vec![arguments(ident("_en"), vec![define, switch])])),
    ]);
    assert_eq!(show(&out), show(&expected));
    assert_eq!(
        comment_texts(&t),
        vec![(CALL_LO + 1, CommentKind::Block, chunk_comment()), (CALL_LO + 2, CommentKind::Block, chunk_comment())]
    );
}

#[test]
fn explicit_paths_with_fallback_only_returns_nothing() {
    let mut t = transform(I18nMode::WithExplicitPaths, "en", entries(&["en.json"]));
    let out = fold(&mut t, hook_module("useI18n", None, vec![])).unwrap();
    let expected = module(vec![
        import_default("_en", "./translations/en.json"),
        import_named("@shopify/react-i18n", "useI18n", None),
        stmt(hook_call("useI18n", vec![arguments(ident("_en"), vec![ret(None)])])),
    ]);
    assert_eq!(show(&out), show(&expected));
    assert!(t.comments().leading.is_empty());
}

#[test]
fn missing_file_name_stops_the_transform() {
    let mut t = I18nTransform::with_id(None, I18nMode::WithDynamicPaths, "en".to_string(), Comments::new(), adjacent());
    let r = fold(&mut t, hook_module("useI18n", None, vec![]));
    assert_eq!(show(&r.map(|_| ())), show(&Err::<(), I18nError>(I18nError::NoFileStem)));
}

#[test]
fn position_past_the_largest_file_stops_the_transform() {
    let m = module(vec![
        import_named("@shopify/react-i18n", "useI18n", None),
        stmt(Node {
            kind: Kind::Call,
            text: String::new(),
            ctxt: 0,
            span: Span { lo: u32::MAX - 1, hi: u32::MAX },
            children: vec![Node { kind: Kind::Ident, text: "useI18n".to_string(), ctxt: 1, span: sp(), children: vec![] }],
        }),
    ]);
    let mut t = transform(I18nMode::WithDynamicPaths, "en", adjacent());
    assert_eq!(show(&fold(&mut t, m).map(|_| ())), show(&Err::<(), I18nError>(I18nError::PositionOverflow)));
}

#[test]
fn id_is_stem_underscore_base36_hash() {
    assert_eq!(format_id("MyComponent.js", 35), "MyComponent_z");
    assert_eq!(format_id("MyComponent.js", 36), "MyComponent_10");
    assert_eq!(format_id("MyComponent.js", 0), "MyComponent_0");
    assert_eq!(format_id("index.test.tsx", 1295), "index.test_zz");
    assert_eq!(format_id(".hidden", 10), ".hidden_a");
}

#[test]
fn generated_id_starts_with_the_file_stem() {
    let id = generate_id("tests/fixtures/i18n/translations/adjacent/MyComponent.js").unwrap();
    assert!(id.starts_with("MyComponent_"));
    assert!(id.len() > "MyComponent_".len());
    assert!(generate_id("/").is_none());
}

#[test]
fn i18n_transform_reads_translation_entries() {
    let mut t = i18n_transform("src/MyComponent.js", I18nMode::WithDynamicPaths, "en".to_string(), Comments::new(), None);
    let m = hook_module("useI18n", None, vec![]);
    let before = show(&m);
    assert_eq!(show(&fold(&mut t, m).unwrap()), before);
}

#[test]
fn i18n_output_transformed_again_is_unchanged() {
    let modes = [
        I18nMode::WithDynamicPaths,
        I18nMode::WithExplicitPaths,
        I18nMode::FromGeneratedIndex,
        I18nMode::FromDictionaryIndex,
    ];
    for mode in modes {
        let mut first = transform(mode, "en", adjacent());
        let out = fold(&mut first, hook_module("useI18n", None, vec![])).unwrap();
        let once = show(&out);
        assert_ne!(once, show(&hook_module("useI18n", None, vec![])));
        let mut second = transform(mode, "en", adjacent());
        let again = fold(&mut second, out).unwrap();
        assert_eq!(show(&again), once);
        assert!(second.comments().leading.is_empty());
    }
}
