//! Hands translations to `useI18n()` and `withI18n()`.
//!
//! In a component with translation files, the one argument-less call of
//! `useI18n` or `withI18n` imported from `@shopify/react-i18n` gets an
//! object with the component's `id`, its `fallback` translations and a
//! `translations(locale)` method that loads the others; the module imports
//! what that object names. How the translations are found and loaded
//! depends on the [`I18nMode`].
use vstd::prelude::*;
use crate::ast::{
    Id, Kind, Node, SpecNode, Span, BinOp, VarKind, branch, dummy, dummy_span, has_id, id_of,
    ident, ids_view, leaf, lemma_node_view, mk_branch, copy_node, mk_ident, mk_leaf, mk_spanned, mk_str,
    nodes_view, spanned, string_lit, opt_text,
};
use crate::comments::{CommentKind, Comments};
use crate::text::{has_prefix, is_piece, join, same_text};
use crate::translations::{get_locale_id, get_locale_ids, locale_ids, opt_texts, texts, translation_files, get_translation_file_paths, file_stem, stem};
use crate::fold::{Folder, fold_node, spec_fold_node, spec_fold_nodes, with_children};
use std::hash::Hasher;

verus! {

broadcast use lemma_node_view, vstd::seq_lib::group_seq_properties, vstd::string::group_string_axioms;

// ---------------------------------------------------------------------
// The pieces of the generated code.

/// A generated binding identifier.
pub open spec fn bident(sym: Seq<char>) -> SpecNode {
    leaf(Kind::BindingIdent, sym, 0, dummy_span())
}

/// The number literal `0`.
pub open spec fn zero() -> SpecNode {
    leaf(Kind::Num(0), seq![], 0, dummy_span())
}

/// The array of translations that an index module exports.
pub open spec fn index_array_id() -> Seq<char> {
    "__shopify__i18n_translations"@
}

/// `./translations/<locale>.json`
pub open spec fn translation_path(locale: Seq<char>) -> Seq<char> {
    "./translations/"@ + locale + ".json"@
}

/// `_<locale>`: the name of the fallback translations.
pub open spec fn fallback_id(locale: Seq<char>) -> Seq<char> {
    seq!['_'] + locale
}

/// The span of a node that a comment at `pos` precedes.
pub open spec fn comment_span(pos: int) -> Span {
    Span { lo: pos as u32, hi: (pos + 1) as u32 }
}

/// `_<locale>`
pub open spec fn fallback_expr_from_locale(locale: Seq<char>) -> SpecNode {
    ident(fallback_id(locale))
}

/// `Object.values(<dict>)[0]`
pub open spec fn fallback_expr_from_dictionary(dict: Seq<char>) -> SpecNode {
    branch(
        Kind::Member { computed: true },
        seq![
            branch(
                Kind::Call,
                seq![
                    branch(Kind::Member { computed: false }, seq![ident("Object"@), ident("values"@)]),
                    ident(dict),
                ],
            ),
            zero(),
        ],
    )
}

/// `locale !== "<value>"`
pub open spec fn locale_eq_str_expr(value: Seq<char>) -> SpecNode {
    branch(
        Kind::Bin(BinOp::StrictNotEq),
        seq![ident("locale"@), string_lit(value, dummy_span())],
    )
}

/// `<target>.indexOf(locale) < 0`
pub open spec fn not_found_in(target: SpecNode) -> SpecNode {
    branch(
        Kind::Bin(BinOp::Lt),
        seq![
            branch(
                Kind::Call,
                seq![
                    branch(Kind::Member { computed: false }, seq![target, ident("indexOf"@)]),
                    ident("locale"@),
                ],
            ),
            zero(),
        ],
    )
}

/// `["de", "fr"].indexOf(locale) < 0`
pub open spec fn is_in_str_array(ids: Seq<Seq<char>>) -> SpecNode {
    not_found_in(branch(Kind::Array, ids.map_values(|id: Seq<char>| string_lit(id, dummy_span()))))
}

/// `<var>.indexOf(locale) < 0`
pub open spec fn is_in_array_var(var: Seq<char>) -> SpecNode {
    not_found_in(ident(var))
}

/// `if (<test>) { return; }`
pub open spec fn translation_fn_check(test: SpecNode) -> SpecNode {
    branch(Kind::If, seq![test, branch(Kind::Block, seq![branch(Kind::Return, seq![])])])
}

/// What `import(..)` loads: a fixed locale's file, or the template
/// `` `./translations/${locale}.json` ``.
pub open spec fn import_arg(locale: Option<Seq<char>>, span: Span) -> SpecNode {
    match locale {
        Some(l) => string_lit(translation_path(l), span),
        None => spanned(
            Kind::Tpl,
            span,
            seq![
                leaf(Kind::Ident, "locale"@, 0, span),
                leaf(Kind::TplElement { tail: false }, "./translations/"@, 0, dummy_span()),
                leaf(Kind::TplElement { tail: false }, ".json"@, 0, dummy_span()),
            ],
        ),
    }
}

/// `return import(<arg>).then(<on_resolve>);`
pub open spec fn import_promise_return_stmt(
    locale: Option<Seq<char>>,
    on_resolve: SpecNode,
    span: Span,
) -> SpecNode {
    branch(
        Kind::Return,
        seq![
            branch(
                Kind::Call,
                seq![
                    branch(
                        Kind::Member { computed: false },
                        seq![
                            branch(Kind::Call, seq![ident("import"@), import_arg(locale, span)]),
                            ident("then"@),
                        ],
                    ),
                    on_resolve,
                ],
            ),
        ],
    )
}

/// `return;`
pub open spec fn empty_return_stmt() -> SpecNode {
    branch(Kind::Return, seq![])
}

/// `(dict) => dict && dict.default`
pub open spec fn default_dict_arrow_fn() -> SpecNode {
    branch(
        Kind::Arrow { is_async: false, is_generator: false },
        seq![
            branch(Kind::Params, seq![bident("dict"@)]),
            branch(
                Kind::Bin(BinOp::LogicalAnd),
                seq![
                    ident("dict"@),
                    branch(Kind::Member { computed: false }, seq![ident("dict"@), ident("default"@)]),
                ],
            ),
        ],
    )
}

/// `const returnDefault = (dict) => dict && dict.default;`
pub open spec fn explicit_paths_define_arrow_fn_stmt() -> SpecNode {
    branch(
        Kind::VarDecl(VarKind::Const),
        seq![branch(Kind::VarDeclarator, seq![bident("returnDefault"@), default_dict_arrow_fn()])],
    )
}

/// `case "<id>": return import("./translations/<id>.json").then(returnDefault);`
pub open spec fn switch_case(id: Seq<char>, span: Span) -> SpecNode {
    branch(
        Kind::Case,
        seq![
            string_lit(id, dummy_span()),
            import_promise_return_stmt(Some(id), ident("returnDefault"@), span),
        ],
    )
}

/// The cases for `ids`, the one for `ids[i]` spanning `lo + i`.
pub open spec fn switch_cases(ids: Seq<Seq<char>>, lo: int) -> Seq<SpecNode> {
    Seq::new(ids.len(), |i: int| switch_case(ids[i], comment_span(lo + i)))
}

/// `switch (locale) { case ... }`
pub open spec fn explicit_paths_switch_stmt(ids: Seq<Seq<char>>, lo: int) -> SpecNode {
    branch(Kind::Switch, seq![ident("locale"@)] + switch_cases(ids, lo))
}

/// `return Promise.resolve(<dict>[locale]);`
pub open spec fn dictionary_index_return_stmt(dict: Seq<char>) -> SpecNode {
    branch(
        Kind::Return,
        seq![
            branch(
                Kind::Call,
                seq![
                    branch(Kind::Member { computed: false }, seq![ident("Promise"@), ident("resolve"@)]),
                    branch(Kind::Member { computed: true }, seq![ident(dict), ident("locale"@)]),
                ],
            ),
        ],
    )
}

/// `{ id: "<id>", fallback: <fallback>, translations(locale) { <stmts> } }`
pub open spec fn generate_i18n_call_arguments(
    id: Seq<char>,
    fallback: SpecNode,
    stmts: Seq<SpecNode>,
) -> SpecNode {
    branch(
        Kind::Object,
        seq![
            branch(Kind::KeyValueProp, seq![ident("id"@), string_lit(id, dummy_span())]),
            branch(Kind::KeyValueProp, seq![ident("fallback"@), fallback]),
            branch(
                Kind::MethodProp,
                seq![
                    ident("translations"@),
                    branch(
                        Kind::Function { is_async: false, is_generator: false },
                        seq![
                            branch(Kind::Params, seq![bident("locale"@)]),
                            branch(Kind::Block, stmts),
                        ],
                    ),
                ],
            ),
        ],
    )
}

/// `import <id> from "<src>";`
pub open spec fn import_decl(id: Seq<char>, src: Seq<char>) -> SpecNode {
    branch(
        Kind::ImportDecl { type_only: false },
        seq![string_lit(src, dummy_span()), branch(Kind::ImportDefault, seq![ident(id)])],
    )
}

// ---------------------------------------------------------------------
// Building them.

fn mk_bident(sym: &str) -> (r: Node)
    ensures
        r@ == bident(sym@),
{
    mk_leaf(Kind::BindingIdent, sym, 0, dummy())
}

fn mk_zero() -> (r: Node)
    ensures
        r@ == zero(),
{
    let r = Node { kind: Kind::Num(0), text: String::new(), ctxt: 0, span: dummy(), children: Vec::new() };
    proof {
        assert(nodes_view(r.children@) =~= seq![]);
    }
    r
}

fn mk_fallback_from_dictionary(dict: &str) -> (r: Node)
    ensures
        r@ == fallback_expr_from_dictionary(dict@),
{
    let values = mk_branch(Kind::Member { computed: false }, vec![mk_ident("Object"), mk_ident("values")]);
    let call = mk_branch(Kind::Call, vec![values, mk_ident(dict)]);
    let z = mk_zero();
    let r = mk_branch(Kind::Member { computed: true }, vec![call, z]);
    proof {
        assert(values@.children =~= seq![ident("Object"@), ident("values"@)]);
        assert(call@.children =~= seq![values@, ident(dict@)]);
        assert(r@.children =~= seq![call@, zero()]);
    }
    r
}

fn mk_locale_eq_str(value: &str) -> (r: Node)
    ensures
        r@ == locale_eq_str_expr(value@),
{
    let l = mk_ident("locale");
    let v = mk_str(value, dummy());
    let r = mk_branch(Kind::Bin(BinOp::StrictNotEq), vec![l, v]);
    proof {
        assert(r@.children =~= seq![l@, v@]);
    }
    r
}

fn mk_not_found_in(target: Node) -> (r: Node)
    ensures
        r@ == not_found_in(target@),
{
    let ghost t = target@;
    let member = mk_branch(Kind::Member { computed: false }, vec![target, mk_ident("indexOf")]);
    let call = mk_branch(Kind::Call, vec![member, mk_ident("locale")]);
    let z = mk_zero();
    let r = mk_branch(Kind::Bin(BinOp::Lt), vec![call, z]);
    proof {
        assert(member@.children =~= seq![t, ident("indexOf"@)]);
        assert(call@.children =~= seq![member@, ident("locale"@)]);
        assert(r@.children =~= seq![call@, zero()]);
    }
    r
}

fn mk_is_in_str_array(ids: &Vec<String>) -> (r: Node)
    ensures
        r@ == is_in_str_array(ids@.map_values(|s: String| s@)),
{
    let ghost idv = ids@.map_values(|s: String| s@);
    let ghost want = idv.map_values(|id: Seq<char>| string_lit(id, dummy_span()));
    let mut elems: Vec<Node> = Vec::new();
    let mut i: usize = 0;
    while i < ids.len()
        invariant
            i <= ids.len(),
            idv == ids@.map_values(|s: String| s@),
            want == idv.map_values(|id: Seq<char>| string_lit(id, dummy_span())),
            nodes_view(elems@) == want.take(i as int),
        decreases ids.len() - i,
    {
        let e = mk_str(ids[i].as_str(), dummy());
        let ghost before = nodes_view(elems@);
        elems.push(e);
        proof {
            assert(idv[i as int] == ids@[i as int]@);
            assert(want[i as int] == e@);
            assert(nodes_view(elems@) =~= before.push(e@));
            assert(want.take(i + 1) =~= want.take(i as int).push(want[i as int]));
        }
        i = i + 1;
    }
    let array = mk_branch(Kind::Array, elems);
    proof {
        assert(want.take(ids.len() as int) =~= want);
    }
    mk_not_found_in(array)
}

fn mk_translation_fn_check(test: Node) -> (r: Node)
    ensures
        r@ == translation_fn_check(test@),
{
    let ghost t = test@;
    let ret = mk_branch(Kind::Return, Vec::new());
    let block = mk_branch(Kind::Block, vec![ret]);
    let r = mk_branch(Kind::If, vec![test, block]);
    proof {
        assert(ret@.children =~= seq![]);
        assert(block@.children =~= seq![branch(Kind::Return, seq![])]);
        assert(r@.children =~= seq![t, block@]);
    }
    r
}

fn mk_translation_path(locale: &str) -> (r: String)
    ensures
        r@ == translation_path(locale@),
{
    join(join("./translations/", locale).as_str(), ".json")
}

fn mk_import_arg(locale: Option<&str>, span: Span) -> (r: Node)
    ensures
        r@ == import_arg(
            match locale {
                Some(l) => Some(l@),
                None => None,
            },
            span,
        ),
{
    match locale {
        Some(l) => mk_str(mk_translation_path(l).as_str(), span),
        None => {
            let l = mk_leaf(Kind::Ident, "locale", 0, span);
            let a = mk_leaf(Kind::TplElement { tail: false }, "./translations/", 0, dummy());
            let b = mk_leaf(Kind::TplElement { tail: false }, ".json", 0, dummy());
            let r = mk_spanned(Kind::Tpl, span, vec![l, a, b]);
            proof {
                assert(r@.children =~= seq![l@, a@, b@]);
            }
            r
        },
    }
}

fn mk_import_promise_return(locale: Option<&str>, on_resolve: Node, span: Span) -> (r: Node)
    ensures
        r@ == import_promise_return_stmt(
            match locale {
                Some(l) => Some(l@),
                None => None,
            },
            on_resolve@,
            span,
        ),
{
    let ghost lv = match locale {
        Some(l) => Some(l@),
        None => None,
    };
    let ghost res = on_resolve@;
    let arg = mk_import_arg(locale, span);
    let import = mk_branch(Kind::Call, vec![mk_ident("import"), arg]);
    let then = mk_branch(Kind::Member { computed: false }, vec![import, mk_ident("then")]);
    let call = mk_branch(Kind::Call, vec![then, on_resolve]);
    let r = mk_branch(Kind::Return, vec![call]);
    proof {
        assert(import@.children =~= seq![ident("import"@), import_arg(lv, span)]);
        assert(then@.children =~= seq![import@, ident("then"@)]);
        assert(call@.children =~= seq![then@, res]);
        assert(r@.children =~= seq![call@]);
    }
    r
}

fn mk_empty_return() -> (r: Node)
    ensures
        r@ == empty_return_stmt(),
{
    let r = mk_branch(Kind::Return, Vec::new());
    proof {
        assert(r@.children =~= seq![]);
    }
    r
}

fn mk_default_dict_arrow() -> (r: Node)
    ensures
        r@ == default_dict_arrow_fn(),
{
    let params = mk_branch(Kind::Params, vec![mk_bident("dict")]);
    let member = mk_branch(Kind::Member { computed: false }, vec![mk_ident("dict"), mk_ident("default")]);
    let and = mk_branch(Kind::Bin(BinOp::LogicalAnd), vec![mk_ident("dict"), member]);
    let r = mk_branch(Kind::Arrow { is_async: false, is_generator: false }, vec![params, and]);
    proof {
        assert(params@.children =~= seq![bident("dict"@)]);
        assert(member@.children =~= seq![ident("dict"@), ident("default"@)]);
        assert(and@.children =~= seq![ident("dict"@), member@]);
        assert(r@.children =~= seq![params@, and@]);
    }
    r
}

fn mk_define_return_default() -> (r: Node)
    ensures
        r@ == explicit_paths_define_arrow_fn_stmt(),
{
    let declarator = mk_branch(Kind::VarDeclarator, vec![mk_bident("returnDefault"), mk_default_dict_arrow()]);
    let r = mk_branch(Kind::VarDecl(VarKind::Const), vec![declarator]);
    proof {
        assert(declarator@.children =~= seq![bident("returnDefault"@), default_dict_arrow_fn()]);
        assert(r@.children =~= seq![declarator@]);
    }
    r
}

fn mk_switch_case(id: &str, span: Span) -> (r: Node)
    ensures
        r@ == switch_case(id@, span),
{
    let test = mk_str(id, dummy());
    let ret = mk_import_promise_return(Some(id), mk_ident("returnDefault"), span);
    let r = mk_branch(Kind::Case, vec![test, ret]);
    proof {
        assert(r@.children =~= seq![test@, ret@]);
    }
    r
}

fn mk_explicit_switch(ids: &Vec<String>, lo: u32) -> (r: Node)
    requires
        lo + ids.len() <= u32::MAX,
    ensures
        r@ == explicit_paths_switch_stmt(ids@.map_values(|s: String| s@), lo as int),
{
    let ghost idv = ids@.map_values(|s: String| s@);
    let ghost cases = switch_cases(idv, lo as int);
    let mut children: Vec<Node> = vec![mk_ident("locale")];
    let mut i: usize = 0;
    while i < ids.len()
        invariant
            i <= ids.len(),
            lo + ids.len() <= u32::MAX,
            idv == ids@.map_values(|s: String| s@),
            cases == switch_cases(idv, lo as int),
            nodes_view(children@) == seq![ident("locale"@)] + cases.take(i as int),
        decreases ids.len() - i,
    {
        let pos = lo + i as u32;
        let span = Span { lo: pos, hi: pos + 1 };
        let c = mk_switch_case(ids[i].as_str(), span);
        let ghost before = nodes_view(children@);
        children.push(c);
        proof {
            assert(span == comment_span(lo + i));
            assert(idv[i as int] == ids@[i as int]@);
            assert(cases[i as int] == c@);
            assert(nodes_view(children@) =~= before.push(c@));
            assert(cases.take(i + 1) =~= cases.take(i as int).push(cases[i as int]));
            assert(nodes_view(children@) =~= seq![ident("locale"@)] + cases.take(i + 1));
        }
        i = i + 1;
    }
    proof {
        assert(cases.take(ids.len() as int) =~= cases);
    }
    mk_branch(Kind::Switch, children)
}

fn mk_dictionary_return(dict: &str) -> (r: Node)
    ensures
        r@ == dictionary_index_return_stmt(dict@),
{
    let resolve = mk_branch(Kind::Member { computed: false }, vec![mk_ident("Promise"), mk_ident("resolve")]);
    let entry = mk_branch(Kind::Member { computed: true }, vec![mk_ident(dict), mk_ident("locale")]);
    let call = mk_branch(Kind::Call, vec![resolve, entry]);
    let r = mk_branch(Kind::Return, vec![call]);
    proof {
        assert(resolve@.children =~= seq![ident("Promise"@), ident("resolve"@)]);
        assert(entry@.children =~= seq![ident(dict@), ident("locale"@)]);
        assert(call@.children =~= seq![resolve@, entry@]);
        assert(r@.children =~= seq![call@]);
    }
    r
}

fn mk_call_arguments(id: &str, fallback: Node, stmts: Vec<Node>) -> (r: Node)
    ensures
        r@ == generate_i18n_call_arguments(id@, fallback@, nodes_view(stmts@)),
{
    let ghost fb = fallback@;
    let ghost st = nodes_view(stmts@);
    let id_prop = mk_branch(Kind::KeyValueProp, vec![mk_ident("id"), mk_str(id, dummy())]);
    let fallback_prop = mk_branch(Kind::KeyValueProp, vec![mk_ident("fallback"), fallback]);
    let params = mk_branch(Kind::Params, vec![mk_bident("locale")]);
    let body = mk_branch(Kind::Block, stmts);
    let function = mk_branch(Kind::Function { is_async: false, is_generator: false }, vec![params, body]);
    let method = mk_branch(Kind::MethodProp, vec![mk_ident("translations"), function]);
    let r = mk_branch(Kind::Object, vec![id_prop, fallback_prop, method]);
    proof {
        assert(id_prop@.children =~= seq![ident("id"@), string_lit(id@, dummy_span())]);
        assert(fallback_prop@.children =~= seq![ident("fallback"@), fb]);
        assert(params@.children =~= seq![bident("locale"@)]);
        assert(function@.children =~= seq![params@, body@]);
        assert(method@.children =~= seq![ident("translations"@), function@]);
        assert(r@.children =~= seq![id_prop@, fallback_prop@, method@]);
    }
    r
}

fn mk_import_decl(id: &str, src: &str) -> (r: Node)
    ensures
        r@ == import_decl(id@, src@),
{
    let spec_node = mk_branch(Kind::ImportDefault, vec![mk_ident(id)]);
    let r = mk_branch(Kind::ImportDecl { type_only: false }, vec![mk_str(src, dummy()), spec_node]);
    proof {
        assert(spec_node@.children =~= seq![ident(id@)]);
        assert(r@.children =~= seq![string_lit(src@, dummy_span()), spec_node@]);
    }
    r
}

// ---------------------------------------------------------------------
// The arguments for each mode.

/// How a component finds and loads its translations.
#[derive(Clone, Copy, PartialEq, Eq, Structural, Debug)]
pub enum I18nMode {
    /// Loads `./translations/${locale}.json` for the locales that exist.
    WithDynamicPaths,
    /// Loads each existing locale's file by its own `import`.
    WithExplicitPaths,
    /// Checks the locale against the index of `./translations`.
    FromGeneratedIndex,
    /// Reads all translations from the index of `./translations`.
    FromDictionaryIndex,
}

/// Why a module cannot be transformed.
#[derive(Clone, Copy, PartialEq, Eq, Structural, Debug)]
pub enum I18nError {
    /// More than one call in the module asks for translations.
    MultipleTranslationRequests,
    /// The component's path has no file name to make its id from.
    NoFileStem,
    /// A position past the end of the largest source file.
    PositionOverflow,
}

/// The comment that names a lazily loaded chunk.
pub open spec fn lazy_chunk_comment(id: Seq<char>) -> Seq<char> {
    " webpackChunkName: \""@ + id + "-i18n\", webpackMode: \"lazy-once\" "@
}

/// The comment that names a chunk.
pub open spec fn chunk_comment(id: Seq<char>) -> Seq<char> {
    " webpackChunkName: \""@ + id + "-i18n\" "@
}

/// The statements of `translations(locale)` with explicit paths: nothing to
/// load, one locale to check for, or a switch over the locales.
pub open spec fn explicit_stmts(ids: Seq<Seq<char>>, lo: int) -> Seq<SpecNode> {
    if ids.len() == 0 {
        seq![empty_return_stmt()]
    } else if ids.len() == 1 {
        seq![
            translation_fn_check(locale_eq_str_expr(ids[0])),
            import_promise_return_stmt(Some(ids[0]), default_dict_arrow_fn(), comment_span(lo)),
        ]
    } else {
        seq![explicit_paths_define_arrow_fn_stmt(), explicit_paths_switch_stmt(ids, lo)]
    }
}

/// The argument given to the call, for a component with this id, fallback
/// locale and other locales (ascending), `lo` being one past the call's start.
pub open spec fn i18n_arguments(
    mode: I18nMode,
    id: Seq<char>,
    locale: Seq<char>,
    ids: Seq<Seq<char>>,
    lo: int,
) -> SpecNode {
    match mode {
        I18nMode::WithDynamicPaths => generate_i18n_call_arguments(
            id,
            fallback_expr_from_locale(locale),
            seq![
                translation_fn_check(is_in_str_array(ids)),
                import_promise_return_stmt(None, default_dict_arrow_fn(), comment_span(lo)),
            ],
        ),
        I18nMode::WithExplicitPaths => generate_i18n_call_arguments(
            id,
            fallback_expr_from_locale(locale),
            explicit_stmts(ids, lo),
        ),
        I18nMode::FromGeneratedIndex => generate_i18n_call_arguments(
            id,
            fallback_expr_from_locale(locale),
            seq![
                translation_fn_check(is_in_array_var(index_array_id())),
                import_promise_return_stmt(None, default_dict_arrow_fn(), comment_span(lo)),
            ],
        ),
        I18nMode::FromDictionaryIndex => generate_i18n_call_arguments(
            id,
            fallback_expr_from_dictionary(index_array_id()),
            seq![dictionary_index_return_stmt(index_array_id())],
        ),
    }
}

/// The chunk-name comments added with the argument, in order.
pub open spec fn i18n_comments(mode: I18nMode, id: Seq<char>, ids: Seq<Seq<char>>, lo: int) -> Seq<
    (u32, CommentKind, Seq<char>),
> {
    match mode {
        I18nMode::WithDynamicPaths | I18nMode::FromGeneratedIndex => seq![
            (lo as u32, CommentKind::Block, lazy_chunk_comment(id)),
        ],
        I18nMode::WithExplicitPaths => if ids.len() == 0 {
            seq![]
        } else if ids.len() == 1 {
            seq![(lo as u32, CommentKind::Block, chunk_comment(id))]
        } else {
            Seq::new(ids.len(), |i: int| ((lo + i) as u32, CommentKind::Block, chunk_comment(id)))
        },
        I18nMode::FromDictionaryIndex => seq![],
    }
}

/// The largest position that the argument and its comments use, for a call
/// that starts at `call_lo`.
pub open spec fn last_position(mode: I18nMode, n: int, call_lo: int) -> int {
    match mode {
        I18nMode::WithDynamicPaths | I18nMode::FromGeneratedIndex => call_lo + 2,
        I18nMode::WithExplicitPaths => if n == 0 {
            call_lo + 1
        } else if n == 1 {
            call_lo + 2
        } else {
            call_lo + 1 + n
        },
        I18nMode::FromDictionaryIndex => call_lo + 1,
    }
}

fn mk_lazy_chunk_comment(id: &str) -> (r: String)
    ensures
        r@ == lazy_chunk_comment(id@),
{
    join(join(" webpackChunkName: \"", id).as_str(), "-i18n\", webpackMode: \"lazy-once\" ")
}

fn mk_chunk_comment(id: &str) -> (r: String)
    ensures
        r@ == chunk_comment(id@),
{
    join(join(" webpackChunkName: \"", id).as_str(), "-i18n\" ")
}

/// The argument for the call, adding its chunk comments to `comments`.
fn inject_arguments(
    comments: &mut Comments,
    mode: I18nMode,
    id: &str,
    locale: &str,
    ids: &Vec<String>,
    call_lo: u32,
) -> (r: Node)
    requires
        last_position(mode, ids.len() as int, call_lo as int) <= u32::MAX,
    ensures
        r@ == i18n_arguments(mode, id@, locale@, texts(ids@), call_lo + 1),
        final(comments)@ == old(comments)@ + i18n_comments(mode, id@, texts(ids@), call_lo + 1),
{
    let lo = call_lo + 1;
    let ghost idv = texts(ids@);
    let ghost c0 = comments@;
    match mode {
        I18nMode::WithDynamicPaths => {
            let fallback = mk_ident(get_locale_id(locale).as_str());
            let check = mk_translation_fn_check(mk_is_in_str_array(ids));
            comments.add_leading(lo, CommentKind::Block, mk_lazy_chunk_comment(id));
            let ret = mk_import_promise_return(None, mk_default_dict_arrow(), Span { lo, hi: lo + 1 });
            let ghost cv = check@;
            let ghost rv = ret@;
            let stmts = vec![check, ret];
            proof {
                reveal_strlit("_");
                assert(fallback@ == fallback_expr_from_locale(locale@));
                assert(nodes_view(stmts@) =~= seq![cv, rv]);
                assert(comments@ =~= c0 + i18n_comments(mode, id@, idv, lo as int));
            }
            mk_call_arguments(id, fallback, stmts)
        },
        I18nMode::FromGeneratedIndex => {
            let fallback = mk_ident(get_locale_id(locale).as_str());
            let check = mk_translation_fn_check(mk_not_found_in(mk_ident("__shopify__i18n_translations")));
            comments.add_leading(lo, CommentKind::Block, mk_lazy_chunk_comment(id));
            let ret = mk_import_promise_return(None, mk_default_dict_arrow(), Span { lo, hi: lo + 1 });
            let ghost cv = check@;
            let ghost rv = ret@;
            let stmts = vec![check, ret];
            proof {
                reveal_strlit("_");
                assert(fallback@ == fallback_expr_from_locale(locale@));
                assert(nodes_view(stmts@) =~= seq![cv, rv]);
                assert(comments@ =~= c0 + i18n_comments(mode, id@, idv, lo as int));
            }
            mk_call_arguments(id, fallback, stmts)
        },
        I18nMode::WithExplicitPaths => {
            let fallback = mk_ident(get_locale_id(locale).as_str());
            let n = ids.len();
            let stmts = if n == 0 {
                let s = vec![mk_empty_return()];
                proof {
                    assert(nodes_view(s@) =~= explicit_stmts(idv, lo as int));
                    assert(comments@ =~= c0 + i18n_comments(mode, id@, idv, lo as int));
                }
                s
            } else if n == 1 {
                let check = mk_translation_fn_check(mk_locale_eq_str(ids[0].as_str()));
                comments.add_leading(lo, CommentKind::Block, mk_chunk_comment(id));
                let ret = mk_import_promise_return(
                    Some(ids[0].as_str()),
                    mk_default_dict_arrow(),
                    Span { lo, hi: lo + 1 },
                );
                let ghost cv = check@;
                let ghost rv = ret@;
                let s = vec![check, ret];
                proof {
                    assert(idv[0] == ids@[0]@);
                    assert(nodes_view(s@) =~= explicit_stmts(idv, lo as int));
                    assert(comments@ =~= c0 + i18n_comments(mode, id@, idv, lo as int));
                }
                s
            } else {
                let define = mk_define_return_default();
                let mut i: usize = 0;
                while i < n
                    invariant
                        i <= n,
                        n == ids.len(),
                        n >= 2,
                        lo as int + n <= u32::MAX,
                        comments@ == c0 + Seq::new(
                            i as nat,
                            |k: int| ((lo + k) as u32, CommentKind::Block, chunk_comment(id@)),
                        ),
                    decreases n - i,
                {
                    comments.add_leading(lo + i as u32, CommentKind::Block, mk_chunk_comment(id));
                    proof {
                        assert(comments@ =~= c0 + Seq::new(
                            (i + 1) as nat,
                            |k: int| ((lo + k) as u32, CommentKind::Block, chunk_comment(id@)),
                        ));
                    }
                    i = i + 1;
                }
                let switch = mk_explicit_switch(ids, lo);
                let ghost dv = define@;
                let ghost sv = switch@;
                let s = vec![define, switch];
                proof {
                    assert(nodes_view(s@) =~= explicit_stmts(idv, lo as int));
                    assert(comments@ =~= c0 + i18n_comments(mode, id@, idv, lo as int));
                }
                s
            };
            proof {
                reveal_strlit("_");
                assert(fallback@ == fallback_expr_from_locale(locale@));
            }
            mk_call_arguments(id, fallback, stmts)
        },
        I18nMode::FromDictionaryIndex => {
            let fallback = mk_fallback_from_dictionary("__shopify__i18n_translations");
            let ret = mk_dictionary_return("__shopify__i18n_translations");
            let ghost rv = ret@;
            let stmts = vec![ret];
            proof {
                assert(nodes_view(stmts@) =~= seq![rv]);
                assert(comments@ =~= c0 + i18n_comments(mode, id@, idv, lo as int));
            }
            mk_call_arguments(id, fallback, stmts)
        },
    }
}

// ---------------------------------------------------------------------
// The component's id.

/// The digit for `d` (below 36) in base 36, lower case.
pub open spec fn base36_digit(d: nat) -> char {
    if d < 10 {
        (d + 48) as char
    } else {
        (d + 87) as char
    }
}

/// `n` written in base 36 with lower-case digits and no leading zero.
pub open spec fn base36_text(n: nat) -> Seq<char>
    decreases n,
{
    if n < 36 {
        seq![base36_digit(n)]
    } else {
        base36_text(n / 36).push(base36_digit(n % 36))
    }
}

/// The id of a component whose file is named `file_name` and whose path
/// hashes to `hash`: the file's stem, `_` and the hash in base 36.
pub open spec fn module_id(file_name: Seq<char>, hash: u64) -> Seq<char> {
    file_stem(file_name) + seq!['_'] + base36_text(hash as nat)
}

/// `radix_fmt::radix_36`, displayed: `n` in base 36, lower case.
#[verifier::external_body]
fn base36(n: u64) -> (r: String)
    ensures
        r@ == base36_text(n as nat),
{
    format!("{}", radix_fmt::radix_36(n))
}

/// `rustc_hash::FxHasher` fed the bytes of `text` and finished. Its value
/// depends on the machine's word size and byte order, so nothing is stated
/// of it.
#[verifier::external_body]
fn fx_hash(text: &str) -> u64 {
    let mut hasher = rustc_hash::FxHasher::default();
    hasher.write(text.as_bytes());
    hasher.finish()
}

/// A name that may be a file name in `path`: a non-empty run of its
/// characters without `/`.
pub open spec fn file_name_in(name: Seq<char>, path: Seq<char>) -> bool {
    &&& name.len() > 0
    &&& !name.contains('/')
    &&& is_piece(name, path)
}

/// Whether `path` reads the same on every platform: no `\`, no `:` and
/// no leading `//` (which some platforms read as a drive, a prefix or a
/// network share).
pub open spec fn portable_path(path: Seq<char>) -> bool {
    &&& !path.contains('\\')
    &&& !path.contains(':')
    &&& !has_prefix(path, seq!['/', '/'])
}

/// The index of the last `/` in `s`, or `-1` where there is none.
pub open spec fn last_slash(s: Seq<char>) -> int
    decreases s.len(),
{
    if s.len() == 0 {
        -1
    } else if s.last() == '/' {
        s.len() - 1
    } else {
        last_slash(s.drop_last())
    }
}

pub proof fn lemma_last_slash(s: Seq<char>)
    ensures
        -1 <= last_slash(s) < s.len(),
        last_slash(s) >= 0 ==> s[last_slash(s)] == '/',
        forall|i: int| last_slash(s) < i < s.len() ==> s[i] != '/',
    decreases s.len(),
{
    if s.len() > 0 && s.last() != '/' {
        lemma_last_slash(s.drop_last());
        assert forall|i: int| last_slash(s) < i < s.len() implies s[i] != '/' by {
            if i < s.len() - 1 {
                assert(s.drop_last()[i] == s[i]);
            }
        }
    }
}

/// The final component of `path`, as `Path::file_name` finds it in a
/// [`portable_path`]: the last `/`-separated piece, skipping empty and `.`
/// pieces; `None` where that piece is `..` or there is none.
pub open spec fn last_component(path: Seq<char>) -> Option<Seq<char>>
    decreases path.len(),
{
    let k = last_slash(path);
    proof {
        lemma_last_slash(path);
    }
    let piece = path.subrange(k + 1, path.len() as int);
    if piece.len() == 0 || piece == seq!['.'] {
        if k < 0 {
            None
        } else {
            last_component(path.subrange(0, k))
        }
    } else if piece == seq!['.', '.'] {
        None
    } else {
        Some(piece)
    }
}

/// `std::path::Path::file_name` of `path`: the path's final component,
/// where it has one. A component is a non-empty part of the path between
/// separators, and `/` separates on every platform. On a
/// [`portable_path`] every platform splits the same way, and the name is
/// [`last_component`]; elsewhere which component is final depends on the
/// platform and is not stated.
#[verifier::external_body]
fn path_file_name(path: &str) -> (r: Option<String>)
    ensures
        r matches Some(name) ==> file_name_in(name@, path@),
        portable_path(path@) ==> opt_text(r) == last_component(path@),
{
    match std::path::Path::new(path).file_name() {
        Some(name) => Some(name.to_string_lossy().into_owned()),
        None => None,
    }
}

/// The id of a component from its file name and the hash of its path.
pub fn format_id(file_name: &str, hash: u64) -> (r: String)
    ensures
        r@ == module_id(file_name@, hash),
{
    let name = stem(file_name);
    let digits = base36(hash);
    let r = join(join(name.as_str(), "_").as_str(), digits.as_str());
    proof {
        reveal_strlit("_");
        assert("_"@ =~= seq!['_']);
    }
    r
}

/// The id of the component at `filename`, or `None` where its path has no
/// file name.
pub fn generate_id(filename: &str) -> (r: Option<String>)
    ensures
        r matches Some(id) ==> exists|name: Seq<char>, h: u64|
            file_name_in(name, filename@) && id@ == #[trigger] module_id(name, h),
        portable_path(filename@) && last_component(filename@) is Some ==> (r matches Some(id)
            && exists|h: u64| id@ == #[trigger] module_id(last_component(filename@)->0, h)),
{
    match path_file_name(filename) {
        None => None,
        Some(name) => {
            let h = fx_hash(filename);
            let id = format_id(name.as_str(), h);
            proof {
                if portable_path(filename@) {
                    assert(name@ == last_component(filename@)->0);
                    assert(id@ == module_id(last_component(filename@)->0, h));
                }
            }
            Some(id)
        },
    }
}

// ---------------------------------------------------------------------
// The transform.

/// The transform for one component, and the state of its walk.
#[derive(Debug)]
pub struct I18nTransform {
    mode: I18nMode,
    default_locale: String,
    comments: Comments,
    translation_file_paths: Option<Vec<String>>,
    id: Option<String>,
    bindings: Vec<Id>,
    call_rewritten: bool,
    error: Option<I18nError>,
}

/// The view of an [`I18nTransform`].
pub struct I18nState {
    pub mode: I18nMode,
    /// The fallback locale.
    pub locale: Seq<char>,
    /// The comments of the module.
    pub comments: Seq<(u32, CommentKind, Seq<char>)>,
    /// The component's translation files, `None` where it has none.
    pub files: Option<Seq<Seq<char>>>,
    /// The component's id, `None` where its path has no file name.
    pub id: Option<Seq<char>>,
    /// The local names of `useI18n` and `withI18n` imports.
    pub bindings: Seq<(Seq<char>, u32)>,
    /// Whether a call was given its argument.
    pub rewritten: bool,
    pub error: Option<I18nError>,
}

impl View for I18nTransform {
    type V = I18nState;

    closed spec fn view(&self) -> I18nState {
        I18nState {
            mode: self.mode,
            locale: self.default_locale@,
            comments: self.comments@,
            files: opt_texts(self.translation_file_paths),
            id: opt_text_of(self.id),
            bindings: ids_view(self.bindings@),
            rewritten: self.call_rewritten,
            error: self.error,
        }
    }
}

pub open spec fn opt_text_of(o: Option<String>) -> Option<Seq<char>> {
    match o {
        Some(s) => Some(s@),
        None => None,
    }
}

/// Whether an imported name is `useI18n` or `withI18n`.
pub open spec fn is_i18n_call_name(name: Seq<char>) -> bool {
    name == "useI18n"@ || name == "withI18n"@
}

/// The local name that a named specifier binds, where what it imports is
/// `useI18n` or `withI18n`.
pub open spec fn i18n_local(s: SpecNode) -> Option<(Seq<char>, u32)> {
    if s.kind == Kind::ImportNamed && s.children.len() > 0 {
        let imported = if s.children.len() >= 2 {
            s.children[1].text
        } else {
            s.children[0].text
        };
        if is_i18n_call_name(imported) {
            Some(id_of(s.children[0]))
        } else {
            None
        }
    } else {
        None
    }
}

pub open spec fn i18n_locals(specs: Seq<SpecNode>) -> Seq<(Seq<char>, u32)>
    decreases specs.len(),
{
    if specs.len() == 0 {
        seq![]
    } else {
        i18n_locals(specs.drop_last()) + match i18n_local(specs.last()) {
            Some(id) => seq![id],
            None => seq![],
        }
    }
}

/// Whether `call` has no arguments and calls a `useI18n` or `withI18n` import.
pub open spec fn requests_translations(st: I18nState, call: SpecNode) -> bool {
    call.children.len() == 1 && call.children[0].kind == Kind::Ident && st.bindings.contains(
        id_of(call.children[0]),
    )
}

/// What a call that requests translations becomes, and the state after it.
pub open spec fn translate_call(st: I18nState, call: SpecNode) -> (I18nState, SpecNode) {
    if st.error is Some {
        (st, call)
    } else if st.rewritten {
        (I18nState { error: Some(I18nError::MultipleTranslationRequests), ..st }, call)
    } else {
        let st1 = I18nState { rewritten: true, ..st };
        match st.id {
            None => (I18nState { error: Some(I18nError::NoFileStem), ..st1 }, call),
            Some(id) => match st.files {
                None => (st1, call),
                Some(files) => {
                    let ids = locale_ids(files, st.locale);
                    if last_position(st.mode, ids.len() as int, call.span.lo as int) > u32::MAX {
                        (I18nState { error: Some(I18nError::PositionOverflow), ..st1 }, call)
                    } else {
                        let lo = call.span.lo + 1;
                        (
                            I18nState {
                                comments: st.comments + i18n_comments(st.mode, id, ids, lo),
                                ..st1
                            },
                            with_children(
                                call,
                                call.children.push(i18n_arguments(st.mode, id, st.locale, ids, lo)),
                            ),
                        )
                    }
                },
            },
        }
    }
}

impl Folder for I18nTransform {
    open spec fn import_step(st: I18nState, decl: SpecNode) -> (I18nState, SpecNode) {
        if decl.children.len() > 0 && decl.children[0].kind == Kind::Str && decl.children[0].text
            == "@shopify/react-i18n"@ {
            (I18nState { bindings: st.bindings + i18n_locals(decl.children.drop_first()), ..st }, decl)
        } else {
            (st, decl)
        }
    }

    open spec fn enter_step(st: I18nState) -> I18nState {
        st
    }

    open spec fn exit_step(st: I18nState) -> I18nState {
        st
    }

    open spec fn call_step(st: I18nState, call: SpecNode) -> (I18nState, SpecNode) {
        if requests_translations(st, call) {
            translate_call(st, call)
        } else {
            (st, call)
        }
    }

    open spec fn binding_step(st: I18nState, node: SpecNode) -> I18nState {
        st
    }

    /// The call step goes on with every call but a second request for
    /// translations, one where the component's path has no file name, and
    /// one whose comments would sit past the largest source file.
    open spec fn call_ok(st: I18nState, call: SpecNode) -> bool {
        Self::call_step(st, call).0.error is None
    }

    fn fold_import(&mut self, decl: Node) -> (r: Node) {
        let n = decl.children.len();
        if n == 0 || !matches!(decl.children[0].kind, Kind::Str) || !same_text(
            decl.children[0].text.as_str(),
            "@shopify/react-i18n",
        ) {
            return decl;
        }
        let ghost specs = decl@.children.drop_first();
        let ghost b0 = self@.bindings;
        let mut i: usize = 1;
        while i < n
            invariant
                1 <= i <= n,
                n == decl.children.len(),
                specs == decl@.children.drop_first(),
                self@ == (I18nState { bindings: self@.bindings, ..old(self)@ }),
                b0 == old(self)@.bindings,
                self@.bindings == b0 + i18n_locals(specs.take(i - 1)),
            decreases n - i,
        {
            let sp = &decl.children[i];
            let ghost before = self@.bindings;
            if matches!(sp.kind, Kind::ImportNamed) && sp.children.len() > 0 {
                let imported = if sp.children.len() >= 2 {
                    sp.children[1].text.as_str()
                } else {
                    sp.children[0].text.as_str()
                };
                if same_text(imported, "useI18n") || same_text(imported, "withI18n") {
                    let id = Id::of(&sp.children[0]);
                    self.bindings.push(id);
                    proof {
                        assert(ids_view(self.bindings@) =~= before.push(id@));
                    }
                }
            }
            proof {
                assert(specs.take(i as int).drop_last() =~= specs.take(i - 1));
                assert(specs.take(i as int).last() == decl.children@[i as int]@);
            }
            i = i + 1;
        }
        proof {
            assert(specs.take(n - 1) =~= specs);
        }
        decl
    }

    fn enter_block(&mut self) {
    }

    fn exit_block(&mut self) {
    }

    fn fold_call(&mut self, call: Node) -> (r: Node) {
        self.step_call(call)
    }

    fn see_binding(&mut self, node: &Node) {
    }
}

impl I18nTransform {
    /// The call step, recording what stops the transform instead of
    /// leaving it out; only the walk that looks for such inputs uses it
    /// as it is.
    fn step_call(&mut self, call: Node) -> (r: Node)
        ensures
            (final(self)@, r@) == <I18nTransform as Folder>::call_step(old(self)@, call@),
    {
        if !(call.children.len() == 1 && matches!(call.children[0].kind, Kind::Ident)) {
            return call;
        }
        let callee = Id::of(&call.children[0]);
        if !has_id(&self.bindings, &callee) {
            return call;
        }
        if self.error.is_some() {
            return call;
        }
        if self.call_rewritten {
            self.error = Some(I18nError::MultipleTranslationRequests);
            return call;
        }
        self.call_rewritten = true;
        if self.id.is_none() {
            self.error = Some(I18nError::NoFileStem);
            return call;
        }
        if self.translation_file_paths.is_none() {
            return call;
        }
        let ids = match &self.translation_file_paths {
            Some(files) => get_locale_ids(files, self.default_locale.as_str()),
            None => Vec::new(),
        };
        let call_lo = call.span.lo;
        let n = ids.len() as u64;
        let lo64 = call_lo as u64;
        let last: u64 = match self.mode {
            I18nMode::WithDynamicPaths | I18nMode::FromGeneratedIndex => lo64 + 2,
            I18nMode::WithExplicitPaths => if n == 0 {
                lo64 + 1
            } else if n == 1 {
                lo64 + 2
            } else if n > u32::MAX as u64 {
                u64::MAX
            } else {
                lo64 + 1 + n
            },
            I18nMode::FromDictionaryIndex => lo64 + 1,
        };
        if last > u32::MAX as u64 {
            self.error = Some(I18nError::PositionOverflow);
            return call;
        }
        let mode = self.mode;
        let args = match &self.id {
            Some(id) => inject_arguments(
                &mut self.comments,
                mode,
                id.as_str(),
                self.default_locale.as_str(),
                &ids,
                call_lo,
            ),
            None => {
                return call;
            },
        };
        let Node { kind, text, ctxt, span, mut children } = call;
        let ghost ch0 = children@;
        children.push(args);
        let r = Node { kind, text, ctxt, span, children };
        proof {
            assert(nodes_view(r.children@) =~= nodes_view(ch0).push(args@));
        }
        r
    }
}

/// The transform walked over a module to find what would stop it: its
/// call step goes on with every call and records that instead.
struct I18nProbe {
    inner: I18nTransform,
}

impl View for I18nProbe {
    type V = I18nState;

    closed spec fn view(&self) -> I18nState {
        self.inner@
    }
}

impl Folder for I18nProbe {
    open spec fn import_step(st: I18nState, decl: SpecNode) -> (I18nState, SpecNode) {
        <I18nTransform as Folder>::import_step(st, decl)
    }

    open spec fn enter_step(st: I18nState) -> I18nState {
        <I18nTransform as Folder>::enter_step(st)
    }

    open spec fn exit_step(st: I18nState) -> I18nState {
        <I18nTransform as Folder>::exit_step(st)
    }

    open spec fn call_step(st: I18nState, call: SpecNode) -> (I18nState, SpecNode) {
        <I18nTransform as Folder>::call_step(st, call)
    }

    open spec fn binding_step(st: I18nState, node: SpecNode) -> I18nState {
        <I18nTransform as Folder>::binding_step(st, node)
    }

    open spec fn call_ok(st: I18nState, call: SpecNode) -> bool {
        true
    }

    fn fold_import(&mut self, decl: Node) -> (r: Node) {
        self.inner.fold_import(decl)
    }

    fn enter_block(&mut self) {
        self.inner.enter_block()
    }

    fn exit_block(&mut self) {
        self.inner.exit_block()
    }

    fn fold_call(&mut self, call: Node) -> (r: Node) {
        self.inner.step_call(call)
    }

    fn see_binding(&mut self, node: &Node) {
        self.inner.see_binding(node)
    }
}

proof fn lemma_probe_fold(st: I18nState, n: SpecNode)
    ensures
        spec_fold_node::<I18nProbe>(st, n) == spec_fold_node::<I18nTransform>(st, n),
    decreases n, 0nat,
{
    lemma_probe_folds(st, n.children);
}

proof fn lemma_probe_folds(st: I18nState, s: Seq<SpecNode>)
    ensures
        spec_fold_nodes::<I18nProbe>(st, s) == spec_fold_nodes::<I18nTransform>(st, s),
    decreases s, s.len(),
{
    if s.len() > 0 {
        lemma_probe_folds(st, s.drop_last());
        let sm = spec_fold_nodes::<I18nTransform>(st, s.drop_last()).0;
        lemma_probe_fold(sm, s.last());
    }
}

/// Once the walk has an error, it keeps it.
pub(crate) proof fn lemma_error_stays(s: I18nState, n: SpecNode)
    requires
        s.error is Some,
    ensures
        spec_fold_node::<I18nTransform>(s, n).0.error == s.error,
    decreases n, 0nat,
{
    lemma_errors_stay(s, n.children);
}

pub(crate) proof fn lemma_errors_stay(s: I18nState, xs: Seq<SpecNode>)
    requires
        s.error is Some,
    ensures
        spec_fold_nodes::<I18nTransform>(s, xs).0.error == s.error,
    decreases xs, xs.len(),
{
    if xs.len() > 0 {
        lemma_errors_stay(s, xs.drop_last());
        let sm = spec_fold_nodes::<I18nTransform>(s, xs.drop_last()).0;
        lemma_error_stays(sm, xs.last());
    }
}

/// A walk that ends without an error reaches only calls that the call
/// step goes on with.
proof fn lemma_no_error_walk_ok(st: I18nState, n: SpecNode)
    requires
        st.error is None,
        spec_fold_node::<I18nTransform>(st, n).0.error is None,
    ensures
        crate::fold::walk_ok::<I18nTransform>(st, n),
    decreases n, 0nat,
{
    let s1 = spec_fold_nodes::<I18nTransform>(st, n.children).0;
    if n.kind != Kind::Call || s1.error is None {
        if !(n.kind is ImportDecl) {
            lemma_no_error_walks_ok(st, n.children);
        }
    }
}

proof fn lemma_no_error_walks_ok(st: I18nState, xs: Seq<SpecNode>)
    requires
        st.error is None,
        spec_fold_nodes::<I18nTransform>(st, xs).0.error is None,
    ensures
        crate::fold::walks_ok::<I18nTransform>(st, xs),
    decreases xs, xs.len(),
{
    if xs.len() > 0 {
        let sm = spec_fold_nodes::<I18nTransform>(st, xs.drop_last()).0;
        if sm.error is Some {
            lemma_error_stays(sm, xs.last());
        }
        lemma_no_error_walks_ok(st, xs.drop_last());
        lemma_no_error_walk_ok(sm, xs.last());
    }
}

/// `import <id> from "<src>";` placed first in the module.
pub open spec fn with_import_first(module: SpecNode, id: Seq<char>, src: Seq<char>) -> SpecNode {
    with_children(module, module.children.insert(0, import_decl(id, src)))
}

/// The module after its walk: the imports that the argument needs, where a
/// call was given one.
pub open spec fn with_i18n_imports(st: I18nState, module: SpecNode) -> SpecNode {
    if st.bindings.len() > 0 && st.rewritten {
        match st.mode {
            I18nMode::FromDictionaryIndex => with_import_first(module, index_array_id(), "./translations"@),
            I18nMode::FromGeneratedIndex => with_import_first(
                with_import_first(module, fallback_id(st.locale), translation_path(st.locale)),
                index_array_id(),
                "./translations"@,
            ),
            _ => with_import_first(module, fallback_id(st.locale), translation_path(st.locale)),
        }
    } else {
        module
    }
}

/// What stops the transform of `module`, if anything: a
/// second call in the file that requests translations, a component path
/// with no file name, or (a machine limit) a comment position past the
/// largest source file. Nothing stops it where the component has no
/// translation files.
pub open spec fn i18n_failure(st: I18nState, module: SpecNode) -> Option<I18nError> {
    if st.files is None {
        None
    } else {
        spec_fold_node::<I18nTransform>(st, module).0.error
    }
}

fn copy_texts(v: &Vec<String>) -> (r: Vec<String>)
    ensures
        texts(r@) == texts(v@),
{
    let mut r: Vec<String> = Vec::new();
    let mut i: usize = 0;
    while i < v.len()
        invariant
            i <= v.len(),
            r.len() == i,
            forall|j: int| 0 <= j < i ==> r@[j]@ == v@[j]@,
        decreases v.len() - i,
    {
        r.push(v[i].clone());
        i = i + 1;
    }
    assert(texts(r@) =~= texts(v@));
    r
}

fn insert_import(module: Node, id: &str, src: &str) -> (r: Node)
    ensures
        r@ == with_import_first(module@, id@, src@),
{
    let decl = mk_import_decl(id, src);
    let Node { kind, text, ctxt, span, mut children } = module;
    let ghost ch0 = children@;
    children.insert(0, decl);
    let r = Node { kind, text, ctxt, span, children };
    proof {
        assert(nodes_view(r.children@) =~= nodes_view(ch0).insert(0, decl@));
    }
    r
}

impl I18nTransform {
    /// The transform for a component with the given id (see
    /// [`generate_id`]), fallback locale, module comments and translation
    /// directory entries (`None` where there is no such directory).
    pub fn with_id(
        id: Option<String>,
        mode: I18nMode,
        default_locale: String,
        comments: Comments,
        translation_dir_entries: Option<Vec<String>>,
    ) -> (r: I18nTransform)
        ensures
            r@ == (I18nState {
                mode,
                locale: default_locale@,
                comments: comments@,
                files: translation_files(opt_texts(translation_dir_entries)),
                id: opt_text_of(id),
                bindings: seq![],
                rewritten: false,
                error: None,
            }),
    {
        let r = I18nTransform {
            mode,
            default_locale,
            comments,
            translation_file_paths: get_translation_file_paths(translation_dir_entries),
            id,
            bindings: Vec::new(),
            call_rewritten: false,
            error: None,
        };
        proof {
            assert(ids_view(r.bindings@) =~= seq![]);
        }
        r
    }

    /// The comments of the module, with those that the transform added.
    pub fn comments(&self) -> (r: &Comments)
        ensures
            r@ == self@.comments,
    {
        &self.comments
    }

    /// A copy of the transform and its state.
    fn copy(&self) -> (r: I18nTransform)
        ensures
            r@ == self@,
    {
        let translation_file_paths = match &self.translation_file_paths {
            None => None,
            Some(v) => Some(copy_texts(v)),
        };
        let id = match &self.id {
            None => None,
            Some(s) => Some(s.clone()),
        };
        let mut bindings: Vec<Id> = Vec::new();
        let mut i: usize = 0;
        while i < self.bindings.len()
            invariant
                i <= self.bindings.len(),
                bindings.len() == i,
                forall|j: int| 0 <= j < i ==> bindings@[j]@ == self.bindings@[j]@,
            decreases self.bindings.len() - i,
        {
            bindings.push(self.bindings[i].copy());
            i = i + 1;
        }
        let r = I18nTransform {
            mode: self.mode,
            default_locale: self.default_locale.clone(),
            comments: self.comments.copy(),
            translation_file_paths,
            id,
            bindings,
            call_rewritten: self.call_rewritten,
            error: self.error,
        };
        assert(ids_view(r.bindings@) =~= ids_view(self.bindings@));
        r
    }

    /// The error that stops the transform of `module`, if any (see
    /// [`i18n_failure`]). A caller tests it before [`Self::fold_module`].
    pub fn failure(&self, module: &Node) -> (r: Option<I18nError>)
        ensures
            r == i18n_failure(self@, module@),
    {
        if self.translation_file_paths.is_none() {
            return None;
        }
        let mut probe = I18nProbe { inner: self.copy() };
        proof {
            assert(crate::fold::admits_all::<I18nProbe>());
            crate::fold::lemma_walk_ok_all::<I18nProbe>(probe@, module@);
            lemma_probe_fold(self@, module@);
        }
        let _ = fold_node(&mut probe, copy_node(module));
        probe.inner.error
    }

    /// Transforms a module that [`i18n_failure`] does not stop: unchanged
    /// where the component has no translation files; else walked, then
    /// given the imports it needs.
    pub fn fold_module(&mut self, module: Node) -> (r: Node)
        requires
            i18n_failure(old(self)@, module@) is None,
        ensures
            old(self)@.files is None ==> r@ == module@ && final(self)@ == old(self)@,
            old(self)@.files is Some ==> {
                let (st, m) = spec_fold_node::<I18nTransform>(old(self)@, module@);
                &&& final(self)@ == st
                &&& r@ == with_i18n_imports(st, m)
            },
    {
        if self.translation_file_paths.is_none() {
            return module;
        }
        proof {
            if self@.error is Some {
                lemma_error_stays(self@, module@);
            }
            lemma_no_error_walk_ok(self@, module@);
        }
        let m = fold_node(self, module);
        if self.bindings.len() > 0 && self.call_rewritten {
            let locale = self.default_locale.as_str();
            match self.mode {
                I18nMode::FromDictionaryIndex => insert_import(
                    m,
                    "__shopify__i18n_translations",
                    "./translations",
                ),
                I18nMode::FromGeneratedIndex => {
                    let m1 = insert_import(
                        m,
                        get_locale_id(locale).as_str(),
                        mk_translation_path(locale).as_str(),
                    );
                    insert_import(m1, "__shopify__i18n_translations", "./translations")
                },
                _ => insert_import(
                    m,
                    get_locale_id(locale).as_str(),
                    mk_translation_path(locale).as_str(),
                ),
            }
        } else {
            m
        }
    }
}

/// The transform for the component at `filename`: its id comes from the
/// path's file name and hash, its translation files from the entries of
/// the `translations` directory next to it (`None` where there is none).
pub fn i18n_transform(
    filename: &str,
    mode: I18nMode,
    default_locale: String,
    comments: Comments,
    translation_dir_entries: Option<Vec<String>>,
) -> (r: I18nTransform)
    ensures
        r@.mode == mode,
        r@.locale == default_locale@,
        r@.comments == comments@,
        r@.files == translation_files(opt_texts(translation_dir_entries)),
        r@.id matches Some(id) ==> exists|name: Seq<char>, h: u64|
            file_name_in(name, filename@) && id == #[trigger] module_id(name, h),
        portable_path(filename@) && last_component(filename@) is Some ==> (r@.id matches Some(id)
            && exists|h: u64| id == #[trigger] module_id(last_component(filename@)->0, h)),
        r@.bindings == Seq::<(Seq<char>, u32)>::empty(),
        !r@.rewritten,
        r@.error is None,
{
    let id = generate_id(filename);
    I18nTransform::with_id(id, mode, default_locale, comments, translation_dir_entries)
}

// ---------------------------------------------------------------------
// Laws.

/// A call that already has arguments is never given translations.
pub proof fn law_calls_with_arguments_untouched(st: I18nState, call: SpecNode)
    requires
        call.children.len() > 1,
    ensures
        <I18nTransform as Folder>::call_step(st, call) == (st, call),
{
}

/// The name that a named specifier imports: its second identifier where
/// it has one (`imported as local`), else its only one.
pub open spec fn imported_name(s: SpecNode) -> Seq<char> {
    if s.children.len() >= 2 {
        s.children[1].text
    } else {
        s.children[0].text
    }
}

/// Whether `s` is a named specifier importing `useI18n` or `withI18n`.
pub open spec fn imports_hook(s: SpecNode) -> bool {
    &&& s.kind == Kind::ImportNamed
    &&& s.children.len() > 0
    &&& (imported_name(s) == "useI18n"@ || imported_name(s) == "withI18n"@)
}

proof fn lemma_locals_contain(specs: Seq<SpecNode>, j: int)
    requires
        0 <= j < specs.len(),
        imports_hook(specs[j]),
    ensures
        i18n_locals(specs).contains(id_of(specs[j].children[0])),
    decreases specs.len(),
{
    if j < specs.len() - 1 {
        lemma_locals_contain(specs.drop_last(), j);
        assert(specs.drop_last()[j] == specs[j]);
        let rest = i18n_locals(specs.drop_last());
        let k = choose|k: int| 0 <= k < rest.len() && rest[k] == id_of(specs[j].children[0]);
        assert(i18n_locals(specs)[k] == rest[k]);
    } else {
        let rest = i18n_locals(specs.drop_last());
        assert(i18n_locals(specs)[rest.len() as int] == id_of(specs[j].children[0]));
    }
}

proof fn lemma_locals_come_from(specs: Seq<SpecNode>, x: (Seq<char>, u32))
    requires
        i18n_locals(specs).contains(x),
    ensures
        exists|j: int| 0 <= j < specs.len() && imports_hook(specs[j]) && id_of(specs[j].children[0]) == x,
    decreases specs.len(),
{
    if specs.len() > 0 {
        let rest = i18n_locals(specs.drop_last());
        if rest.contains(x) {
            lemma_locals_come_from(specs.drop_last(), x);
            let j = choose|j: int|
                0 <= j < specs.drop_last().len() && imports_hook(specs.drop_last()[j]) && id_of(
                    specs.drop_last()[j].children[0],
                ) == x;
            assert(specs.drop_last()[j] == specs[j]);
        } else {
            let k = choose|k: int| 0 <= k < i18n_locals(specs).len() && i18n_locals(specs)[k] == x;
            assert(k >= rest.len());
            assert(imports_hook(specs.last()));
        }
    }
}

/// Reading an import from `@shopify/react-i18n` keeps the names bound
/// before, and binds the local name of every named specifier that imports
/// `useI18n` or `withI18n`, wherever it stands among the specifiers.
pub proof fn law_every_hook_specifier_binds(st: I18nState, decl: SpecNode, k: int)
    requires
        decl.children.len() > 0,
        decl.children[0].kind == Kind::Str,
        decl.children[0].text == "@shopify/react-i18n"@,
        1 <= k < decl.children.len(),
        imports_hook(decl.children[k]),
    ensures
        ({
            let (st1, d1) = <I18nTransform as Folder>::import_step(st, decl);
            &&& d1 == decl
            &&& st1.bindings.take(st.bindings.len() as int) == st.bindings
            &&& st1.bindings.contains(id_of(decl.children[k].children[0]))
        }),
{
    let specs = decl.children.drop_first();
    assert(specs[k - 1] == decl.children[k]);
    lemma_locals_contain(specs, k - 1);
    let st1 = <I18nTransform as Folder>::import_step(st, decl).0;
    let rest = i18n_locals(specs);
    let j = choose|j: int| 0 <= j < rest.len() && rest[j] == id_of(decl.children[k].children[0]);
    assert(st1.bindings[st.bindings.len() + j] == rest[j]);
    assert(st1.bindings.take(st.bindings.len() as int) =~= st.bindings);
}

/// Every name that reading an import binds is the local name of one of its
/// named specifiers importing `useI18n` or `withI18n`, and only imports
/// from `@shopify/react-i18n` bind any.
pub proof fn law_hook_bindings_come_from_specifiers(st: I18nState, decl: SpecNode, x: (Seq<char>, u32))
    requires
        ({
            let st1 = <I18nTransform as Folder>::import_step(st, decl).0;
            exists|i: int| st.bindings.len() <= i < st1.bindings.len() && st1.bindings[i] == x
        }),
    ensures
        decl.children.len() > 0,
        decl.children[0].kind == Kind::Str,
        decl.children[0].text == "@shopify/react-i18n"@,
        exists|k: int|
            1 <= k < decl.children.len() && imports_hook(decl.children[k]) && id_of(
                decl.children[k].children[0],
            ) == x,
{
    let specs = decl.children.drop_first();
    let st1 = <I18nTransform as Folder>::import_step(st, decl).0;
    let i = choose|i: int| st.bindings.len() <= i < st1.bindings.len() && st1.bindings[i] == x;
    let rest = i18n_locals(specs);
    assert(rest[i - st.bindings.len()] == x);
    lemma_locals_come_from(specs, x);
    let j = choose|j: int| 0 <= j < specs.len() && imports_hook(specs[j]) && id_of(specs[j].children[0]) == x;
    assert(specs[j] == decl.children[j + 1]);
}

/// The local name that a named specifier binds.
pub open spec fn specifier_local(s: SpecNode) -> (Seq<char>, u32) {
    id_of(s.children[0])
}

proof fn lemma_locals_are_hook_specifiers(specs: Seq<SpecNode>)
    ensures
        i18n_locals(specs) == specs.filter(|s: SpecNode| imports_hook(s)).map_values(
            |s: SpecNode| specifier_local(s),
        ),
    decreases specs.len(),
{
    reveal(Seq::filter);
    if specs.len() > 0 {
        lemma_locals_are_hook_specifiers(specs.drop_last());
        let rest = specs.drop_last().filter(|s: SpecNode| imports_hook(s));
        let s = specs.last();
        if imports_hook(s) {
            assert(i18n_local(s) == Some(specifier_local(s)));
            assert(rest.push(s).map_values(|s: SpecNode| specifier_local(s)) =~= rest.map_values(
                |s: SpecNode| specifier_local(s),
            ) + seq![specifier_local(s)]);
        } else {
            assert(i18n_local(s) is None);
            assert(i18n_locals(specs) =~= i18n_locals(specs.drop_last()));
        }
    }
}

/// Reading an import from `@shopify/react-i18n` binds, after the names
/// bound before, the local names of all its named specifiers that import
/// `useI18n` or `withI18n`, in the order in which they stand, and leaves
/// the import as it is.
pub proof fn law_hook_bindings_in_order(st: I18nState, decl: SpecNode)
    requires
        decl.children.len() > 0,
        decl.children[0].kind == Kind::Str,
        decl.children[0].text == "@shopify/react-i18n"@,
    ensures
        <I18nTransform as Folder>::import_step(st, decl) == (
            I18nState {
                bindings: st.bindings + decl.children.drop_first().filter(
                    |s: SpecNode| imports_hook(s),
                ).map_values(|s: SpecNode| specifier_local(s)),
                ..st
            },
            decl,
        ),
{
    lemma_locals_are_hook_specifiers(decl.children.drop_first());
}

/// A call given translations gets one more argument, the generated object,
/// and nothing else of it changes; the state records the rewrite and the
/// chunk comments and nothing else.
pub proof fn law_injection_appends_one_object(st: I18nState, call: SpecNode)
    requires
        st.files is Some,
        translate_call(st, call).0.error is None,
    ensures
        ({
            let (st1, c1) = translate_call(st, call);
            let ids = locale_ids(st.files->0, st.locale);
            let lo = call.span.lo + 1;
            &&& st.id is Some
            &&& c1 == with_children(
                call,
                call.children.push(i18n_arguments(st.mode, st.id->0, st.locale, ids, lo)),
            )
            &&& st1 == I18nState {
                comments: st.comments + i18n_comments(st.mode, st.id->0, ids, lo),
                rewritten: true,
                ..st
            }
        }),
{
}

/// Only one call in a module may request translations: a second request
/// stops the transform with an error and leaves the call as it is.
pub proof fn law_second_request_fails(st: I18nState, call: SpecNode)
    requires
        st.rewritten,
        st.error is None,
        requests_translations(st, call),
    ensures
        <I18nTransform as Folder>::call_step(st, call) == (
            I18nState { error: Some(I18nError::MultipleTranslationRequests), ..st },
            call,
        ),
{
}

/// Imports from packages other than `@shopify/react-i18n` bind nothing.
pub proof fn law_other_packages_bind_nothing(st: I18nState, decl: SpecNode)
    requires
        !(decl.children.len() > 0 && decl.children[0].kind == Kind::Str && decl.children[0].text
            == "@shopify/react-i18n"@),
    ensures
        <I18nTransform as Folder>::import_step(st, decl) == (st, decl),
{
}

/// With explicit paths and two or more other locales, there is one case
/// per locale, in order, each loading that locale's file and preceded by a
/// chunk comment of its own.
pub proof fn law_explicit_cases_per_locale(id: Seq<char>, locale: Seq<char>, ids: Seq<Seq<char>>, lo: int, i: int)
    requires
        ids.len() >= 2,
        0 <= i < ids.len(),
    ensures
        ({
            let body = i18n_arguments(I18nMode::WithExplicitPaths, id, locale, ids, lo).children[2].children[1].children[1];
            let switch = body.children[1];
            &&& switch.children.len() == ids.len() + 1
            &&& switch.children[i + 1] == switch_case(ids[i], comment_span(lo + i))
            &&& i18n_comments(I18nMode::WithExplicitPaths, id, ids, lo).len() == ids.len()
            &&& i18n_comments(I18nMode::WithExplicitPaths, id, ids, lo)[i] == ((lo + i) as u32, CommentKind::Block, chunk_comment(id))
        }),
{
    let body = i18n_arguments(I18nMode::WithExplicitPaths, id, locale, ids, lo).children[2].children[1].children[1];
    assert(body.children == explicit_stmts(ids, lo));
}

} // verus!
