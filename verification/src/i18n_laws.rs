//! What running the i18n transform on its own output does: nothing.
use vstd::prelude::*;
use crate::ast::{Kind, SpecNode, Span, BinOp, VarKind, branch, ident, leaf, spanned, string_lit, dummy_span};
use crate::fold::{Folder, spec_fold_node, spec_fold_nodes, with_children, lemma_folds_concat};
use crate::i18n_transform::{
    I18nMode, I18nState, I18nTransform, bident, comment_span, default_dict_arrow_fn,
    dictionary_index_return_stmt, explicit_stmts, fallback_expr_from_dictionary,
    fallback_expr_from_locale, fallback_id, generate_i18n_call_arguments, i18n_arguments,
    import_arg, import_promise_return_stmt, index_array_id, is_in_array_var, is_in_str_array,
    locale_eq_str_expr, not_found_in, switch_case, switch_cases, translation_fn_check,
    translation_path, zero, requests_translations, translate_call, with_i18n_imports,
    with_import_first, import_decl, lemma_error_stays,
};

verus! {

broadcast use vstd::seq_lib::group_seq_properties;

/// A tree that a fold leaves alone whatever the state: no import
/// declaration and no call without arguments anywhere in it.
spec fn quiet(n: SpecNode) -> bool
    decreases n, 0nat,
{
    &&& !(n.kind is ImportDecl)
    &&& !(n.kind == Kind::Call && n.children.len() == 1)
    &&& quiet_all(n.children)
}

spec fn quiet_all(s: Seq<SpecNode>) -> bool
    decreases s, s.len(),
{
    s.len() == 0 || (quiet_all(s.drop_last()) && quiet(s.last()))
}

proof fn lemma_quiet_all_each(s: Seq<SpecNode>)
    ensures
        quiet_all(s) <==> forall|i: int| 0 <= i < s.len() ==> #[trigger] quiet(s[i]),
    decreases s.len(),
{
    if s.len() > 0 {
        lemma_quiet_all_each(s.drop_last());
        if forall|i: int| 0 <= i < s.len() ==> #[trigger] quiet(s[i]) {
            assert forall|i: int| 0 <= i < s.drop_last().len() implies #[trigger] quiet(s.drop_last()[i]) by {
                assert(s.drop_last()[i] == s[i]);
            }
            assert(quiet(s[s.len() - 1]));
        }
        if quiet_all(s) {
            assert forall|i: int| 0 <= i < s.len() implies #[trigger] quiet(s[i]) by {
                if i < s.len() - 1 {
                    assert(s.drop_last()[i] == s[i]);
                }
            }
        }
    }
}

proof fn lemma_quiet_fold(st: I18nState, n: SpecNode)
    requires
        quiet(n),
    ensures
        spec_fold_node::<I18nTransform>(st, n) == (st, n),
    decreases n, 0nat,
{
    lemma_quiet_folds(st, n.children);
    assert(with_children(n, n.children) == n);
}

proof fn lemma_quiet_folds(st: I18nState, s: Seq<SpecNode>)
    requires
        quiet_all(s),
    ensures
        spec_fold_nodes::<I18nTransform>(st, s) == (st, s),
    decreases s, s.len(),
{
    if s.len() > 0 {
        lemma_quiet_folds(st, s.drop_last());
        lemma_quiet_fold(st, s.last());
        assert(s.drop_last().push(s.last()) =~= s);
    }
}

proof fn lemma_quiet_leaf(kind: Kind, text: Seq<char>, ctxt: u32, span: Span)
    requires
        !(kind is ImportDecl),
        kind != Kind::Call,
    ensures
        quiet(leaf(kind, text, ctxt, span)),
{
    lemma_quiet_all_each(leaf(kind, text, ctxt, span).children);
}

proof fn lemma_quiet_two(kind: Kind, a: SpecNode, b: SpecNode)
    requires
        !(kind is ImportDecl),
        quiet(a),
        quiet(b),
    ensures
        quiet(branch(kind, seq![a, b])),
{
    let n = branch(kind, seq![a, b]);
    assert(n.children[0] == a);
    assert(n.children[1] == b);
    lemma_quiet_all_each(n.children);
}

proof fn lemma_quiet_one(kind: Kind, a: SpecNode)
    requires
        !(kind is ImportDecl),
        kind != Kind::Call,
        quiet(a),
    ensures
        quiet(branch(kind, seq![a])),
{
    let n = branch(kind, seq![a]);
    assert(n.children[0] == a);
    lemma_quiet_all_each(n.children);
}

proof fn lemma_quiet_all(kind: Kind, cs: Seq<SpecNode>)
    requires
        !(kind is ImportDecl),
        kind != Kind::Call,
        forall|i: int| 0 <= i < cs.len() ==> #[trigger] quiet(cs[i]),
    ensures
        quiet(branch(kind, cs)),
{
    lemma_quiet_all_each(cs);
}

proof fn lemma_quiet_ident(sym: Seq<char>)
    ensures
        quiet(ident(sym)),
{
    lemma_quiet_leaf(Kind::Ident, sym, 0, dummy_span());
}

proof fn lemma_quiet_str(value: Seq<char>, span: Span)
    ensures
        quiet(string_lit(value, span)),
{
    lemma_quiet_leaf(Kind::Str, value, 0, span);
}

proof fn lemma_quiet_not_found_in(target: SpecNode)
    requires
        quiet(target),
    ensures
        quiet(not_found_in(target)),
{
    lemma_quiet_ident("indexOf"@);
    lemma_quiet_ident("locale"@);
    lemma_quiet_two(Kind::Member { computed: false }, target, ident("indexOf"@));
    let member = branch(Kind::Member { computed: false }, seq![target, ident("indexOf"@)]);
    lemma_quiet_two(Kind::Call, member, ident("locale"@));
    let call = branch(Kind::Call, seq![member, ident("locale"@)]);
    lemma_quiet_leaf(Kind::Num(0), seq![], 0, dummy_span());
    lemma_quiet_two(Kind::Bin(BinOp::Lt), call, zero());
}

proof fn lemma_quiet_check(test: SpecNode)
    requires
        quiet(test),
    ensures
        quiet(translation_fn_check(test)),
{
    let ret = branch(Kind::Return, seq![]);
    lemma_quiet_all(Kind::Return, seq![]);
    lemma_quiet_one(Kind::Block, ret);
    lemma_quiet_two(Kind::If, test, branch(Kind::Block, seq![ret]));
}

proof fn lemma_quiet_import_promise(locale: Option<Seq<char>>, on_resolve: SpecNode, span: Span)
    requires
        quiet(on_resolve),
    ensures
        quiet(import_promise_return_stmt(locale, on_resolve, span)),
{
    let arg = import_arg(locale, span);
    match locale {
        Some(l) => lemma_quiet_str(translation_path(l), span),
        None => {
            lemma_quiet_leaf(Kind::Ident, "locale"@, 0, span);
            lemma_quiet_leaf(Kind::TplElement { tail: false }, "./translations/"@, 0, dummy_span());
            lemma_quiet_leaf(Kind::TplElement { tail: false }, ".json"@, 0, dummy_span());
            assert(arg.children[0] == leaf(Kind::Ident, "locale"@, 0, span));
            assert(arg.children[1] == leaf(Kind::TplElement { tail: false }, "./translations/"@, 0, dummy_span()));
            assert(arg.children[2] == leaf(Kind::TplElement { tail: false }, ".json"@, 0, dummy_span()));
            lemma_quiet_all_each(arg.children);
            assert(quiet(arg));
        },
    }
    lemma_quiet_ident("import"@);
    lemma_quiet_two(Kind::Call, ident("import"@), arg);
    let load = branch(Kind::Call, seq![ident("import"@), arg]);
    lemma_quiet_ident("then"@);
    lemma_quiet_two(Kind::Member { computed: false }, load, ident("then"@));
    let then = branch(Kind::Member { computed: false }, seq![load, ident("then"@)]);
    lemma_quiet_two(Kind::Call, then, on_resolve);
    lemma_quiet_one(Kind::Return, branch(Kind::Call, seq![then, on_resolve]));
}

proof fn lemma_quiet_default_dict()
    ensures
        quiet(default_dict_arrow_fn()),
{
    lemma_quiet_leaf(Kind::BindingIdent, "dict"@, 0, dummy_span());
    lemma_quiet_one(Kind::Params, bident("dict"@));
    lemma_quiet_ident("dict"@);
    lemma_quiet_ident("default"@);
    lemma_quiet_two(Kind::Member { computed: false }, ident("dict"@), ident("default"@));
    let member = branch(Kind::Member { computed: false }, seq![ident("dict"@), ident("default"@)]);
    lemma_quiet_two(Kind::Bin(BinOp::LogicalAnd), ident("dict"@), member);
    lemma_quiet_two(
        Kind::Arrow { is_async: false, is_generator: false },
        branch(Kind::Params, seq![bident("dict"@)]),
        branch(Kind::Bin(BinOp::LogicalAnd), seq![ident("dict"@), member]),
    );
}

proof fn lemma_quiet_explicit(ids: Seq<Seq<char>>, lo: int)
    ensures
        forall|i: int| 0 <= i < explicit_stmts(ids, lo).len() ==> #[trigger] quiet(explicit_stmts(ids, lo)[i]),
{
    lemma_quiet_default_dict();
    if ids.len() == 0 {
        lemma_quiet_all(Kind::Return, seq![]);
    } else if ids.len() == 1 {
        lemma_quiet_ident("locale"@);
        lemma_quiet_str(ids[0], dummy_span());
        lemma_quiet_two(Kind::Bin(BinOp::StrictNotEq), ident("locale"@), string_lit(ids[0], dummy_span()));
        lemma_quiet_check(locale_eq_str_expr(ids[0]));
        lemma_quiet_import_promise(Some(ids[0]), default_dict_arrow_fn(), comment_span(lo));
    } else {
        lemma_quiet_leaf(Kind::BindingIdent, "returnDefault"@, 0, dummy_span());
        lemma_quiet_two(Kind::VarDeclarator, bident("returnDefault"@), default_dict_arrow_fn());
        lemma_quiet_one(
            Kind::VarDecl(VarKind::Const),
            branch(Kind::VarDeclarator, seq![bident("returnDefault"@), default_dict_arrow_fn()]),
        );
        let cases = seq![ident("locale"@)] + switch_cases(ids, lo);
        lemma_quiet_ident("locale"@);
        lemma_quiet_ident("returnDefault"@);
        assert forall|i: int| 0 <= i < cases.len() implies #[trigger] quiet(cases[i]) by {
            if i > 0 {
                let id = ids[i - 1];
                assert(cases[i] == switch_case(id, comment_span(lo + i - 1)));
                lemma_quiet_str(id, dummy_span());
                lemma_quiet_import_promise(Some(id), ident("returnDefault"@), comment_span(lo + i - 1));
                lemma_quiet_two(
                    Kind::Case,
                    string_lit(id, dummy_span()),
                    import_promise_return_stmt(Some(id), ident("returnDefault"@), comment_span(lo + i - 1)),
                );
            }
        }
        lemma_quiet_all(Kind::Switch, cases);
    }
}

proof fn lemma_quiet_arguments(mode: I18nMode, id: Seq<char>, locale: Seq<char>, ids: Seq<Seq<char>>, lo: int)
    ensures
        quiet(i18n_arguments(mode, id, locale, ids, lo)),
{
    let dict = index_array_id();
    let (fallback, stmts) = match mode {
        I18nMode::WithDynamicPaths => (
            fallback_expr_from_locale(locale),
            seq![
                translation_fn_check(is_in_str_array(ids)),
                import_promise_return_stmt(None, default_dict_arrow_fn(), comment_span(lo)),
            ],
        ),
        I18nMode::WithExplicitPaths => (fallback_expr_from_locale(locale), explicit_stmts(ids, lo)),
        I18nMode::FromGeneratedIndex => (
            fallback_expr_from_locale(locale),
            seq![
                translation_fn_check(is_in_array_var(dict)),
                import_promise_return_stmt(None, default_dict_arrow_fn(), comment_span(lo)),
            ],
        ),
        I18nMode::FromDictionaryIndex => (
            fallback_expr_from_dictionary(dict),
            seq![dictionary_index_return_stmt(dict)],
        ),
    };
    assert(i18n_arguments(mode, id, locale, ids, lo) == generate_i18n_call_arguments(id, fallback, stmts));
    lemma_quiet_default_dict();
    lemma_quiet_ident(fallback_id(locale));
    lemma_quiet_ident(dict);
    lemma_quiet_ident("locale"@);
    match mode {
        I18nMode::WithDynamicPaths => {
            let arr = branch(Kind::Array, ids.map_values(|i: Seq<char>| string_lit(i, dummy_span())));
            assert forall|i: int| 0 <= i < arr.children.len() implies #[trigger] quiet(arr.children[i]) by {
                lemma_quiet_str(ids[i], dummy_span());
            }
            lemma_quiet_all(Kind::Array, arr.children);
            lemma_quiet_not_found_in(arr);
            lemma_quiet_check(is_in_str_array(ids));
            lemma_quiet_import_promise(None, default_dict_arrow_fn(), comment_span(lo));
            assert(stmts[0] == translation_fn_check(is_in_str_array(ids)));
        },
        I18nMode::WithExplicitPaths => {
            lemma_quiet_explicit(ids, lo);
        },
        I18nMode::FromGeneratedIndex => {
            lemma_quiet_not_found_in(ident(dict));
            lemma_quiet_check(is_in_array_var(dict));
            lemma_quiet_import_promise(None, default_dict_arrow_fn(), comment_span(lo));
        },
        I18nMode::FromDictionaryIndex => {
            lemma_quiet_ident("Object"@);
            lemma_quiet_ident("values"@);
            lemma_quiet_two(Kind::Member { computed: false }, ident("Object"@), ident("values"@));
            let values = branch(Kind::Member { computed: false }, seq![ident("Object"@), ident("values"@)]);
            lemma_quiet_two(Kind::Call, values, ident(dict));
            lemma_quiet_leaf(Kind::Num(0), seq![], 0, dummy_span());
            lemma_quiet_two(Kind::Member { computed: true }, branch(Kind::Call, seq![values, ident(dict)]), zero());
            lemma_quiet_ident("Promise"@);
            lemma_quiet_ident("resolve"@);
            lemma_quiet_two(Kind::Member { computed: false }, ident("Promise"@), ident("resolve"@));
            let resolve = branch(Kind::Member { computed: false }, seq![ident("Promise"@), ident("resolve"@)]);
            lemma_quiet_two(Kind::Member { computed: true }, ident(dict), ident("locale"@));
            let at = branch(Kind::Member { computed: true }, seq![ident(dict), ident("locale"@)]);
            lemma_quiet_two(Kind::Call, resolve, at);
            lemma_quiet_one(Kind::Return, branch(Kind::Call, seq![resolve, at]));
        },
    }
    assert forall|i: int| 0 <= i < stmts.len() implies #[trigger] quiet(stmts[i]) by {}
    lemma_quiet_all(Kind::Block, stmts);
    lemma_quiet_leaf(Kind::BindingIdent, "locale"@, 0, dummy_span());
    lemma_quiet_one(Kind::Params, bident("locale"@));
    lemma_quiet_two(
        Kind::Function { is_async: false, is_generator: false },
        branch(Kind::Params, seq![bident("locale"@)]),
        branch(Kind::Block, stmts),
    );
    let method = branch(
        Kind::Function { is_async: false, is_generator: false },
        seq![branch(Kind::Params, seq![bident("locale"@)]), branch(Kind::Block, stmts)],
    );
    lemma_quiet_ident("translations"@);
    lemma_quiet_two(Kind::MethodProp, ident("translations"@), method);
    lemma_quiet_ident("id"@);
    lemma_quiet_str(id, dummy_span());
    lemma_quiet_two(Kind::KeyValueProp, ident("id"@), string_lit(id, dummy_span()));
    lemma_quiet_ident("fallback"@);
    lemma_quiet_two(Kind::KeyValueProp, ident("fallback"@), fallback);
    let props = seq![
        branch(Kind::KeyValueProp, seq![ident("id"@), string_lit(id, dummy_span())]),
        branch(Kind::KeyValueProp, seq![ident("fallback"@), fallback]),
        branch(Kind::MethodProp, seq![ident("translations"@), method]),
    ];
    assert forall|i: int| 0 <= i < props.len() implies #[trigger] quiet(props[i]) by {}
    lemma_quiet_all(Kind::Object, props);
}

// ---------------------------------------------------------------------
// A second run over the output.

/// How the state of a second run stands to that of the first: the same
/// names bound, nothing rewritten, no error.
spec fn again(s: I18nState, t: I18nState) -> bool {
    &&& t.bindings == s.bindings
    &&& !t.rewritten
    &&& t.error is None
    &&& s.files is Some
}

proof fn lemma_fold_again(s: I18nState, t: I18nState, n: SpecNode)
    requires
        again(s, t),
    ensures
        ({
            let (s1, n1) = spec_fold_node::<I18nTransform>(s, n);
            s1.error is None ==> {
                let (t1, n2) = spec_fold_node::<I18nTransform>(t, n1);
                n2 == n1 && again(s1, t1)
            }
        }),
    decreases n, 0nat,
{
    match n.kind {
        Kind::ImportDecl { .. } => {},
        Kind::Call => {
            lemma_folds_again(s, t, n.children);
            let (s1, cs1) = spec_fold_nodes::<I18nTransform>(s, n.children);
            let m = with_children(n, cs1);
            if requests_translations(s1, m) && s1.error is None && !s1.rewritten {
                let (s2, c2) = translate_call(s1, m);
                if s2.error is None {
                    let files = s1.files->0;
                    let ids = crate::translations::locale_ids(files, s1.locale);
                    let lo = m.span.lo + 1;
                    let args = i18n_arguments(s1.mode, s1.id->0, s1.locale, ids, lo);
                    assert(c2 == with_children(m, cs1.push(args)));
                    let t1 = spec_fold_nodes::<I18nTransform>(t, cs1).0;
                    lemma_quiet_arguments(s1.mode, s1.id->0, s1.locale, ids, lo);
                    lemma_folds_concat::<I18nTransform>(t, cs1, seq![args]);
                    lemma_quiet_all_each(seq![args]);
                    lemma_quiet_folds(t1, seq![args]);
                    assert(cs1.push(args) =~= cs1 + seq![args]);
                    assert(with_children(c2, c2.children) == c2);
                }
            }
        },
        _ => {
            lemma_folds_again(s, t, n.children);
        },
    }
}

proof fn lemma_folds_again(s: I18nState, t: I18nState, xs: Seq<SpecNode>)
    requires
        again(s, t),
    ensures
        ({
            let (s1, ys) = spec_fold_nodes::<I18nTransform>(s, xs);
            s1.error is None ==> {
                let (t1, zs) = spec_fold_nodes::<I18nTransform>(t, ys);
                zs == ys && again(s1, t1)
            }
        }),
    decreases xs, xs.len(),
{
    if xs.len() > 0 {
        lemma_folds_again(s, t, xs.drop_last());
        let (sm, init) = spec_fold_nodes::<I18nTransform>(s, xs.drop_last());
        let (sf, x) = spec_fold_node::<I18nTransform>(sm, xs.last());
        if sf.error is None {
            if sm.error is Some {
                lemma_error_stays(sm, xs.last());
            }
            let tm = spec_fold_nodes::<I18nTransform>(t, init).0;
            lemma_fold_again(sm, tm, xs.last());
            assert(init.push(x).drop_last() =~= init);
        }
    }
}

/// Transforming the transform's output again, from the same start, gives
/// it back unchanged: the call that got its argument no longer requests
/// translations, the code added requests none, and no import is added
/// twice.
pub proof fn law_output_is_fixed(st: I18nState, module: SpecNode)
    requires
        module.kind == Kind::Module,
        st.files is Some,
        !st.rewritten,
        st.error is None,
        spec_fold_node::<I18nTransform>(st, module).0.error is None,
    ensures
        ({
            let (st1, m) = spec_fold_node::<I18nTransform>(st, module);
            let out = with_i18n_imports(st1, m);
            let (st2, m2) = spec_fold_node::<I18nTransform>(st, out);
            &&& st2.error is None
            &&& with_i18n_imports(st2, m2) == out
        }),
{
    lemma_folds_again(st, st, module.children);
    let (st1, cs) = spec_fold_nodes::<I18nTransform>(st, module.children);
    let m = with_children(module, cs);
    let t1 = spec_fold_nodes::<I18nTransform>(st, cs).0;
    reveal_strlit("@shopify/react-i18n");
    reveal_strlit("./translations");
    reveal_strlit("./translations/");
    let react = "@shopify/react-i18n"@;
    let dict_src = "./translations"@;
    let fallback_src = translation_path(st1.locale);
    assert(dict_src[0] != react[0]);
    assert(fallback_src[0] == '.');
    assert(fallback_src != react) by {
        assert(fallback_src[0] != react[0]);
    }
    let imp_dict = import_decl(crate::i18n_transform::index_array_id(), dict_src);
    let imp_fallback = import_decl(fallback_id(st1.locale), fallback_src);
    assert(<I18nTransform as Folder>::import_step(st, imp_dict) == (st, imp_dict));
    assert(<I18nTransform as Folder>::import_step(st, imp_fallback) == (st, imp_fallback));
    if st1.bindings.len() > 0 && st1.rewritten {
        let imps = match st1.mode {
            I18nMode::FromDictionaryIndex => seq![imp_dict],
            I18nMode::FromGeneratedIndex => seq![imp_dict, imp_fallback],
            _ => seq![imp_fallback],
        };
        let out = with_i18n_imports(st1, m);
        assert(out.children =~= imps + cs);
        assert(spec_fold_nodes::<I18nTransform>(st, imps) == (st, imps)) by {
            let e = Seq::<SpecNode>::empty();
            assert(spec_fold_nodes::<I18nTransform>(st, e) == (st, e));
            assert(spec_fold_node::<I18nTransform>(st, imp_dict) == (st, imp_dict));
            assert(spec_fold_node::<I18nTransform>(st, imp_fallback) == (st, imp_fallback));
            let one_dict = seq![imp_dict];
            let one_fallback = seq![imp_fallback];
            assert(one_dict.drop_last() =~= e);
            assert(one_fallback.drop_last() =~= e);
            assert(e.push(imp_dict) =~= one_dict);
            assert(e.push(imp_fallback) =~= one_fallback);
            assert(spec_fold_nodes::<I18nTransform>(st, one_dict) == (st, one_dict));
            assert(spec_fold_nodes::<I18nTransform>(st, one_fallback) == (st, one_fallback));
            if imps.len() == 2 {
                assert(imps.drop_last() =~= one_dict);
                assert(one_dict.push(imp_fallback) =~= imps);
                assert(imps.last() == imp_fallback);
            }
        }
        lemma_folds_concat::<I18nTransform>(st, imps, cs);
        assert(with_children(out, out.children) == out);
    }
}

} // verus!
