//! Gives the loaders of async components an `id`.
//!
//! A call of a function imported from one of the async packages, whose first
//! argument is an object with a `load` that returns `import("path")`, gets
//! the property `id: () => require.resolveWeak("path")` (`require.resolve`
//! without webpack), unless it has an `id` already. A local assignment or
//! declaration of the imported name hides it in the enclosing block.
use vstd::prelude::*;
use crate::ast::{
    Id, Kind, Node, SpecNode, branch, dummy, dummy_span, has_id, id_of, ident, ids_view,
    lemma_node_view, mk_branch, mk_ident, mk_str, nodes_view, opt_text, string_lit,
};
use crate::fold::{Folder, fold_node, spec_fold_node};
use crate::text::same_text;

verus! {

broadcast use lemma_node_view, vstd::seq_lib::group_seq_properties;

/// A package whose named exports create async components.
#[derive(Debug)]
pub struct TargetPackage {
    pub source: String,
    pub exports: Vec<String>,
}

impl View for TargetPackage {
    type V = (Seq<char>, Seq<Seq<char>>);

    open spec fn view(&self) -> (Seq<char>, Seq<Seq<char>>) {
        (self.source@, self.exports@.map_values(|s: String| s@))
    }
}

/// The transform and the state of its walk.
#[derive(Debug)]
pub struct AsyncTransform {
    packages: Vec<TargetPackage>,
    webpack: bool,
    bindings: Vec<Id>,
    overridden_bindings: Vec<Vec<Id>>,
}

/// The view of an [`AsyncTransform`].
pub struct AsyncState {
    /// Source and exports of each target package.
    pub packages: Seq<(Seq<char>, Seq<Seq<char>>)>,
    /// Whether ids use `require.resolveWeak` (else `require.resolve`).
    pub webpack: bool,
    /// The names imported from target packages, in order of import.
    pub bindings: Seq<(Seq<char>, u32)>,
    /// For each open block, outermost first, the imported names that it hides.
    pub overridden: Seq<Seq<(Seq<char>, u32)>>,
}

impl View for AsyncTransform {
    type V = AsyncState;

    closed spec fn view(&self) -> AsyncState {
        AsyncState {
            packages: self.packages@.map_values(|p: TargetPackage| p@),
            webpack: self.webpack,
            bindings: ids_view(self.bindings@),
            overridden: self.overridden_bindings@.map_values(|v: Vec<Id>| ids_view(v@)),
        }
    }
}

/// The packages that the transform knows, and the exports of each.
pub open spec fn default_packages() -> Seq<(Seq<char>, Seq<Seq<char>>)> {
    seq![
        ("@shopify/alpaql/async"@, seq!["createAsyncQuery"@]),
        ("@shopify/async"@, seq!["createResolver"@]),
        ("@shopify/react-async"@, seq!["createAsyncContext"@, "createAsyncComponent"@]),
        ("@shopify/react-graphql"@, seq!["createAsyncQueryComponent"@, "createAsyncQuery"@]),
    ]
}

/// Whether imports from `source` are tracked.
pub open spec fn is_target_package(st: AsyncState, source: Seq<char>) -> bool {
    exists|i: int| 0 <= i < st.packages.len() && #[trigger] st.packages[i].0 == source
}

/// Whether a call of `id` is rewritten: it was imported from a target
/// package and no open block hides it.
pub open spec fn is_target_binding(st: AsyncState, id: (Seq<char>, u32)) -> bool {
    &&& st.bindings.contains(id)
    &&& !exists|j: int| 0 <= j < st.overridden.len() && #[trigger] st.overridden[j].contains(id)
}

/// The local name that an import specifier binds, for default and named ones.
pub open spec fn specifier_local(s: SpecNode) -> Option<(Seq<char>, u32)> {
    match s.kind {
        Kind::ImportDefault | Kind::ImportNamed => if s.children.len() > 0 {
            Some(id_of(s.children[0]))
        } else {
            None
        },
        _ => None,
    }
}

/// The local names that default and named specifiers bind, in order.
pub open spec fn specifier_locals(specs: Seq<SpecNode>) -> Seq<(Seq<char>, u32)>
    decreases specs.len(),
{
    if specs.len() == 0 {
        seq![]
    } else {
        specifier_locals(specs.drop_last()) + match specifier_local(specs.last()) {
            Some(id) => seq![id],
            None => seq![],
        }
    }
}

/// The import declaration's source, if it is a string literal.
pub open spec fn import_source(decl: SpecNode) -> Option<Seq<char>> {
    if decl.children.len() > 0 && decl.children[0].kind == Kind::Str {
        Some(decl.children[0].text)
    } else {
        None
    }
}

/// The names that the declarators in `decls` declare and that are imported.
pub open spec fn declared_imports(
    bindings: Seq<(Seq<char>, u32)>,
    decls: Seq<SpecNode>,
) -> Seq<(Seq<char>, u32)>
    decreases decls.len(),
{
    if decls.len() == 0 {
        seq![]
    } else {
        let d = decls.last();
        declared_imports(bindings, decls.drop_last()) + if d.children.len() > 0
            && d.children[0].kind == Kind::BindingIdent && bindings.contains(
            id_of(d.children[0]),
        ) {
            seq![id_of(d.children[0])]
        } else {
            seq![]
        }
    }
}

/// `ids` recorded as hidden in the innermost open block, if any.
pub open spec fn hide_in_top(ov: Seq<Seq<(Seq<char>, u32)>>, ids: Seq<(Seq<char>, u32)>) -> Seq<
    Seq<(Seq<char>, u32)>,
> {
    if ov.len() == 0 {
        ov
    } else {
        ov.update(ov.len() - 1, ov.last() + ids)
    }
}

/// The names that a finished assignment or variable declaration hides.
pub open spec fn hidden_by(bindings: Seq<(Seq<char>, u32)>, n: SpecNode) -> Seq<(Seq<char>, u32)> {
    match n.kind {
        Kind::Assign { .. } => if n.children.len() > 0 && n.children[0].kind == Kind::BindingIdent
            && bindings.contains(id_of(n.children[0])) {
            seq![id_of(n.children[0])]
        } else {
            seq![]
        },
        Kind::VarDecl(_) => declared_imports(bindings, n.children),
        _ => seq![],
    }
}

// ---------------------------------------------------------------------
// Finding the import path of a loader.

/// The string that a call `import("path")` loads.
pub open spec fn import_call_path(call: SpecNode) -> Option<Seq<char>> {
    if call.children.len() >= 2 && call.children[0].kind == Kind::Ident && call.children[0].text
        == "import"@ {
        let arg = call.children[1];
        let e = if arg.kind == Kind::Spread && arg.children.len() > 0 {
            arg.children[0]
        } else {
            arg
        };
        if e.kind == Kind::Str {
            Some(e.text)
        } else {
            None
        }
    } else {
        None
    }
}

/// A block whose last statement is `return import("path")`.
pub open spec fn block_path(block: SpecNode) -> Option<Seq<char>> {
    let stmts = block.children;
    if stmts.len() > 0 && stmts.last().kind == Kind::Return && stmts.last().children.len() > 0
        && stmts.last().children[0].kind == Kind::Call {
        import_call_path(stmts.last().children[0])
    } else {
        None
    }
}

/// An arrow function whose body is `import("path")` or such a block.
pub open spec fn arrow_path(arrow: SpecNode) -> Option<Seq<char>> {
    if arrow.children.len() >= 2 {
        let body = arrow.children[1];
        if body.kind == Kind::Call {
            import_call_path(body)
        } else if body.kind == Kind::Block {
            block_path(body)
        } else {
            None
        }
    } else {
        None
    }
}

/// A function whose body is such a block.
pub open spec fn function_path(f: SpecNode) -> Option<Seq<char>> {
    if f.children.len() >= 2 && f.children[1].kind == Kind::Block {
        block_path(f.children[1])
    } else {
        None
    }
}

/// The path of the value of a `load` property.
pub open spec fn load_path(value: SpecNode) -> Option<Seq<char>> {
    match value.kind {
        Kind::Arrow { .. } => arrow_path(value),
        Kind::Function { .. } => function_path(value),
        _ => None,
    }
}

/// One property of the options object: `None` stops the rewrite, else the
/// path found so far.
pub open spec fn scan_step(acc: Option<Seq<char>>, prop: SpecNode) -> Option<Option<Seq<char>>> {
    match prop.kind {
        Kind::Spread => Some(acc),
        Kind::KeyValueProp => if prop.children.len() >= 2 && prop.children[0].kind == Kind::Ident {
            if prop.children[0].text == "load"@ {
                Some(load_path(prop.children[1]))
            } else if prop.children[0].text == "id"@ {
                None
            } else {
                Some(acc)
            }
        } else {
            None
        },
        Kind::MethodProp => if prop.children.len() >= 2 && prop.children[1].children.len() >= 2
            && prop.children[1].children[1].kind == Kind::Block {
            Some(block_path(prop.children[1].children[1]))
        } else {
            Some(acc)
        },
        _ => None,
    }
}

/// The properties in order: `None` if one stops the rewrite, else the path
/// that the last loader gave.
pub open spec fn scan_props(props: Seq<SpecNode>) -> Option<Option<Seq<char>>>
    decreases props.len(),
{
    if props.len() == 0 {
        Some(None)
    } else {
        match scan_props(props.drop_last()) {
            None => None,
            Some(acc) => scan_step(acc, props.last()),
        }
    }
}

/// `id: () => require.resolveWeak("path")`, or `require.resolve` without webpack.
pub open spec fn id_prop(path: Seq<char>, webpack: bool) -> SpecNode {
    let resolve = if webpack {
        "resolveWeak"@
    } else {
        "resolve"@
    };
    let callee = branch(Kind::Member { computed: false }, seq![ident("require"@), ident(resolve)]);
    let call = branch(Kind::Call, seq![callee, string_lit(path, dummy_span())]);
    let arrow = branch(
        Kind::Arrow { is_async: false, is_generator: false },
        seq![branch(Kind::Params, seq![]), call],
    );
    branch(Kind::KeyValueProp, seq![ident("id"@), arrow])
}

/// The object that the first argument of a call is, through a spread.
pub open spec fn options_object(call: SpecNode) -> SpecNode {
    let arg = call.children[1];
    if arg.kind == Kind::Spread && arg.children.len() > 0 {
        arg.children[0]
    } else {
        arg
    }
}

/// `call` with its options object replaced by `obj`.
pub open spec fn with_options_object(call: SpecNode, obj: SpecNode) -> SpecNode {
    let arg = call.children[1];
    let new_arg = if arg.kind == Kind::Spread && arg.children.len() > 0 {
        crate::fold::with_children(arg, arg.children.update(0, obj))
    } else {
        obj
    };
    crate::fold::with_children(call, call.children.update(1, new_arg))
}

/// A call of a target binding after its children are done: an `id` property
/// is added when the options object has a loader path and no `id`.
pub open spec fn rewrite_call(call: SpecNode, webpack: bool) -> SpecNode {
    if call.children.len() < 2 {
        call
    } else {
        let obj = options_object(call);
        if obj.kind == Kind::Object {
            match scan_props(obj.children) {
                Some(Some(path)) => with_options_object(
                    call,
                    crate::fold::with_children(obj, obj.children.push(id_prop(path, webpack))),
                ),
                _ => call,
            }
        } else {
            call
        }
    }
}

/// Whether the callee of `call` is an identifier for a target binding.
pub open spec fn calls_target(st: AsyncState, call: SpecNode) -> bool {
    call.children.len() > 0 && call.children[0].kind == Kind::Ident && is_target_binding(
        st,
        id_of(call.children[0]),
    )
}

impl Folder for AsyncTransform {
    open spec fn import_step(st: AsyncState, decl: SpecNode) -> (AsyncState, SpecNode) {
        match import_source(decl) {
            Some(src) => if is_target_package(st, src) {
                (
                    AsyncState {
                        bindings: st.bindings + specifier_locals(decl.children.drop_first()),
                        ..st
                    },
                    decl,
                )
            } else {
                (st, decl)
            },
            None => (st, decl),
        }
    }

    open spec fn enter_step(st: AsyncState) -> AsyncState {
        AsyncState { overridden: st.overridden.push(seq![]), ..st }
    }

    open spec fn exit_step(st: AsyncState) -> AsyncState {
        if st.overridden.len() > 0 {
            AsyncState { overridden: st.overridden.drop_last(), ..st }
        } else {
            st
        }
    }

    open spec fn call_step(st: AsyncState, call: SpecNode) -> (AsyncState, SpecNode) {
        if calls_target(st, call) {
            (st, rewrite_call(call, st.webpack))
        } else {
            (st, call)
        }
    }

    open spec fn binding_step(st: AsyncState, node: SpecNode) -> AsyncState {
        AsyncState { overridden: hide_in_top(st.overridden, hidden_by(st.bindings, node)), ..st }
    }

    open spec fn call_ok(st: AsyncState, call: SpecNode) -> bool {
        true
    }

    fn fold_import(&mut self, decl: Node) -> (r: Node) {
        let n = decl.children.len();
        if n == 0 || !matches!(decl.children[0].kind, Kind::Str) {
            return decl;
        }
        if !self.tracks_package(decl.children[0].text.as_str()) {
            return decl;
        }
        let ghost specs = decl@.children.drop_first();
        let ghost b0 = self@.bindings;
        let mut i: usize = 1;
        while i < n
            invariant
                1 <= i <= n,
                n == decl.children.len(),
                specs == decl@.children.drop_first(),
                self@ == (AsyncState { bindings: self@.bindings, ..old(self)@ }),
                b0 == old(self)@.bindings,
                self@.bindings == b0 + specifier_locals(specs.take(i - 1)),
            decreases n - i,
        {
            let spec_node = &decl.children[i];
            let ghost before = self@.bindings;
            if (matches!(spec_node.kind, Kind::ImportDefault) || matches!(spec_node.kind, Kind::ImportNamed))
                && spec_node.children.len() > 0 {
                let id = Id::of(&spec_node.children[0]);
                self.bindings.push(id);
                proof {
                    assert(ids_view(self.bindings@) =~= before.push(id@));
                }
            }
            proof {
                assert(specs.take(i as int).drop_last() =~= specs.take(i - 1));
                assert(specs.take(i as int).last() == decl.children@[i as int]@);
            }
            i = i + 1;
        }
        proof {
            assert(specs.take(n - 1) =~= specs);
        }
        decl
    }

    fn enter_block(&mut self) {
        let empty: Vec<Id> = Vec::new();
        proof {
            assert(ids_view(empty@) =~= seq![]);
        }
        self.overridden_bindings.push(empty);
        proof {
            assert(self@.overridden =~= old(self)@.overridden.push(seq![]));
        }
    }

    fn exit_block(&mut self) {
        let _ = self.overridden_bindings.pop();
        proof {
            assert(self@.overridden =~= if old(self)@.overridden.len() > 0 {
                old(self)@.overridden.drop_last()
            } else {
                old(self)@.overridden
            });
        }
    }

    fn fold_call(&mut self, call: Node) -> (r: Node) {
        if call.children.len() > 0 && matches!(call.children[0].kind, Kind::Ident) {
            let id = Id::of(&call.children[0]);
            if self.is_target_binding(&id) {
                let webpack = self.webpack;
                return rewrite_call_expr(call, webpack);
            }
        }
        call
    }

    fn see_binding(&mut self, node: &Node) {
        let hidden = self.hidden_by(node);
        let ghost ov = self@.overridden;
        if let Some(mut top) = self.overridden_bindings.pop() {
            let ghost top0 = ids_view(top@);
            let mut i: usize = 0;
            while i < hidden.len()
                invariant
                    i <= hidden.len(),
                    ids_view(top@) == top0 + ids_view(hidden@).take(i as int),
                decreases hidden.len() - i,
            {
                let ghost t0 = ids_view(top@);
                let c = hidden[i].copy();
                top.push(c);
                proof {
                    assert(ids_view(top@) =~= t0.push(c@));
                    assert(ids_view(hidden@).take(i + 1) =~= ids_view(hidden@).take(i as int).push(hidden@[i as int]@));
                }
                i = i + 1;
            }
            self.overridden_bindings.push(top);
            proof {
                assert(ids_view(hidden@).take(hidden.len() as int) =~= ids_view(hidden@));
                assert(self@.overridden =~= hide_in_top(ov, ids_view(hidden@)));
            }
        }
    }
}

impl AsyncTransform {
    /// The transform for the known async packages, with webpack ids.
    pub fn with_defaults() -> (r: AsyncTransform)
        ensures
            r@ == (AsyncState {
                packages: default_packages(),
                webpack: true,
                bindings: seq![],
                overridden: seq![seq![]],
            }),
    {
        let packages = vec![
            TargetPackage { source: "@shopify/alpaql/async".to_string(), exports: vec!["createAsyncQuery".to_string()] },
            TargetPackage { source: "@shopify/async".to_string(), exports: vec!["createResolver".to_string()] },
            TargetPackage {
                source: "@shopify/react-async".to_string(),
                exports: vec!["createAsyncContext".to_string(), "createAsyncComponent".to_string()],
            },
            TargetPackage {
                source: "@shopify/react-graphql".to_string(),
                exports: vec!["createAsyncQueryComponent".to_string(), "createAsyncQuery".to_string()],
            },
        ];
        let r = AsyncTransform {
            packages,
            webpack: true,
            bindings: Vec::new(),
            overridden_bindings: vec![Vec::new()],
        };
        proof {
            assert(r@.packages[0].1 =~= seq!["createAsyncQuery"@]);
            assert(r@.packages[1].1 =~= seq!["createResolver"@]);
            assert(r@.packages[2].1 =~= seq!["createAsyncContext"@, "createAsyncComponent"@]);
            assert(r@.packages[3].1 =~= seq!["createAsyncQueryComponent"@, "createAsyncQuery"@]);
            assert(r@.packages =~= default_packages());
            assert(r@.bindings =~= seq![]);
            assert(r@.overridden[0] =~= seq![]);
            assert(r@.overridden =~= seq![seq![]]);
        }
        r
    }

    /// Rewrites the calls of target bindings in a module.
    pub fn fold_module(&mut self, module: Node) -> (r: Node)
        ensures
            (final(self)@, r@) == spec_fold_node::<AsyncTransform>(old(self)@, module@),
    {
        proof {
            assert(crate::fold::admits_all::<AsyncTransform>());
            crate::fold::lemma_walk_ok_all::<AsyncTransform>(self@, module@);
        }
        fold_node(self, module)
    }

    fn tracks_package(&self, source: &str) -> (r: bool)
        ensures
            r == is_target_package(self@, source@),
    {
        let mut i: usize = 0;
        while i < self.packages.len()
            invariant
                i <= self.packages.len(),
                forall|j: int| 0 <= j < i ==> self@.packages[j].0 != source@,
            decreases self.packages.len() - i,
        {
            if same_text(self.packages[i].source.as_str(), source) {
                assert(self@.packages[i as int].0 == source@);
                return true;
            }
            i = i + 1;
        }
        false
    }

    /// Whether calls of `id` are rewritten.
    pub fn is_target_binding(&self, id: &Id) -> (r: bool)
        ensures
            r == is_target_binding(self@, id@),
    {
        if !has_id(&self.bindings, id) {
            return false;
        }
        let mut j: usize = 0;
        while j < self.overridden_bindings.len()
            invariant
                j <= self.overridden_bindings.len(),
                forall|k: int| 0 <= k < j ==> !(#[trigger] self@.overridden[k]).contains(id@),
            decreases self.overridden_bindings.len() - j,
        {
            if has_id(&self.overridden_bindings[j], id) {
                assert(self@.overridden[j as int].contains(id@));
                return false;
            }
            j = j + 1;
        }
        true
    }

    /// The imported names that a finished assignment or declaration hides.
    fn hidden_by(&self, node: &Node) -> (r: Vec<Id>)
        ensures
            ids_view(r@) == hidden_by(self@.bindings, node@),
    {
        let mut r: Vec<Id> = Vec::new();
        match node.kind {
            Kind::Assign { .. } => {
                if node.children.len() > 0 && matches!(node.children[0].kind, Kind::BindingIdent) {
                    let id = Id::of(&node.children[0]);
                    if has_id(&self.bindings, &id) {
                        r.push(id);
                    }
                }
                proof {
                    assert(ids_view(r@) =~= hidden_by(self@.bindings, node@));
                }
            },
            Kind::VarDecl(_) => {
                let ghost decls = node@.children;
                let mut i: usize = 0;
                while i < node.children.len()
                    invariant
                        i <= node.children.len(),
                        decls == node@.children,
                        ids_view(r@) == declared_imports(self@.bindings, decls.take(i as int)),
                    decreases node.children.len() - i,
                {
                    let d = &node.children[i];
                    let ghost before = ids_view(r@);
                    if d.children.len() > 0 && matches!(d.children[0].kind, Kind::BindingIdent) {
                        let id = Id::of(&d.children[0]);
                        if has_id(&self.bindings, &id) {
                            r.push(id);
                        }
                    }
                    proof {
                        assert(decls.take(i + 1).drop_last() =~= decls.take(i as int));
                        assert(decls.take(i + 1).last() == d@);
                        assert(ids_view(r@) =~= declared_imports(self@.bindings, decls.take(i + 1)));
                    }
                    i = i + 1;
                }
                proof {
                    assert(decls.take(node.children.len() as int) =~= decls);
                }
            },
            _ => {
                proof {
                    assert(ids_view(r@) =~= hidden_by(self@.bindings, node@));
                }
            },
        }
        r
    }
}

// ---------------------------------------------------------------------
// The rewrite itself.

fn import_call_path_of(call: &Node) -> (r: Option<String>)
    ensures
        opt_text(r) == import_call_path(call@),
{
    if call.children.len() >= 2 && matches!(call.children[0].kind, Kind::Ident) && same_text(
        call.children[0].text.as_str(),
        "import",
    ) {
        let arg = &call.children[1];
        let e = if matches!(arg.kind, Kind::Spread) && arg.children.len() > 0 {
            &arg.children[0]
        } else {
            arg
        };
        if matches!(e.kind, Kind::Str) {
            Some(e.text.clone())
        } else {
            None
        }
    } else {
        None
    }
}

fn block_path_of(block: &Node) -> (r: Option<String>)
    ensures
        opt_text(r) == block_path(block@),
{
    let n = block.children.len();
    if n > 0 {
        let last = &block.children[n - 1];
        if matches!(last.kind, Kind::Return) && last.children.len() > 0 && matches!(
            last.children[0].kind,
            Kind::Call,
        ) {
            return import_call_path_of(&last.children[0]);
        }
    }
    None
}

fn load_path_of(value: &Node) -> (r: Option<String>)
    ensures
        opt_text(r) == load_path(value@),
{
    match value.kind {
        Kind::Arrow { .. } => {
            if value.children.len() >= 2 {
                let body = &value.children[1];
                if matches!(body.kind, Kind::Call) {
                    import_call_path_of(body)
                } else if matches!(body.kind, Kind::Block) {
                    block_path_of(body)
                } else {
                    None
                }
            } else {
                None
            }
        },
        Kind::Function { .. } => {
            if value.children.len() >= 2 && matches!(value.children[1].kind, Kind::Block) {
                block_path_of(&value.children[1])
            } else {
                None
            }
        },
        _ => None,
    }
}

pub open spec fn opt_opt_text(o: Option<Option<String>>) -> Option<Option<Seq<char>>> {
    match o {
        Some(p) => Some(opt_text(p)),
        None => None,
    }
}

fn scan_prop(acc: Option<String>, prop: &Node) -> (r: Option<Option<String>>)
    ensures
        opt_opt_text(r) == scan_step(opt_text(acc), prop@),
{
    match prop.kind {
        Kind::Spread => Some(acc),
        Kind::KeyValueProp => {
            if prop.children.len() >= 2 && matches!(prop.children[0].kind, Kind::Ident) {
                let key = prop.children[0].text.as_str();
                if same_text(key, "load") {
                    Some(load_path_of(&prop.children[1]))
                } else if same_text(key, "id") {
                    None
                } else {
                    Some(acc)
                }
            } else {
                None
            }
        },
        Kind::MethodProp => {
            if prop.children.len() >= 2 && prop.children[1].children.len() >= 2 && matches!(
                prop.children[1].children[1].kind,
                Kind::Block,
            ) {
                Some(block_path_of(&prop.children[1].children[1]))
            } else {
                Some(acc)
            }
        },
        _ => None,
    }
}

proof fn lemma_scan_stops(s: Seq<SpecNode>, k: int)
    requires
        0 <= k <= s.len(),
        scan_props(s.take(k)) is None,
    ensures
        scan_props(s) is None,
    decreases s.len() - k,
{
    if k == s.len() {
        assert(s.take(k) =~= s);
    } else {
        assert(s.take(k + 1).drop_last() =~= s.take(k));
        lemma_scan_stops(s, k + 1);
    }
}

fn scan_options(props: &Vec<Node>) -> (r: Option<Option<String>>)
    ensures
        opt_opt_text(r) == scan_props(nodes_view(props@)),
{
    let ghost ps = nodes_view(props@);
    let mut acc: Option<String> = None;
    let mut i: usize = 0;
    proof {
        assert(ps.take(0) =~= seq![]);
    }
    while i < props.len()
        invariant
            i <= props.len(),
            ps == nodes_view(props@),
            scan_props(ps.take(i as int)) == Some(opt_text(acc)),
        decreases props.len() - i,
    {
        proof {
            assert(ps.take(i + 1).drop_last() =~= ps.take(i as int));
            assert(ps.take(i + 1).last() == props@[i as int]@);
        }
        match scan_prop(acc, &props[i]) {
            None => {
                proof {
                    lemma_scan_stops(ps, i + 1);
                }
                return None;
            },
            Some(next) => {
                acc = next;
            },
        }
        i = i + 1;
    }
    proof {
        assert(ps.take(props.len() as int) =~= ps);
    }
    Some(acc)
}

fn make_id_prop(path: &str, webpack: bool) -> (r: Node)
    ensures
        r@ == id_prop(path@, webpack),
{
    let resolve = if webpack {
        mk_ident("resolveWeak")
    } else {
        mk_ident("resolve")
    };
    let callee = mk_branch(Kind::Member { computed: false }, vec![mk_ident("require"), resolve]);
    let call = mk_branch(Kind::Call, vec![callee, mk_str(path, dummy())]);
    let params = mk_branch(Kind::Params, Vec::new());
    let arrow = mk_branch(Kind::Arrow { is_async: false, is_generator: false }, vec![params, call]);
    let r = mk_branch(Kind::KeyValueProp, vec![mk_ident("id"), arrow]);
    proof {
        let rs = if webpack { "resolveWeak"@ } else { "resolve"@ };
        assert(callee@.children =~= seq![ident("require"@), ident(rs)]);
        assert(call@.children =~= seq![callee@, string_lit(path@, dummy_span())]);
        assert(params@.children =~= seq![]);
        assert(arrow@.children =~= seq![params@, call@]);
        assert(r@.children =~= seq![ident("id"@), arrow@]);
    }
    r
}

/// Adds `id` to the options object of `call` as [`rewrite_call`] says.
pub fn rewrite_call_expr(call: Node, webpack: bool) -> (r: Node)
    ensures
        r@ == rewrite_call(call@, webpack),
{
    if call.children.len() < 2 {
        return call;
    }
    let spread = matches!(call.children[1].kind, Kind::Spread) && call.children[1].children.len() > 0;
    let path = {
        let obj = if spread {
            &call.children[1].children[0]
        } else {
            &call.children[1]
        };
        if !matches!(obj.kind, Kind::Object) {
            return call;
        }
        match scan_options(&obj.children) {
            Some(Some(p)) => p,
            _ => {
                return call;
            },
        }
    };
    let ghost c0 = call@;
    let ghost obj0 = options_object(c0);
    let prop = make_id_prop(path.as_str(), webpack);
    let Node { kind, text, ctxt, span, mut children } = call;
    let ghost ch0 = children@;
    let arg = children.remove(1);
    let new_arg = if spread {
        let Node { kind: ak, text: at, ctxt: ac, span: asp, children: mut ach } = arg;
        let ghost ach0 = ach@;
        let obj = ach.remove(0);
        let Node { kind: ok, text: ot, ctxt: oc, span: osp, children: mut och } = obj;
        let ghost och0 = och@;
        och.push(prop);
        let new_obj = Node { kind: ok, text: ot, ctxt: oc, span: osp, children: och };
        proof {
            assert(nodes_view(och@) =~= nodes_view(och0).push(prop@));
            assert(new_obj@ == crate::fold::with_children(obj0, obj0.children.push(prop@)));
        }
        ach.insert(0, new_obj);
        let a = Node { kind: ak, text: at, ctxt: ac, span: asp, children: ach };
        proof {
            assert(ach@ =~= ach0.update(0, new_obj));
            assert(nodes_view(ach@) =~= nodes_view(ach0).update(0, new_obj@));
        }
        a
    } else {
        let Node { kind: ok, text: ot, ctxt: oc, span: osp, children: mut och } = arg;
        let ghost och0 = och@;
        och.push(prop);
        let a = Node { kind: ok, text: ot, ctxt: oc, span: osp, children: och };
        proof {
            assert(nodes_view(och@) =~= nodes_view(och0).push(prop@));
        }
        a
    };
    children.insert(1, new_arg);
    let r = Node { kind, text, ctxt, span, children };
    proof {
        assert(children@ =~= ch0.update(1, new_arg));
        assert(nodes_view(children@) =~= nodes_view(ch0).update(1, new_arg@));
    }
    r
}

// ---------------------------------------------------------------------
// Laws.

/// Rewriting a call twice is rewriting it once: the `id` that the first
/// rewrite adds stops the second.
pub proof fn law_rewrite_idempotent(call: SpecNode, webpack: bool)
    ensures
        rewrite_call(rewrite_call(call, webpack), webpack) == rewrite_call(call, webpack),
{
    if call.children.len() >= 2 {
        let obj = options_object(call);
        if obj.kind == Kind::Object {
            if let Some(Some(path)) = scan_props(obj.children) {
                let new_obj = crate::fold::with_children(obj, obj.children.push(id_prop(path, webpack)));
                let c1 = with_options_object(call, new_obj);
                assert(options_object(c1) == new_obj);
                assert(new_obj.children.drop_last() =~= obj.children);
                reveal_strlit("id");
                reveal_strlit("load");
                assert("id"@ != "load"@) by {
                    assert("id"@.len() != "load"@.len());
                }
                assert(scan_props(new_obj.children) is None);
            }
        }
    }
}

/// A loader whose body is a block ending in `return import("p")` gives the
/// path `p`, be it an arrow function or a function expression.
pub proof fn law_block_loaders_give_their_path(value: SpecNode, p: Seq<char>)
    requires
        value.kind is Arrow || value.kind is Function,
        value.children.len() >= 2,
        value.children[1].kind == Kind::Block,
        value.children[1].children.len() > 0,
        value.children[1].children.last().kind == Kind::Return,
        value.children[1].children.last().children.len() > 0,
        ({
            let load = value.children[1].children.last().children[0];
            &&& load.kind == Kind::Call
            &&& load.children.len() >= 2
            &&& load.children[0].kind == Kind::Ident
            &&& load.children[0].text == "import"@
            &&& load.children[1].kind == Kind::Str
            &&& load.children[1].text == p
        }),
    ensures
        load_path(value) == Some(p),
{
}

/// A method property of the options object (`load() { ... }`) whose body
/// ends in `return import("p")` gives the path `p`, whatever was found
/// before it.
pub proof fn law_method_loaders_give_their_path(acc: Option<Seq<char>>, prop: SpecNode, p: Seq<char>)
    requires
        prop.kind == Kind::MethodProp,
        prop.children.len() >= 2,
        prop.children[1].children.len() >= 2,
        ({
            let body = prop.children[1].children[1];
            &&& body.kind == Kind::Block
            &&& body.children.len() > 0
            &&& body.children.last().kind == Kind::Return
            &&& body.children.last().children.len() > 0
        }),
        ({
            let load = prop.children[1].children[1].children.last().children[0];
            &&& load.kind == Kind::Call
            &&& load.children.len() >= 2
            &&& load.children[0].kind == Kind::Ident
            &&& load.children[0].text == "import"@
            &&& load.children[1].kind == Kind::Str
            &&& load.children[1].text == p
        }),
    ensures
        scan_step(acc, prop) == Some(Some(p)),
{
}

/// A loader whose body is `import("p")` itself gives the path `p`.
pub proof fn law_expression_loaders_give_their_path(value: SpecNode, p: Seq<char>)
    requires
        value.kind is Arrow,
        value.children.len() >= 2,
        ({
            let load = value.children[1];
            &&& load.kind == Kind::Call
            &&& load.children.len() >= 2
            &&& load.children[0].kind == Kind::Ident
            &&& load.children[0].text == "import"@
            &&& load.children[1].kind == Kind::Str
            &&& load.children[1].text == p
        }),
    ensures
        load_path(value) == Some(p),
{
}

/// A call whose options object is `{load: f}`, where the loader `f` gives a
/// path, gets `id: () => require.resolveWeak(path)` (or `require.resolve`
/// without webpack) after its `load`, and nothing else of it changes.
pub proof fn law_loader_call_gets_its_id(call: SpecNode, webpack: bool, p: Seq<char>)
    requires
        call.children.len() >= 2,
        options_object(call).kind == Kind::Object,
        options_object(call).children.len() == 1,
        ({
            let kv = options_object(call).children[0];
            &&& kv.kind == Kind::KeyValueProp
            &&& kv.children.len() >= 2
            &&& kv.children[0].kind == Kind::Ident
            &&& kv.children[0].text == "load"@
            &&& load_path(kv.children[1]) == Some(p)
        }),
    ensures
        ({
            let obj = options_object(call);
            rewrite_call(call, webpack) == with_options_object(
                call,
                crate::fold::with_children(obj, seq![obj.children[0], id_prop(p, webpack)]),
            )
        }),
{
    let obj = options_object(call);
    assert(obj.children.drop_last() =~= Seq::<SpecNode>::empty());
    assert(obj.children.last() == obj.children[0]);
    assert(scan_props(obj.children.drop_last()) == Some(None::<Seq<char>>));
    assert(scan_props(obj.children) == Some(Some(p)));
    assert(obj.children.push(id_prop(p, webpack)) =~= seq![obj.children[0], id_prop(p, webpack)]);
}

/// A call whose options object already has an `id` property is left as it
/// is, wherever that property stands.
pub proof fn law_existing_id_kept(call: SpecNode, webpack: bool, k: int)
    requires
        call.children.len() >= 2,
        0 <= k < options_object(call).children.len(),
        ({
            let p = options_object(call).children[k];
            &&& p.kind == Kind::KeyValueProp
            &&& p.children.len() >= 2
            &&& p.children[0].kind == Kind::Ident
            &&& p.children[0].text == "id"@
        }),
    ensures
        rewrite_call(call, webpack) == call,
{
    let props = options_object(call).children;
    assert(props.take(k + 1).drop_last() =~= props.take(k));
    assert(props.take(k + 1).last() == props[k]);
    reveal_strlit("id");
    reveal_strlit("load");
    assert("id"@ != "load"@) by {
        assert("id"@.len() != "load"@.len());
    }
    assert(scan_props(props.take(k + 1)) is None);
    lemma_scan_stops(props, k + 1);
}

/// A call without arguments, or whose first argument is not an object
/// literal (through a spread), is left as it is.
pub proof fn law_no_options_object_untouched(call: SpecNode, webpack: bool)
    requires
        call.children.len() < 2 || options_object(call).kind != Kind::Object,
    ensures
        rewrite_call(call, webpack) == call,
{
}

/// Folding a node keeps the number of open blocks and what the outer ones
/// hide; folding a block keeps all of it.
proof fn lemma_fold_keeps_outer(st: AsyncState, n: SpecNode)
    ensures
        ({
            let r = spec_fold_node::<AsyncTransform>(st, n).0;
            &&& r.overridden.len() == st.overridden.len()
            &&& forall|i: int| 0 <= i < st.overridden.len() - 1 ==> r.overridden[i] == st.overridden[i]
            &&& n.kind == Kind::Block ==> r.overridden == st.overridden
        }),
    decreases n, 0nat,
{
    match n.kind {
        Kind::ImportDecl { .. } => {},
        Kind::Block => {
            let s0 = <AsyncTransform as Folder>::enter_step(st);
            lemma_folds_keep_outer(s0, n.children);
            let s1 = crate::fold::spec_fold_nodes::<AsyncTransform>(s0, n.children).0;
            assert(s1.overridden.drop_last() =~= st.overridden);
        },
        _ => {
            lemma_folds_keep_outer(st, n.children);
        },
    }
}

proof fn lemma_folds_keep_outer(st: AsyncState, s: Seq<SpecNode>)
    ensures
        ({
            let r = crate::fold::spec_fold_nodes::<AsyncTransform>(st, s).0;
            &&& r.overridden.len() == st.overridden.len()
            &&& forall|i: int| 0 <= i < st.overridden.len() - 1 ==> r.overridden[i] == st.overridden[i]
        }),
    decreases s, s.len(),
{
    if s.len() > 0 {
        lemma_folds_keep_outer(st, s.drop_last());
        let s1 = crate::fold::spec_fold_nodes::<AsyncTransform>(st, s.drop_last()).0;
        lemma_fold_keeps_outer(s1, s.last());
    }
}

/// What an assignment or declaration hides stays hidden only inside its
/// block: folding a block leaves the stack of hidden names as it was.
pub proof fn law_block_scoping(st: AsyncState, block: SpecNode)
    requires
        block.kind == Kind::Block,
    ensures
        spec_fold_node::<AsyncTransform>(st, block).0.overridden == st.overridden,
{
    lemma_fold_keeps_outer(st, block);
}

/// Whether `n` holds no import declaration.
pub open spec fn import_free(n: SpecNode) -> bool
    decreases n, 0nat,
{
    &&& !(n.kind is ImportDecl)
    &&& imports_free(n.children)
}

/// Whether the nodes of `s` hold no import declaration.
pub open spec fn imports_free(s: Seq<SpecNode>) -> bool
    decreases s, s.len(),
{
    s.len() == 0 || (imports_free(s.drop_last()) && import_free(s.last()))
}

proof fn lemma_fold_keeps_bindings(st: AsyncState, n: SpecNode)
    requires
        import_free(n),
    ensures
        spec_fold_node::<AsyncTransform>(st, n).0.bindings == st.bindings,
    decreases n, 0nat,
{
    match n.kind {
        Kind::Block => {
            lemma_folds_keep_bindings(<AsyncTransform as Folder>::enter_step(st), n.children);
        },
        _ => {
            lemma_folds_keep_bindings(st, n.children);
        },
    }
}

proof fn lemma_folds_keep_bindings(st: AsyncState, s: Seq<SpecNode>)
    requires
        imports_free(s),
    ensures
        crate::fold::spec_fold_nodes::<AsyncTransform>(st, s).0.bindings == st.bindings,
    decreases s, s.len(),
{
    if s.len() > 0 {
        lemma_folds_keep_bindings(st, s.drop_last());
        let s1 = crate::fold::spec_fold_nodes::<AsyncTransform>(st, s.drop_last()).0;
        lemma_fold_keeps_bindings(s1, s.last());
    }
}

/// A block without import declarations leaves both the imported names and
/// the stack of hidden names as they were: an override inside it stops the
/// rewriting only inside it.
pub proof fn law_block_keeps_bindings(st: AsyncState, block: SpecNode)
    requires
        block.kind == Kind::Block,
        import_free(block),
    ensures
        spec_fold_node::<AsyncTransform>(st, block).0.bindings == st.bindings,
        spec_fold_node::<AsyncTransform>(st, block).0.overridden == st.overridden,
{
    lemma_fold_keeps_bindings(st, block);
    lemma_fold_keeps_outer(st, block);
}

/// A call whose callee is not a name imported from a target package (or
/// is one that an open block hides) is left as it is.
pub proof fn law_other_calls_untouched(st: AsyncState, call: SpecNode)
    requires
        !calls_target(st, call),
    ensures
        <AsyncTransform as Folder>::call_step(st, call) == (st, call),
{
}

// ---------------------------------------------------------------------
// Folding the output again.

proof fn lemma_leaf_fixed(st: AsyncState, n: SpecNode)
    requires
        n.children.len() == 0,
        n.kind == Kind::Ident || n.kind == Kind::Str || n.kind == Kind::Params,
    ensures
        spec_fold_node::<AsyncTransform>(st, n) == (st, n),
{
    assert(crate::fold::with_children(n, seq![]) == n) by {
        assert(n.children =~= seq![]);
    }
}

proof fn lemma_pair_fixed(st: AsyncState, a: SpecNode, b: SpecNode)
    requires
        spec_fold_node::<AsyncTransform>(st, a) == (st, a),
        spec_fold_node::<AsyncTransform>(st, b) == (st, b),
    ensures
        crate::fold::spec_fold_nodes::<AsyncTransform>(st, seq![a, b]) == (st, seq![a, b]),
{
    let e = Seq::<SpecNode>::empty();
    assert(crate::fold::spec_fold_nodes::<AsyncTransform>(st, e) == (st, e));
    assert(crate::fold::spec_fold_nodes::<AsyncTransform>(st, seq![a]) == (st, seq![a])) by {
        assert(seq![a].drop_last() =~= e);
        assert(seq![a].last() == a);
        assert(e.push(a) =~= seq![a]);
    }
    assert(seq![a, b].drop_last() =~= seq![a]);
    assert(seq![a, b].last() == b);
    assert(seq![a].push(b) =~= seq![a, b]);
}

/// The `id` property is left as it is, and leaves the state as it is.
proof fn lemma_id_prop_fixed(st: AsyncState, path: Seq<char>, webpack: bool)
    ensures
        spec_fold_node::<AsyncTransform>(st, id_prop(path, webpack)) == (st, id_prop(path, webpack)),
{
    let resolve = if webpack {
        "resolveWeak"@
    } else {
        "resolve"@
    };
    let callee = branch(Kind::Member { computed: false }, seq![ident("require"@), ident(resolve)]);
    let call = branch(Kind::Call, seq![callee, string_lit(path, dummy_span())]);
    let params = branch(Kind::Params, seq![]);
    let arrow = branch(Kind::Arrow { is_async: false, is_generator: false }, seq![params, call]);
    lemma_leaf_fixed(st, ident("require"@));
    lemma_leaf_fixed(st, ident(resolve));
    lemma_pair_fixed(st, ident("require"@), ident(resolve));
    assert(spec_fold_node::<AsyncTransform>(st, callee) == (st, callee));
    lemma_leaf_fixed(st, string_lit(path, dummy_span()));
    lemma_pair_fixed(st, callee, string_lit(path, dummy_span()));
    assert(!calls_target(st, call));
    assert(spec_fold_node::<AsyncTransform>(st, call) == (st, call));
    lemma_leaf_fixed(st, params);
    lemma_pair_fixed(st, params, call);
    assert(spec_fold_node::<AsyncTransform>(st, arrow) == (st, arrow));
    lemma_leaf_fixed(st, ident("id"@));
    lemma_pair_fixed(st, ident("id"@), arrow);
}

/// In a sequence that folding leaves as it is, each element is left as it is.
proof fn lemma_part_fixed(st: AsyncState, s: Seq<SpecNode>, i: int)
    requires
        0 <= i < s.len(),
        crate::fold::spec_fold_nodes::<AsyncTransform>(st, s).1 == s,
    ensures
        ({
            let sa = crate::fold::spec_fold_nodes::<AsyncTransform>(st, s.take(i)).0;
            spec_fold_node::<AsyncTransform>(sa, s[i]).1 == s[i]
        }),
{
    let a = s.take(i);
    let b = seq![s[i]];
    let c = s.skip(i + 1);
    assert(s =~= a + b + c);
    crate::fold::lemma_folds_concat::<AsyncTransform>(st, a, b);
    crate::fold::lemma_folds_concat::<AsyncTransform>(st, a + b, c);
    let (sa, a1) = crate::fold::spec_fold_nodes::<AsyncTransform>(st, a);
    let (sb, b1) = crate::fold::spec_fold_nodes::<AsyncTransform>(sa, b);
    let (sab, ab1) = crate::fold::spec_fold_nodes::<AsyncTransform>(st, a + b);
    crate::fold::lemma_folds_len::<AsyncTransform>(st, a);
    crate::fold::lemma_folds_len::<AsyncTransform>(sa, b);
    crate::fold::lemma_folds_len::<AsyncTransform>(sab, c);
    let whole = crate::fold::spec_fold_nodes::<AsyncTransform>(st, s).1;
    assert(whole[i] == s[i]);
    assert(whole == ab1 + crate::fold::spec_fold_nodes::<AsyncTransform>(sab, c).1);
    assert(ab1 == a1 + b1);
    assert(whole[i] == b1[0]);
    assert(b.drop_last() =~= Seq::<SpecNode>::empty());
    assert(b.last() == s[i]);
}

/// Replacing one element of a sequence that folding leaves as it is by one
/// that is also left as it is, from the same state, and gives the same state.
proof fn lemma_replace_fixed(st: AsyncState, s: Seq<SpecNode>, i: int, y: SpecNode)
    requires
        0 <= i < s.len(),
        crate::fold::spec_fold_nodes::<AsyncTransform>(st, s).1 == s,
        ({
            let sa = crate::fold::spec_fold_nodes::<AsyncTransform>(st, s.take(i)).0;
            spec_fold_node::<AsyncTransform>(sa, y) == (spec_fold_node::<AsyncTransform>(sa, s[i]).0, y)
        }),
    ensures
        crate::fold::spec_fold_nodes::<AsyncTransform>(st, s.update(i, y)) == (
            crate::fold::spec_fold_nodes::<AsyncTransform>(st, s).0,
            s.update(i, y),
        ),
{
    let a = s.take(i);
    let c = s.skip(i + 1);
    let t = s.update(i, y);
    assert(s =~= a + seq![s[i]] + c);
    assert(t =~= a + seq![y] + c);
    crate::fold::lemma_folds_concat::<AsyncTransform>(st, a, seq![s[i]]);
    crate::fold::lemma_folds_concat::<AsyncTransform>(st, a + seq![s[i]], c);
    crate::fold::lemma_folds_concat::<AsyncTransform>(st, a, seq![y]);
    crate::fold::lemma_folds_concat::<AsyncTransform>(st, a + seq![y], c);
    let (sa, a1) = crate::fold::spec_fold_nodes::<AsyncTransform>(st, a);
    crate::fold::lemma_folds_len::<AsyncTransform>(st, a);
    assert(seq![s[i]].drop_last() =~= Seq::<SpecNode>::empty());
    assert(seq![y].drop_last() =~= Seq::<SpecNode>::empty());
    assert(seq![s[i]].last() == s[i]);
    assert(seq![y].last() == y);
    let (sb, xb) = spec_fold_node::<AsyncTransform>(sa, s[i]);
    let e = Seq::<SpecNode>::empty();
    assert(crate::fold::spec_fold_nodes::<AsyncTransform>(sa, e) == (sa, e));
    assert(crate::fold::spec_fold_nodes::<AsyncTransform>(sa, seq![y]) == (sb, seq![y])) by {
        assert(e.push(y) =~= seq![y]);
    }
    assert(crate::fold::spec_fold_nodes::<AsyncTransform>(sa, seq![s[i]]) == (sb, seq![xb])) by {
        assert(e.push(xb) =~= seq![xb]);
    }
    let (sab, ab1) = crate::fold::spec_fold_nodes::<AsyncTransform>(st, a + seq![s[i]]);
    let (sc, c1) = crate::fold::spec_fold_nodes::<AsyncTransform>(sab, c);
    crate::fold::lemma_folds_len::<AsyncTransform>(sab, c);
    assert(ab1 == a1 + seq![xb]);
    let whole = ab1 + c1;
    assert(whole == s);
    assert forall|k: int| 0 <= k < a.len() implies a1[k] == a[k] by {
        assert(whole[k] == s[k]);
    }
    assert(a1 =~= a);
    assert forall|k: int| 0 <= k < c.len() implies c1[k] == c[k] by {
        assert(whole[i + 1 + k] == s[i + 1 + k]);
    }
    assert(c1 =~= c);
    assert(a1 + seq![y] + c1 =~= t);
}

/// An options object that folding leaves as it is stays so with the `id`
/// property added.
proof fn lemma_push_id_fixed(sa: AsyncState, obj: SpecNode, path: Seq<char>, webpack: bool)
    requires
        obj.kind == Kind::Object,
        spec_fold_node::<AsyncTransform>(sa, obj).1 == obj,
    ensures
        ({
            let obj2 = crate::fold::with_children(obj, obj.children.push(id_prop(path, webpack)));
            spec_fold_node::<AsyncTransform>(sa, obj2) == (spec_fold_node::<AsyncTransform>(sa, obj).0, obj2)
        }),
{
    let obj2 = crate::fold::with_children(obj, obj.children.push(id_prop(path, webpack)));
    let (s1, cs) = crate::fold::spec_fold_nodes::<AsyncTransform>(sa, obj.children);
    assert(cs == obj.children);
    assert(obj.children.push(id_prop(path, webpack)).drop_last() =~= obj.children);
    lemma_id_prop_fixed(s1, path, webpack);
}

/// Folding what a fold gave, from the same state, gives it again.
proof fn lemma_fold_idempotent(st: AsyncState, n: SpecNode)
    ensures
        ({
            let (st1, n1) = spec_fold_node::<AsyncTransform>(st, n);
            spec_fold_node::<AsyncTransform>(st, n1) == (st1, n1)
        }),
    decreases n, 0nat,
{
    match n.kind {
        Kind::ImportDecl { .. } => {},
        Kind::Block => {
            lemma_folds_idempotent(<AsyncTransform as Folder>::enter_step(st), n.children);
        },
        Kind::Call => {
            lemma_folds_idempotent(st, n.children);
            let (s1, cs1) = crate::fold::spec_fold_nodes::<AsyncTransform>(st, n.children);
            let m = crate::fold::with_children(n, cs1);
            let c2 = <AsyncTransform as Folder>::call_step(s1, m).1;
            if c2 != m {
                let obj = options_object(m);
                let path = scan_props(obj.children)->0->0;
                let obj2 = crate::fold::with_children(obj, obj.children.push(id_prop(path, s1.webpack)));
                let arg = cs1[1];
                let sa = crate::fold::spec_fold_nodes::<AsyncTransform>(st, cs1.take(1)).0;
                lemma_part_fixed(st, cs1, 1);
                if arg.kind == Kind::Spread && arg.children.len() > 0 {
                    let (sa2, ach) = crate::fold::spec_fold_nodes::<AsyncTransform>(sa, arg.children);
                    assert(ach == arg.children);
                    lemma_part_fixed(sa, arg.children, 0);
                    assert(arg.children.take(0) =~= Seq::<SpecNode>::empty());
                    lemma_push_id_fixed(sa, obj, path, s1.webpack);
                    lemma_replace_fixed(sa, arg.children, 0, obj2);
                    let arg2 = crate::fold::with_children(arg, arg.children.update(0, obj2));
                    assert(spec_fold_node::<AsyncTransform>(sa, arg2) == (spec_fold_node::<AsyncTransform>(sa, arg).0, arg2));
                    lemma_replace_fixed(st, cs1, 1, arg2);
                } else {
                    lemma_push_id_fixed(sa, obj, path, s1.webpack);
                    lemma_replace_fixed(st, cs1, 1, obj2);
                }
                law_rewrite_idempotent(m, s1.webpack);
            }
        },
        _ => {
            lemma_folds_idempotent(st, n.children);
        },
    }
}

proof fn lemma_folds_idempotent(st: AsyncState, s: Seq<SpecNode>)
    ensures
        ({
            let (st1, s1) = crate::fold::spec_fold_nodes::<AsyncTransform>(st, s);
            crate::fold::spec_fold_nodes::<AsyncTransform>(st, s1) == (st1, s1)
        }),
    decreases s, s.len(),
{
    if s.len() > 0 {
        lemma_folds_idempotent(st, s.drop_last());
        let (sa, init) = crate::fold::spec_fold_nodes::<AsyncTransform>(st, s.drop_last());
        lemma_fold_idempotent(sa, s.last());
        let (sb, x) = spec_fold_node::<AsyncTransform>(sa, s.last());
        assert(init.push(x).drop_last() =~= init);
    }
}

/// Transforming the transform's output again, from the same state, changes
/// nothing: each rewritten call already has its `id`.
pub proof fn law_fold_idempotent(st: AsyncState, module: SpecNode)
    ensures
        spec_fold_node::<AsyncTransform>(st, spec_fold_node::<AsyncTransform>(st, module).1)
            == spec_fold_node::<AsyncTransform>(st, module),
{
    lemma_fold_idempotent(st, module);
}

} // verus!
