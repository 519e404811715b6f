//! Turns `createWorkerFactory(() => import("./worker"))` into a webpack
//! loader import.
//!
//! For a call of `createWorkerFactory` or `createPlainWorkerFactory`
//! imported from `@shopify/web-worker` or `@shopify/react-web-worker` whose
//! one argument is `() => import("<path>")`, the module gets
//! `import _worker from "@shopify/web-worker/webpack-loader?<options>!<path>"`
//! and the argument becomes `_worker`. The options are JSON: the chunk name
//! that a `webpackChunkName` comment before the path gives, and whether the
//! factory is the plain one.
use vstd::prelude::*;
use crate::ast::{
    Id, Kind, Node, SpecNode, Span, branch, dummy, id_of, leaf, lemma_node_view, mk_branch,
    copy_node, copy_nodes,
    mk_leaf, nodes_view, string_lit, dummy_span,
};
use crate::comments::{CommentKind, Comments, comments_at};
use crate::fold::{
    Folder, fold_node, spec_fold_node, with_children, only_looks, lemma_fold_keeps_tree,
    admits_all, lemma_walk_ok_all, walk_ok, walks_ok,
};
use crate::text::{has_prefix, join, owned, same_text, starts_with, trim, trimmed};

verus! {

broadcast use lemma_node_view, vstd::seq_lib::group_seq_properties, vstd::string::group_string_axioms;

// ---------------------------------------------------------------------
// Which calls create workers.

/// The names bound to worker factories, each with whether it is the plain
/// one, in the order the imports were read; a later entry for a name
/// replaces an earlier one.
pub open spec fn factory_of(fs: Seq<((Seq<char>, u32), bool)>, id: (Seq<char>, u32)) -> Option<bool>
    decreases fs.len(),
{
    if fs.len() == 0 {
        None
    } else if fs.last().0 == id {
        Some(fs.last().1)
    } else {
        factory_of(fs.drop_last(), id)
    }
}

/// Whether imports from `source` may hold worker factories.
pub open spec fn is_worker_package(source: Seq<char>) -> bool {
    source == "@shopify/web-worker"@ || source == "@shopify/react-web-worker"@
}

/// The factory that a named specifier imports, with whether it is plain.
pub open spec fn factory_specifier(s: SpecNode) -> Option<((Seq<char>, u32), bool)> {
    if s.kind == Kind::ImportNamed && s.children.len() > 0 {
        let name = if s.children.len() >= 2 {
            s.children[1].text
        } else {
            s.children[0].text
        };
        if name == "createWorkerFactory"@ {
            Some((id_of(s.children[0]), false))
        } else if name == "createPlainWorkerFactory"@ {
            Some((id_of(s.children[0]), true))
        } else {
            None
        }
    } else {
        None
    }
}

pub open spec fn factory_specifiers(specs: Seq<SpecNode>) -> Seq<((Seq<char>, u32), bool)>
    decreases specs.len(),
{
    if specs.len() == 0 {
        seq![]
    } else {
        factory_specifiers(specs.drop_last()) + match factory_specifier(specs.last()) {
            Some(f) => seq![f],
            None => seq![],
        }
    }
}

/// Reads the worker factories that a module imports.
pub struct ImportAnalyzer {
    factories: Vec<(Id, bool)>,
}

pub open spec fn factories_view(v: Seq<(Id, bool)>) -> Seq<((Seq<char>, u32), bool)> {
    v.map_values(|f: (Id, bool)| (f.0@, f.1))
}

impl View for ImportAnalyzer {
    type V = Seq<((Seq<char>, u32), bool)>;

    closed spec fn view(&self) -> Seq<((Seq<char>, u32), bool)> {
        factories_view(self.factories@)
    }
}

impl Folder for ImportAnalyzer {
    open spec fn import_step(st: Seq<((Seq<char>, u32), bool)>, decl: SpecNode) -> (
        Seq<((Seq<char>, u32), bool)>,
        SpecNode,
    ) {
        if decl.children.len() > 0 && decl.children[0].kind == Kind::Str && is_worker_package(
            decl.children[0].text,
        ) {
            (st + factory_specifiers(decl.children.drop_first()), decl)
        } else {
            (st, decl)
        }
    }

    open spec fn enter_step(st: Seq<((Seq<char>, u32), bool)>) -> Seq<((Seq<char>, u32), bool)> {
        st
    }

    open spec fn exit_step(st: Seq<((Seq<char>, u32), bool)>) -> Seq<((Seq<char>, u32), bool)> {
        st
    }

    open spec fn call_step(st: Seq<((Seq<char>, u32), bool)>, call: SpecNode) -> (
        Seq<((Seq<char>, u32), bool)>,
        SpecNode,
    ) {
        (st, call)
    }

    open spec fn binding_step(st: Seq<((Seq<char>, u32), bool)>, node: SpecNode) -> Seq<
        ((Seq<char>, u32), bool),
    > {
        st
    }

    open spec fn call_ok(st: Seq<((Seq<char>, u32), bool)>, call: SpecNode) -> bool {
        true
    }

    fn fold_import(&mut self, decl: Node) -> (r: Node) {
        let n = decl.children.len();
        if n == 0 || !matches!(decl.children[0].kind, Kind::Str) {
            return decl;
        }
        let source = decl.children[0].text.as_str();
        if !(same_text(source, "@shopify/web-worker") || same_text(source, "@shopify/react-web-worker")) {
            return decl;
        }
        let ghost specs = decl@.children.drop_first();
        let ghost f0 = self@;
        let mut i: usize = 1;
        while i < n
            invariant
                1 <= i <= n,
                n == decl.children.len(),
                specs == decl@.children.drop_first(),
                f0 == old(self)@,
                self@ == f0 + factory_specifiers(specs.take(i - 1)),
            decreases n - i,
        {
            let sp = &decl.children[i];
            let ghost before = self@;
            if matches!(sp.kind, Kind::ImportNamed) && sp.children.len() > 0 {
                let name = if sp.children.len() >= 2 {
                    sp.children[1].text.as_str()
                } else {
                    sp.children[0].text.as_str()
                };
                if same_text(name, "createWorkerFactory") {
                    let id = Id::of(&sp.children[0]);
                    let ghost iv = id@;
                    self.factories.push((id, false));
                    proof {
                        assert(self@ =~= before.push((iv, false)));
                    }
                } else if same_text(name, "createPlainWorkerFactory") {
                    let id = Id::of(&sp.children[0]);
                    let ghost iv = id@;
                    self.factories.push((id, true));
                    proof {
                        assert(self@ =~= before.push((iv, true)));
                    }
                }
            }
            proof {
                assert(specs.take(i as int).drop_last() =~= specs.take(i - 1));
                assert(specs.take(i as int).last() == decl.children@[i as int]@);
            }
            i = i + 1;
        }
        proof {
            assert(specs.take(n - 1) =~= specs);
        }
        decl
    }

    fn enter_block(&mut self) {
    }

    fn exit_block(&mut self) {
    }

    fn fold_call(&mut self, call: Node) -> (r: Node) {
        call
    }

    fn see_binding(&mut self, node: &Node) {
    }
}

/// The worker factories that `module` imports, as the transform reads them.
pub fn worker_factories(module: &Node) -> (r: Vec<(Id, bool)>)
    ensures
        factories_view(r@) == spec_fold_node::<ImportAnalyzer>(seq![], module@).0,
{
    let mut analyzer = ImportAnalyzer { factories: Vec::new() };
    proof {
        assert(analyzer@ =~= seq![]);
    }
    proof {
        assert(admits_all::<ImportAnalyzer>());
        lemma_walk_ok_all::<ImportAnalyzer>(analyzer@, module@);
    }
    let _ = fold_node(&mut analyzer, copy_node(module));
    analyzer.factories
}

/// Whether `fs` names `id` as a factory, and whether that one is plain.
pub fn lookup_factory(fs: &Vec<(Id, bool)>, id: &Id) -> (r: Option<bool>)
    ensures
        r == factory_of(factories_view(fs@), id@),
{
    let ghost all = factories_view(fs@);
    let mut i = fs.len();
    proof {
        assert(all.take(i as int) =~= all);
    }
    while i > 0
        invariant
            i <= fs.len(),
            all == factories_view(fs@),
            factory_of(all, id@) == factory_of(all.take(i as int), id@),
        decreases i,
    {
        proof {
            assert(all.take(i as int).drop_last() =~= all.take(i - 1));
        }
        if fs[i - 1].0.same(id) {
            return Some(fs[i - 1].1);
        }
        i = i - 1;
    }
    None
}

// ---------------------------------------------------------------------
// The loader options.

/// The lower-case hexadecimal digit for `d` (below 16).
pub open spec fn hex_digit(d: nat) -> char {
    if d < 10 {
        (d + 48) as char
    } else {
        (d + 87) as char
    }
}

/// How a JSON string literal writes `c`: `"` and `\` and the control
/// characters escaped (the short forms where JSON has one, else `\u00xx`
/// in lower case), every other character as it is.
pub open spec fn json_escape(c: char) -> Seq<char> {
    if c == '"' {
        seq!['\\', '"']
    } else if c == '\\' {
        seq!['\\', '\\']
    } else if c == '\u{8}' {
        seq!['\\', 'b']
    } else if c == '\t' {
        seq!['\\', 't']
    } else if c == '\n' {
        seq!['\\', 'n']
    } else if c == '\u{c}' {
        seq!['\\', 'f']
    } else if c == '\r' {
        seq!['\\', 'r']
    } else if (c as nat) < 32 {
        seq!['\\', 'u', '0', '0', hex_digit((c as nat) / 16), hex_digit((c as nat) % 16)]
    } else {
        seq![c]
    }
}

/// The characters of `s`, each written as [`json_escape`] says.
pub open spec fn json_chars(s: Seq<char>) -> Seq<char>
    decreases s.len(),
{
    if s.len() == 0 {
        seq![]
    } else {
        json_chars(s.drop_last()) + json_escape(s.last())
    }
}

/// What `serde_json::to_string` gives for a string: the JSON string
/// literal, quoted and escaped.
pub open spec fn json_string(s: Seq<char>) -> Seq<char> {
    seq!['"'] + json_chars(s) + seq!['"']
}

/// `serde_json::to_string` of a string: the literal that [`json_string`]
/// states (serialising a `str` into memory does not fail).
#[verifier::external_body]
fn json_string_literal(s: &str) -> (r: String)
    ensures
        r@ == json_string(s@),
{
    match serde_json::to_string(s) {
        Ok(j) => j,
        Err(_) => String::new(),
    }
}

/// The webpack loader options as JSON: the chunk name where there is one,
/// then whether the worker is plain.
pub open spec fn loader_options_json(name: Option<Seq<char>>, plain: bool) -> Seq<char> {
    "{"@ + match name {
        Some(n) => "\"name\":"@ + json_string(n) + ","@,
        None => seq![],
    } + "\"plain\":"@ + (if plain {
        "true"@
    } else {
        "false"@
    }) + "}"@
}

/// The loader options as JSON, as [`loader_options_json`] says.
pub fn loader_options(name: Option<&str>, plain: bool) -> (r: String)
    ensures
        r@ == loader_options_json(
            match name {
                Some(n) => Some(n@),
                None => None,
            },
            plain,
        ),
{
    let head = match name {
        Some(n) => join(join("{\"name\":", json_string_literal(n).as_str()).as_str(), ","),
        None => owned("{"),
    };
    let tail = if plain {
        "\"plain\":true}"
    } else {
        "\"plain\":false}"
    };
    let r = join(head.as_str(), tail);
    proof {
        reveal_strlit("{\"name\":");
        reveal_strlit("{");
        reveal_strlit("\"name\":");
        reveal_strlit("\"plain\":true}");
        reveal_strlit("\"plain\":false}");
        reveal_strlit("\"plain\":");
        reveal_strlit("true");
        reveal_strlit("false");
        reveal_strlit("}");
        reveal_strlit(",");
        let nv = match name {
            Some(n) => Some(n@),
            None => None,
        };
        assert(r@ =~= loader_options_json(nv, plain));
    }
    r
}

// ---------------------------------------------------------------------
// Chunk names.

/// The chunk name that a block comment's text gives:
/// `webpackChunkName: "name"` or `webpackChunkName: 'name'`.
pub open spec fn chunk_name_in(text: Seq<char>) -> Option<Seq<char>> {
    let t = trim(text);
    if has_prefix(t, "webpackChunkName:"@) {
        let r = trim(t.skip(17));
        if r.len() >= 2 && r[0] == '"' && r.last() == '"' {
            Some(r.subrange(1, r.len() - 1))
        } else if r.len() >= 2 && r[0] == '\'' && r.last() == '\'' {
            Some(r.subrange(1, r.len() - 1))
        } else {
            None
        }
    } else {
        None
    }
}

/// The chunk name that the comments give, reading them in order: an error
/// where two of them give one.
pub open spec fn chunk_name(cs: Seq<(CommentKind, Seq<char>)>) -> Result<
    Option<Seq<char>>,
    WebWorkerError,
>
    decreases cs.len(),
{
    if cs.len() == 0 {
        Ok(None)
    } else {
        match chunk_name(cs.drop_last()) {
            Err(e) => Err(e),
            Ok(found) => if cs.last().0 == CommentKind::Line {
                Ok(found)
            } else {
                match chunk_name_in(cs.last().1) {
                    None => Ok(found),
                    Some(n) => if found is Some {
                        Err(WebWorkerError::DuplicateChunkName)
                    } else {
                        Ok(Some(n))
                    },
                }
            },
        }
    }
}

/// Why a module cannot be transformed.
#[derive(Clone, Copy, PartialEq, Eq, Structural, Debug)]
pub enum WebWorkerError {
    /// The path given to `import` is not a string.
    DynamicImportNotString,
    /// Two comments name the worker's chunk.
    DuplicateChunkName,
    /// No syntax context is left for a new identifier.
    ContextOverflow,
}

fn chunk_name_of_text(text: &str) -> (r: Option<String>)
    ensures
        opt_text_web(r) == chunk_name_in(text@),
{
    let t = trimmed(text);
    if !starts_with(t, "webpackChunkName:") {
        return None;
    }
    proof {
        reveal_strlit("webpackChunkName:");
    }
    let n = t.unicode_len();
    let rest = trimmed(t.substring_char(17, n));
    proof {
        assert(t@.subrange(17, n as int) =~= t@.skip(17));
    }
    let m = rest.unicode_len();
    if m >= 2 {
        let first = rest.get_char(0);
        let last = rest.get_char(m - 1);
        if (first == '"' && last == '"') || (first == '\'' && last == '\'') {
            return Some(owned(rest.substring_char(1, m - 1)));
        }
    }
    None
}

pub open spec fn opt_text_web(o: Option<String>) -> Option<Seq<char>> {
    match o {
        Some(s) => Some(s@),
        None => None,
    }
}

fn chunk_name_from(cs: &Vec<(CommentKind, String)>) -> (r: Result<Option<String>, WebWorkerError>)
    ensures
        match r {
            Ok(o) => chunk_name(cs@.map_values(|c: (CommentKind, String)| (c.0, c.1@))) == Ok::<
                Option<Seq<char>>,
                WebWorkerError,
            >(opt_text_web(o)),
            Err(e) => chunk_name(cs@.map_values(|c: (CommentKind, String)| (c.0, c.1@))) == Err::<
                Option<Seq<char>>,
                WebWorkerError,
            >(e),
        },
{
    let ghost all = cs@.map_values(|c: (CommentKind, String)| (c.0, c.1@));
    let mut found: Option<String> = None;
    let mut i: usize = 0;
    proof {
        assert(all.take(0) =~= seq![]);
    }
    while i < cs.len()
        invariant
            i <= cs.len(),
            all == cs@.map_values(|c: (CommentKind, String)| (c.0, c.1@)),
            chunk_name(all.take(i as int)) == Ok::<Option<Seq<char>>, WebWorkerError>(
                opt_text_web(found),
            ),
        decreases cs.len() - i,
    {
        proof {
            assert(all.take(i + 1).drop_last() =~= all.take(i as int));
            assert(all.take(i + 1).last() == (cs@[i as int].0, cs@[i as int].1@));
        }
        let kind = cs[i].0;
        if !matches!(kind, CommentKind::Line) {
            match chunk_name_of_text(cs[i].1.as_str()) {
                None => {},
                Some(n) => {
                    if found.is_some() {
                        proof {
                            lemma_chunk_name_stops(all, i + 1);
                        }
                        return Err(WebWorkerError::DuplicateChunkName);
                    }
                    found = Some(n);
                },
            }
        }
        i = i + 1;
    }
    proof {
        assert(all.take(cs.len() as int) =~= all);
    }
    Ok(found)
}

proof fn lemma_chunk_name_stops(s: Seq<(CommentKind, Seq<char>)>, k: int)
    requires
        0 <= k <= s.len(),
        chunk_name(s.take(k)) == Err::<Option<Seq<char>>, WebWorkerError>(
            WebWorkerError::DuplicateChunkName,
        ),
    ensures
        chunk_name(s) == Err::<Option<Seq<char>>, WebWorkerError>(WebWorkerError::DuplicateChunkName),
    decreases s.len() - k,
{
    if k == s.len() {
        assert(s.take(k) =~= s);
    } else {
        assert(s.take(k + 1).drop_last() =~= s.take(k));
        lemma_chunk_name_stops(s, k + 1);
    }
}

// ---------------------------------------------------------------------
// The transform.

/// Options of the transform.
#[derive(Debug)]
pub struct Config {
    pub noop: bool,
}

impl Default for Config {
    fn default() -> (r: Config)
        ensures
            !r.noop,
    {
        Config { noop: false }
    }
}

/// What stops the transform of `module`, if anything: a
/// worker factory given `() => import(x)` where `x` is no string, two
/// `webpackChunkName` comments before one worker path, or (a machine
/// limit) no syntax context left for a new `_worker`. Nothing stops it
/// where the module imports no worker factory.
pub open spec fn web_failure(st: WebState, module: SpecNode) -> Option<WebWorkerError> {
    let fs = spec_fold_node::<ImportAnalyzer>(st.factories, module).0;
    if fs.len() == 0 {
        None
    } else {
        spec_fold_node::<WebWorker>(WebState { factories: fs, ..st }, module).0.error
    }
}

/// The transform and the state of its walk.
pub struct WebWorker {
    config: Config,
    comments: Comments,
    data: ImportAnalyzer,
    next_ctxt: u32,
    added_imports: Vec<Node>,
    error: Option<WebWorkerError>,
}

/// The view of a [`WebWorker`].
pub struct WebState {
    /// The comments of the module.
    pub comments: Seq<(u32, CommentKind, Seq<char>)>,
    /// The worker factories imported, as [`factory_of`] reads them.
    pub factories: Seq<((Seq<char>, u32), bool)>,
    /// The syntax context that the next `_worker` identifier gets.
    pub next_ctxt: u32,
    /// The loader imports made so far, in order.
    pub added: Seq<SpecNode>,
    pub error: Option<WebWorkerError>,
}

impl View for WebWorker {
    type V = WebState;

    closed spec fn view(&self) -> WebState {
        WebState {
            comments: self.comments@,
            factories: self.data@,
            next_ctxt: self.next_ctxt,
            added: nodes_view(self.added_imports@),
            error: self.error,
        }
    }
}

/// For a call whose one argument is `() => import(x)`: `Some(Some(x))`
/// where `x` is a string literal, `Some(None)` where it is not; `None` for
/// any other call.
pub open spec fn dynamic_import_of(call: SpecNode) -> Option<Option<SpecNode>> {
    if call.children.len() == 2 {
        let a = call.children[1];
        if a.kind == (Kind::Arrow { is_async: false, is_generator: false }) && a.children.len() >= 2
            && a.children[0].children.len() == 0 {
            let body = a.children[1];
            if body.kind == Kind::Call && body.children.len() >= 1 && body.children[0].kind
                == Kind::Ident && body.children[0].text == "import"@ && body.children.len() == 2
                && body.children[1].kind != Kind::Spread {
                if body.children[1].kind == Kind::Str {
                    Some(Some(body.children[1]))
                } else {
                    Some(None)
                }
            } else {
                None
            }
        } else {
            None
        }
    } else {
        None
    }
}

/// `@shopify/web-worker/webpack-loader?<options>!<path>`
pub open spec fn loader_source(name: Option<Seq<char>>, plain: bool, path: Seq<char>) -> Seq<char> {
    "@shopify/web-worker/webpack-loader?"@ + loader_options_json(name, plain) + "!"@ + path
}

/// The `_worker` identifier with the given syntax context.
pub open spec fn worker_ident(ctxt: u32) -> SpecNode {
    leaf(Kind::Ident, "_worker"@, ctxt, dummy_span())
}

/// `import _worker from "<source>";` spanning `span`.
pub open spec fn worker_import(source: SpecNode, worker: SpecNode, span: Span) -> SpecNode {
    SpecNode {
        kind: Kind::ImportDecl { type_only: false },
        text: seq![],
        ctxt: 0,
        span,
        children: seq![source, branch(Kind::ImportDefault, seq![worker])],
    }
}

/// A call of a worker factory after its children are done.
pub open spec fn worker_call(st: WebState, call: SpecNode, plain: bool) -> (WebState, SpecNode) {
    match dynamic_import_of(call) {
        None => (st, call),
        Some(None) => (WebState { error: Some(WebWorkerError::DynamicImportNotString), ..st }, call),
        Some(Some(path)) => match chunk_name(comments_at(st.comments, path.span.lo)) {
            Err(e) => (WebState { error: Some(e), ..st }, call),
            Ok(name) => if st.next_ctxt == u32::MAX {
                (WebState { error: Some(WebWorkerError::ContextOverflow), ..st }, call)
            } else {
                let worker = worker_ident(st.next_ctxt);
                let source = string_lit(loader_source(name, plain, path.text), path.span);
                (
                    WebState {
                        next_ctxt: (st.next_ctxt + 1) as u32,
                        added: st.added.push(worker_import(source, worker, call.children[0].span)),
                        ..st
                    },
                    with_children(call, call.children.update(1, worker)),
                )
            },
        },
    }
}

impl Folder for WebWorker {
    open spec fn import_step(st: WebState, decl: SpecNode) -> (WebState, SpecNode) {
        (st, decl)
    }

    open spec fn enter_step(st: WebState) -> WebState {
        st
    }

    open spec fn exit_step(st: WebState) -> WebState {
        st
    }

    open spec fn call_step(st: WebState, call: SpecNode) -> (WebState, SpecNode) {
        if st.error is None && call.children.len() >= 1 && call.children[0].kind == Kind::Ident {
            match factory_of(st.factories, id_of(call.children[0])) {
                Some(plain) => worker_call(st, call, plain),
                None => (st, call),
            }
        } else {
            (st, call)
        }
    }

    open spec fn binding_step(st: WebState, node: SpecNode) -> WebState {
        st
    }

    /// The call step goes on with every call but a worker factory given a
    /// dynamic import that is no string, one whose path has two chunk-name
    /// comments, and one for which no syntax context is left.
    open spec fn call_ok(st: WebState, call: SpecNode) -> bool {
        Self::call_step(st, call).0.error is None
    }

    fn fold_import(&mut self, decl: Node) -> (r: Node) {
        decl
    }

    fn enter_block(&mut self) {
    }

    fn exit_block(&mut self) {
    }

    fn fold_call(&mut self, call: Node) -> (r: Node) {
        self.step_call(call)
    }

    fn see_binding(&mut self, node: &Node) {
    }
}

/// Whether an item is a directive such as `"use strict";`.
pub open spec fn is_directive(item: SpecNode) -> bool {
    item.kind == Kind::ExprStmt && item.children.len() >= 1 && item.children[0].kind == Kind::Str
}

/// How many items at the start of `items` are directives.
pub open spec fn leading_directives(items: Seq<SpecNode>) -> nat
    decreases items.len(),
{
    if items.len() > 0 && is_directive(items[0]) {
        1 + leading_directives(items.drop_first())
    } else {
        0
    }
}

/// `module` with `stmts` placed after its leading directives.
pub open spec fn prepend_after_directives(module: SpecNode, stmts: Seq<SpecNode>) -> SpecNode {
    let k = leading_directives(module.children) as int;
    with_children(module, module.children.take(k) + stmts + module.children.skip(k))
}

proof fn lemma_leading_directives(items: Seq<SpecNode>, i: int)
    requires
        0 <= i <= items.len(),
        forall|j: int| 0 <= j < i ==> is_directive(#[trigger] items[j]),
    ensures
        leading_directives(items) == i + leading_directives(items.skip(i)),
    decreases i,
{
    if i > 0 {
        lemma_leading_directives(items.drop_first(), i - 1);
        assert(items.drop_first().skip(i - 1) =~= items.skip(i));
    } else {
        assert(items.skip(0) =~= items);
    }
}

fn prepend_stmts(module: Node, stmts: Vec<Node>) -> (r: Node)
    ensures
        r@ == prepend_after_directives(module@, nodes_view(stmts@)),
{
    let ghost items = module@.children;
    let mut k: usize = 0;
    while k < module.children.len() && matches!(module.children[k].kind, Kind::ExprStmt)
        && module.children[k].children.len() >= 1 && matches!(module.children[k].children[0].kind, Kind::Str)
        invariant
            k <= module.children.len(),
            items == module@.children,
            forall|j: int| 0 <= j < k ==> is_directive(#[trigger] items[j]),
        decreases module.children.len() - k,
    {
        k = k + 1;
    }
    proof {
        lemma_leading_directives(items, k as int);
        if k < items.len() {
            assert(!is_directive(items.skip(k as int)[0]));
        }
        assert(leading_directives(items) == k);
    }
    let Node { kind, text, ctxt, span, children } = module;
    let ghost ch0 = children@;
    let mut out: Vec<Node> = Vec::new();
    let mut rest = children;
    let mut i: usize = 0;
    while i < k
        invariant
            i <= k <= ch0.len(),
            rest@ == ch0.skip(i as int),
            out@ == ch0.take(i as int),
        decreases k - i,
    {
        let x = rest.remove(0);
        out.push(x);
        proof {
            assert(rest@ =~= ch0.skip(i + 1));
            assert(out@ =~= ch0.take(i + 1));
        }
        i = i + 1;
    }
    let ghost st = stmts@;
    let mut stmts = stmts;
    while stmts.len() > 0
        invariant
            stmts.len() <= st.len(),
            out@ == ch0.take(k as int) + st.take(st.len() - stmts.len()),
            stmts@ == st.skip(st.len() - stmts.len()),
        decreases stmts.len(),
    {
        let ghost before = stmts@.len();
        let ghost out0 = out@;
        proof {
            assert(stmts@[0] == st[st.len() - stmts.len()]);
        }
        let x = stmts.remove(0);
        out.push(x);
        proof {
            assert(out@ =~= out0.push(x));
            assert(st.take(st.len() - stmts.len()) =~= st.take(st.len() - before).push(x));
            assert(out@ =~= ch0.take(k as int) + st.take(st.len() - stmts.len()));
            assert(stmts@ =~= st.skip(st.len() - stmts.len()));
        }
    }
    while rest.len() > 0
        invariant
            out@ == ch0.take(k as int) + st + ch0.skip(k as int).take(ch0.len() - k - rest.len()),
            rest@ == ch0.skip(k as int).skip(ch0.len() - k - rest.len()),
            k <= ch0.len(),
            rest.len() <= ch0.len() - k,
        decreases rest.len(),
    {
        let x = rest.remove(0);
        out.push(x);
        proof {
            assert(out@ =~= ch0.take(k as int) + st + ch0.skip(k as int).take(ch0.len() - k - rest.len()));
            assert(rest@ =~= ch0.skip(k as int).skip(ch0.len() - k - rest.len()));
        }
    }
    let r = Node { kind, text, ctxt, span, children: out };
    proof {
        assert(ch0.skip(k as int).take(ch0.len() - k) =~= ch0.skip(k as int));
        assert(nodes_view(out@) =~= nodes_view(ch0).take(k as int) + nodes_view(st) + nodes_view(ch0).skip(k as int));
    }
    r
}

impl WebWorker {
    /// The call step, recording what stops the transform instead of
    /// leaving it out; only the walk that looks for such inputs uses it
    /// as it is.
    fn step_call(&mut self, call: Node) -> (r: Node)
        ensures
            (final(self)@, r@) == <WebWorker as Folder>::call_step(old(self)@, call@),
    {
        if self.error.is_some() || call.children.len() < 1 || !matches!(call.children[0].kind, Kind::Ident) {
            return call;
        }
        let callee = Id::of(&call.children[0]);
        let plain = match lookup_factory(&self.data.factories, &callee) {
            Some(p) => p,
            None => {
                return call;
            },
        };
        self.worker_call(call, plain)
    }

    fn worker_call(&mut self, call: Node, plain: bool) -> (r: Node)
        requires
            old(self)@.error is None,
        ensures
            (final(self)@, r@) == worker_call(old(self)@, call@, plain),
            final(self).data@ == old(self).data@,
    {
        // the one argument must be `() => import(<string>)`
        if call.children.len() != 2 {
            return call;
        }
        let a = &call.children[1];
        if !(matches!(a.kind, Kind::Arrow { is_async: false, is_generator: false }) && a.children.len() >= 2
            && a.children[0].children.len() == 0) {
            return call;
        }
        let body = &a.children[1];
        if !(matches!(body.kind, Kind::Call) && body.children.len() == 2 && matches!(body.children[0].kind, Kind::Ident)
            && same_text(body.children[0].text.as_str(), "import") && !matches!(body.children[1].kind, Kind::Spread)) {
            return call;
        }
        let path = &body.children[1];
        if !matches!(path.kind, Kind::Str) {
            self.error = Some(WebWorkerError::DynamicImportNotString);
            return call;
        }
        let comments = self.comments.get_leading(path.span.lo);
        let name = match chunk_name_from(&comments) {
            Err(e) => {
                self.error = Some(e);
                return call;
            },
            Ok(n) => n,
        };
        if self.next_ctxt == u32::MAX {
            self.error = Some(WebWorkerError::ContextOverflow);
            return call;
        }
        let options = match &name {
            Some(n) => loader_options(Some(n.as_str()), plain),
            None => loader_options(None, plain),
        };
        let source_text = join(
            join(join("@shopify/web-worker/webpack-loader?", options.as_str()).as_str(), "!").as_str(),
            path.text.as_str(),
        );
        let source = mk_leaf(Kind::Str, source_text.as_str(), 0, path.span);
        let ctxt = self.next_ctxt;
        let worker = mk_leaf(Kind::Ident, "_worker", ctxt, dummy());
        let local = mk_leaf(Kind::Ident, "_worker", ctxt, dummy());
        let specifier = mk_branch(Kind::ImportDefault, vec![local]);
        let callee_span = call.children[0].span;
        let ghost sv = source@;
        let ghost pv = specifier@;
        let decl = Node {
            kind: Kind::ImportDecl { type_only: false },
            text: String::new(),
            ctxt: 0,
            span: callee_span,
            children: vec![source, specifier],
        };
        proof {
            let nv = match name {
                Some(n) => Some(n@),
                None => None,
            };
            assert(specifier@.children =~= seq![worker_ident(ctxt)]);
            assert(nodes_view(decl.children@) =~= seq![sv, pv]);
            assert(decl.text@ =~= seq![]);
            assert(decl@ == worker_import(
                string_lit(loader_source(nv, plain, call@.children[1].children[1].children[1].text), call@.children[1].children[1].children[1].span),
                worker_ident(ctxt),
                call@.children[0].span,
            ));
        }
        let ghost added0 = nodes_view(self.added_imports@);
        self.added_imports.push(decl);
        self.next_ctxt = ctxt + 1;
        let Node { kind, text, ctxt: call_ctxt, span, mut children } = call;
        let ghost ch0 = children@;
        let _ = children.remove(1);
        children.insert(1, worker);
        let r = Node { kind, text, ctxt: call_ctxt, span, children };
        proof {
            assert(nodes_view(self.added_imports@) =~= added0.push(decl@));
            assert(children@ =~= ch0.update(1, worker));
            assert(nodes_view(r.children@) =~= nodes_view(ch0).update(1, worker@));
        }
        r
    }

    /// The comments of the module.
    pub fn comments(&self) -> (r: &Comments)
        ensures
            r@ == self@.comments,
    {
        &self.comments
    }

    /// A copy of the transform and its state.
    fn copy(&self) -> (r: WebWorker)
        ensures
            r@ == self@,
    {
        let mut factories: Vec<(Id, bool)> = Vec::new();
        let mut i: usize = 0;
        while i < self.data.factories.len()
            invariant
                i <= self.data.factories.len(),
                factories.len() == i,
                forall|j: int| 0 <= j < i ==> factories@[j].0@ == self.data.factories@[j].0@
                    && factories@[j].1 == self.data.factories@[j].1,
            decreases self.data.factories.len() - i,
        {
            let f = &self.data.factories[i];
            factories.push((f.0.copy(), f.1));
            i = i + 1;
        }
        let r = WebWorker {
            config: Config { noop: self.config.noop },
            comments: self.comments.copy(),
            data: ImportAnalyzer { factories },
            next_ctxt: self.next_ctxt,
            added_imports: copy_nodes(&self.added_imports),
            error: self.error,
        };
        assert(r.data@ =~= self.data@);
        r
    }

    /// The error that stops the transform of `module`, if any (see
    /// [`web_failure`]). A caller tests it before [`Self::fold_module`].
    pub fn failure(&self, module: &Node) -> (r: Option<WebWorkerError>)
        ensures
            r == web_failure(self@, module@),
    {
        let ghost m0 = module@;
        let ghost st_old = self@;
        let mut probe = WebProbe { inner: self.copy() };
        proof {
            assert(admits_all::<ImportAnalyzer>());
            lemma_walk_ok_all::<ImportAnalyzer>(st_old.factories, m0);
        }
        let m = fold_node(&mut probe.inner.data, copy_node(module));
        proof {
            assert(only_looks::<ImportAnalyzer>());
            lemma_fold_keeps_tree::<ImportAnalyzer>(st_old.factories, m0);
        }
        if probe.inner.data.factories.len() == 0 {
            return None;
        }
        proof {
            assert(admits_all::<WebProbe>());
            lemma_walk_ok_all::<WebProbe>(probe@, m@);
            lemma_web_probe_fold(probe@, m@);
        }
        let _ = fold_node(&mut probe, m);
        probe.inner.error
    }

    /// Transforms a module that [`web_failure`] does not stop: unchanged
    /// where it imports no worker factory; else walked, then given the
    /// loader imports after its directives.
    pub fn fold_module(&mut self, module: Node) -> (r: Node)
        requires
            web_failure(old(self)@, module@) is None,
        ensures
            ({
                let fs = spec_fold_node::<ImportAnalyzer>(old(self)@.factories, module@).0;
                let st0 = WebState { factories: fs, ..old(self)@ };
                if fs.len() == 0 {
                    r@ == module@ && final(self)@ == st0
                } else {
                    let (st, m) = spec_fold_node::<WebWorker>(st0, module@);
                    r@ == prepend_after_directives(m, st.added) && final(self)@ == (WebState {
                        added: seq![],
                        ..st
                    })
                }
            }),
    {
        let ghost m0 = module@;
        let ghost st_old = self@;
        proof {
            assert(admits_all::<ImportAnalyzer>());
            lemma_walk_ok_all::<ImportAnalyzer>(st_old.factories, m0);
        }
        let module = fold_node(&mut self.data, module);
        proof {
            assert(only_looks::<ImportAnalyzer>());
            lemma_fold_keeps_tree::<ImportAnalyzer>(st_old.factories, m0);
        }
        if self.data.factories.len() == 0 {
            return module;
        }
        proof {
            if self@.error is Some {
                lemma_web_error_stays(self@, module@);
            }
            lemma_web_no_error_walk_ok(self@, module@);
        }
        let m = fold_node(self, module);
        let mut added: Vec<Node> = Vec::new();
        std::mem::swap(&mut added, &mut self.added_imports);
        proof {
            assert(nodes_view(self.added_imports@) =~= seq![]);
        }
        prepend_stmts(m, added)
    }
}

/// The transform walked over a module to find what would stop it: its
/// call step goes on with every call and records that instead.
struct WebProbe {
    inner: WebWorker,
}

impl View for WebProbe {
    type V = WebState;

    closed spec fn view(&self) -> WebState {
        self.inner@
    }
}

impl Folder for WebProbe {
    open spec fn import_step(st: WebState, decl: SpecNode) -> (WebState, SpecNode) {
        <WebWorker as Folder>::import_step(st, decl)
    }

    open spec fn enter_step(st: WebState) -> WebState {
        <WebWorker as Folder>::enter_step(st)
    }

    open spec fn exit_step(st: WebState) -> WebState {
        <WebWorker as Folder>::exit_step(st)
    }

    open spec fn call_step(st: WebState, call: SpecNode) -> (WebState, SpecNode) {
        <WebWorker as Folder>::call_step(st, call)
    }

    open spec fn binding_step(st: WebState, node: SpecNode) -> WebState {
        <WebWorker as Folder>::binding_step(st, node)
    }

    open spec fn call_ok(st: WebState, call: SpecNode) -> bool {
        true
    }

    fn fold_import(&mut self, decl: Node) -> (r: Node) {
        self.inner.fold_import(decl)
    }

    fn enter_block(&mut self) {
        self.inner.enter_block()
    }

    fn exit_block(&mut self) {
        self.inner.exit_block()
    }

    fn fold_call(&mut self, call: Node) -> (r: Node) {
        self.inner.step_call(call)
    }

    fn see_binding(&mut self, node: &Node) {
        self.inner.see_binding(node)
    }
}

proof fn lemma_web_probe_fold(st: WebState, n: SpecNode)
    ensures
        spec_fold_node::<WebProbe>(st, n) == spec_fold_node::<WebWorker>(st, n),
    decreases n, 0nat,
{
    lemma_web_probe_folds(st, n.children);
}

proof fn lemma_web_probe_folds(st: WebState, s: Seq<SpecNode>)
    ensures
        crate::fold::spec_fold_nodes::<WebProbe>(st, s) == crate::fold::spec_fold_nodes::<WebWorker>(st, s),
    decreases s, s.len(),
{
    if s.len() > 0 {
        lemma_web_probe_folds(st, s.drop_last());
        let sm = crate::fold::spec_fold_nodes::<WebWorker>(st, s.drop_last()).0;
        lemma_web_probe_fold(sm, s.last());
    }
}

/// A walk that ends without an error reaches only calls that the call
/// step goes on with.
proof fn lemma_web_no_error_walk_ok(st: WebState, n: SpecNode)
    requires
        st.error is None,
        spec_fold_node::<WebWorker>(st, n).0.error is None,
    ensures
        walk_ok::<WebWorker>(st, n),
    decreases n, 0nat,
{
    let s1 = crate::fold::spec_fold_nodes::<WebWorker>(st, n.children).0;
    if n.kind != Kind::Call || s1.error is None {
        if !(n.kind is ImportDecl) {
            lemma_web_no_error_walks_ok(st, n.children);
        }
    }
}

proof fn lemma_web_no_error_walks_ok(st: WebState, xs: Seq<SpecNode>)
    requires
        st.error is None,
        crate::fold::spec_fold_nodes::<WebWorker>(st, xs).0.error is None,
    ensures
        walks_ok::<WebWorker>(st, xs),
    decreases xs, xs.len(),
{
    if xs.len() > 0 {
        let sm = crate::fold::spec_fold_nodes::<WebWorker>(st, xs.drop_last()).0;
        if sm.error is Some {
            lemma_web_error_stays(sm, xs.last());
        }
        lemma_web_no_error_walks_ok(st, xs.drop_last());
        lemma_web_no_error_walk_ok(sm, xs.last());
    }
}

/// The transform for a module with these comments, whose `_worker`
/// identifiers get syntax contexts from `first_private_ctxt` on.
pub fn web_worker(config: Config, comments: Comments, first_private_ctxt: u32) -> (r: WebWorker)
    ensures
        r@ == (WebState {
            comments: comments@,
            factories: seq![],
            next_ctxt: first_private_ctxt,
            added: seq![],
            error: None,
        }),
{
    let r = WebWorker {
        config,
        comments,
        data: ImportAnalyzer { factories: Vec::new() },
        next_ctxt: first_private_ctxt,
        added_imports: Vec::new(),
        error: None,
    };
    proof {
        assert(r.data@ =~= seq![]);
        assert(nodes_view(r.added_imports@) =~= seq![]);
    }
    r
}

// ---------------------------------------------------------------------
// Laws.

/// The syntax context of the `_worker` that a loader import binds.
pub open spec fn worker_ctxt(decl: SpecNode) -> u32 {
    decl.children[1].children[0].ctxt
}

/// The loader imports made so far bind `_worker`s with increasing syntax
/// contexts, all below the next one to be given.
pub open spec fn fresh_workers(st: WebState) -> bool {
    &&& forall|i: int| 0 <= i < st.added.len() ==> worker_ctxt(#[trigger] st.added[i]) < st.next_ctxt
    &&& forall|i: int, j: int|
        0 <= i < j < st.added.len() ==> worker_ctxt(#[trigger] st.added[i]) < worker_ctxt(
            #[trigger] st.added[j],
        )
}

proof fn lemma_call_keeps_fresh(st: WebState, call: SpecNode)
    requires
        fresh_workers(st),
    ensures
        fresh_workers(<WebWorker as Folder>::call_step(st, call).0),
{
    let r = <WebWorker as Folder>::call_step(st, call).0;
    if r.added.len() != st.added.len() {
        assert(r.added.drop_last() == st.added);
        assert(worker_ctxt(r.added.last()) == st.next_ctxt);
        assert(r.next_ctxt == st.next_ctxt + 1);
    } else {
        assert(r.added == st.added);
        assert(r.next_ctxt == st.next_ctxt);
    }
}

proof fn lemma_fold_keeps_fresh(st: WebState, n: SpecNode)
    requires
        fresh_workers(st),
    ensures
        fresh_workers(spec_fold_node::<WebWorker>(st, n).0),
    decreases n, 0nat,
{
    match n.kind {
        Kind::ImportDecl { .. } => {},
        Kind::Block => {
            lemma_folds_keep_fresh(st, n.children);
        },
        Kind::Call => {
            lemma_folds_keep_fresh(st, n.children);
            let (s1, cs) = crate::fold::spec_fold_nodes::<WebWorker>(st, n.children);
            lemma_call_keeps_fresh(s1, with_children(n, cs));
        },
        _ => {
            lemma_folds_keep_fresh(st, n.children);
        },
    }
}

proof fn lemma_folds_keep_fresh(st: WebState, s: Seq<SpecNode>)
    requires
        fresh_workers(st),
    ensures
        fresh_workers(crate::fold::spec_fold_nodes::<WebWorker>(st, s).0),
    decreases s, s.len(),
{
    if s.len() > 0 {
        lemma_folds_keep_fresh(st, s.drop_last());
        let s1 = crate::fold::spec_fold_nodes::<WebWorker>(st, s.drop_last()).0;
        lemma_fold_keeps_fresh(s1, s.last());
    }
}

/// Whether `s` is a named specifier whose local name is `id`.
pub open spec fn binds_local(s: SpecNode, id: (Seq<char>, u32)) -> bool {
    s.kind == Kind::ImportNamed && s.children.len() > 0 && id_of(s.children[0]) == id
}

/// The name of the factory that a named specifier imports: plain or not.
pub open spec fn factory_name(plain: bool) -> Seq<char> {
    if plain {
        "createPlainWorkerFactory"@
    } else {
        "createWorkerFactory"@
    }
}

proof fn lemma_factory_of_after(a: Seq<((Seq<char>, u32), bool)>, b: Seq<((Seq<char>, u32), bool)>, id: (Seq<char>, u32))
    requires
        factory_of(b, id) is Some,
    ensures
        factory_of(a + b, id) == factory_of(b, id),
    decreases b.len(),
{
    if b.len() > 0 {
        assert((a + b).last() == b.last());
        assert((a + b).drop_last() =~= a + b.drop_last());
        if b.last().0 != id {
            lemma_factory_of_after(a, b.drop_last(), id);
        }
    }
}

proof fn lemma_last_factory(specs: Seq<SpecNode>, k: int, plain: bool)
    requires
        0 <= k < specs.len(),
        binds_local(specs[k], id_of(specs[k].children[0])),
        (if specs[k].children.len() >= 2 {
            specs[k].children[1].text
        } else {
            specs[k].children[0].text
        }) == factory_name(plain),
        forall|j: int| k < j < specs.len() ==> !binds_local(#[trigger] specs[j], id_of(specs[k].children[0])),
    ensures
        factory_of(factory_specifiers(specs), id_of(specs[k].children[0])) == Some(plain),
    decreases specs.len(),
{
    reveal_strlit("createPlainWorkerFactory");
    reveal_strlit("createWorkerFactory");
    assert("createPlainWorkerFactory"@ != "createWorkerFactory"@) by {
        assert("createPlainWorkerFactory"@.len() != "createWorkerFactory"@.len());
    }
    let id = id_of(specs[k].children[0]);
    let rest = factory_specifiers(specs.drop_last());
    if k == specs.len() - 1 {
        assert(factory_specifier(specs[k]) == Some((id, plain)));
        assert(factory_specifiers(specs) == rest + seq![(id, plain)]);
        assert((rest + seq![(id, plain)]).last() == (id, plain));
    } else {
        assert(specs.drop_last()[k] == specs[k]);
        assert forall|j: int| k < j < specs.drop_last().len() implies !binds_local(
            #[trigger] specs.drop_last()[j],
            id,
        ) by {
            assert(specs.drop_last()[j] == specs[j]);
        }
        lemma_last_factory(specs.drop_last(), k, plain);
        assert(!binds_local(specs.last(), id));
        match factory_specifier(specs.last()) {
            Some(f) => {
                assert(f.0 != id);
                let all = rest + seq![f];
                assert(all.last() == f);
                assert(all.drop_last() =~= rest);
            },
            None => {
                assert(rest + Seq::<((Seq<char>, u32), bool)>::empty() =~= rest);
            },
        }
    }
}

/// Reading an import from `@shopify/web-worker` or
/// `@shopify/react-web-worker` makes every named specifier that imports
/// `createWorkerFactory` (or `createPlainWorkerFactory`), wherever it
/// stands among the specifiers, a factory (a plain one) under its local
/// name, unless a later specifier of the import takes that local name.
pub proof fn law_every_factory_specifier_counts(
    st: Seq<((Seq<char>, u32), bool)>,
    decl: SpecNode,
    k: int,
    plain: bool,
)
    requires
        decl.children.len() > 0,
        decl.children[0].kind == Kind::Str,
        decl.children[0].text == "@shopify/web-worker"@ || decl.children[0].text
            == "@shopify/react-web-worker"@,
        1 <= k < decl.children.len(),
        decl.children[k].kind == Kind::ImportNamed,
        decl.children[k].children.len() > 0,
        (if decl.children[k].children.len() >= 2 {
            decl.children[k].children[1].text
        } else {
            decl.children[k].children[0].text
        }) == factory_name(plain),
        forall|j: int|
            k < j < decl.children.len() ==> !binds_local(
                #[trigger] decl.children[j],
                id_of(decl.children[k].children[0]),
            ),
    ensures
        ({
            let (st1, d1) = <ImportAnalyzer as Folder>::import_step(st, decl);
            &&& d1 == decl
            &&& factory_of(st1, id_of(decl.children[k].children[0])) == Some(plain)
        }),
{
    let specs = decl.children.drop_first();
    assert(specs[k - 1] == decl.children[k]);
    assert forall|j: int| k - 1 < j < specs.len() implies !binds_local(
        #[trigger] specs[j],
        id_of(specs[k - 1].children[0]),
    ) by {
        assert(specs[j] == decl.children[j + 1]);
    }
    lemma_last_factory(specs, k - 1, plain);
    lemma_factory_of_after(st, factory_specifiers(specs), id_of(decl.children[k].children[0]));
}

/// Whether `s` is a named specifier importing `createWorkerFactory` or
/// `createPlainWorkerFactory`.
pub open spec fn imports_factory(s: SpecNode) -> bool {
    &&& s.kind == Kind::ImportNamed
    &&& s.children.len() > 0
    &&& (crate::i18n_transform::imported_name(s) == factory_name(false)
        || crate::i18n_transform::imported_name(s) == factory_name(true))
}

/// The factory that such a specifier records: its local name, and whether
/// it is the plain one.
pub open spec fn specifier_factory(s: SpecNode) -> ((Seq<char>, u32), bool) {
    (id_of(s.children[0]), crate::i18n_transform::imported_name(s) == factory_name(true))
}

proof fn lemma_factories_are_factory_specifiers(specs: Seq<SpecNode>)
    ensures
        factory_specifiers(specs) == specs.filter(|s: SpecNode| imports_factory(s)).map_values(
            |s: SpecNode| specifier_factory(s),
        ),
    decreases specs.len(),
{
    reveal(Seq::filter);
    reveal_strlit("createPlainWorkerFactory");
    reveal_strlit("createWorkerFactory");
    assert("createPlainWorkerFactory"@ != "createWorkerFactory"@) by {
        assert("createPlainWorkerFactory"@.len() != "createWorkerFactory"@.len());
    }
    if specs.len() > 0 {
        lemma_factories_are_factory_specifiers(specs.drop_last());
        let rest = specs.drop_last().filter(|s: SpecNode| imports_factory(s));
        let s = specs.last();
        if imports_factory(s) {
            assert(factory_specifier(s) == Some(specifier_factory(s)));
            assert(rest.push(s).map_values(|s: SpecNode| specifier_factory(s)) =~= rest.map_values(
                |s: SpecNode| specifier_factory(s),
            ) + seq![specifier_factory(s)]);
        } else {
            assert(factory_specifier(s) is None);
            assert(factory_specifiers(specs) =~= factory_specifiers(specs.drop_last()));
        }
    }
}

/// Reading an import from `@shopify/web-worker` or
/// `@shopify/react-web-worker` records, after the factories known before,
/// one factory for each of its named specifiers that imports
/// `createWorkerFactory` or `createPlainWorkerFactory`, in the order in
/// which they stand, and leaves the import as it is.
pub proof fn law_factories_in_order(st: Seq<((Seq<char>, u32), bool)>, decl: SpecNode)
    requires
        decl.children.len() > 0,
        decl.children[0].kind == Kind::Str,
        decl.children[0].text == "@shopify/web-worker"@ || decl.children[0].text
            == "@shopify/react-web-worker"@,
    ensures
        <ImportAnalyzer as Folder>::import_step(st, decl) == (
            st + decl.children.drop_first().filter(|s: SpecNode| imports_factory(s)).map_values(
                |s: SpecNode| specifier_factory(s),
            ),
            decl,
        ),
{
    lemma_factories_are_factory_specifiers(decl.children.drop_first());
}

/// Each worker gets an identifier of its own: folding a module that starts
/// with no loader imports makes imports whose `_worker`s have distinct
/// (increasing) syntax contexts.
pub proof fn law_worker_contexts_distinct(st: WebState, module: SpecNode)
    requires
        st.added.len() == 0,
    ensures
        fresh_workers(spec_fold_node::<WebWorker>(st, module).0),
{
    lemma_fold_keeps_fresh(st, module);
}

/// Where a worker call is rewritten, its argument is the very identifier
/// that the new loader import binds, and the import loads the path with
/// the loader prefix.
pub proof fn law_argument_is_the_imported_worker(st: WebState, call: SpecNode, plain: bool)
    requires
        worker_call(st, call, plain).0.added.len() == st.added.len() + 1,
    ensures
        ({
            let (st1, c1) = worker_call(st, call, plain);
            &&& c1.children[1] == st1.added.last().children[1].children[0]
            &&& dynamic_import_of(call) matches Some(Some(path)) && has_prefix(
                st1.added.last().children[0].text,
                "@shopify/web-worker/webpack-loader?"@,
            ) && st1.added.last().children[0].span == path.span
        }),
{
    let (st1, c1) = worker_call(st, call, plain);
    if let Some(Some(path)) = dynamic_import_of(call) {
        if let Ok(name) = chunk_name(comments_at(st.comments, path.span.lo)) {
            let src = loader_source(name, plain, path.text);
            assert(src.subrange(0, "@shopify/web-worker/webpack-loader?"@.len() as int) =~= "@shopify/web-worker/webpack-loader?"@);
        }
    }
}


proof fn lemma_web_error_stays(s: WebState, n: SpecNode)
    requires
        s.error is Some,
    ensures
        spec_fold_node::<WebWorker>(s, n).0.error == s.error,
    decreases n, 0nat,
{
    lemma_web_errors_stay(s, n.children);
}

proof fn lemma_web_errors_stay(s: WebState, xs: Seq<SpecNode>)
    requires
        s.error is Some,
    ensures
        crate::fold::spec_fold_nodes::<WebWorker>(s, xs).0.error == s.error,
    decreases xs, xs.len(),
{
    if xs.len() > 0 {
        lemma_web_errors_stay(s, xs.drop_last());
        let sm = crate::fold::spec_fold_nodes::<WebWorker>(s, xs.drop_last()).0;
        lemma_web_error_stays(sm, xs.last());
    }
}

/// Siblings that each fold to themselves, leaving the state as it was,
/// fold together the same way.
proof fn lemma_web_folds_fixed(t: WebState, xs: Seq<SpecNode>)
    requires
        forall|i: int| 0 <= i < xs.len() ==> #[trigger] spec_fold_node::<WebWorker>(t, xs[i]) == (t, xs[i]),
    ensures
        crate::fold::spec_fold_nodes::<WebWorker>(t, xs) == (t, xs),
    decreases xs.len(),
{
    if xs.len() > 0 {
        lemma_web_folds_fixed(t, xs.drop_last());
        assert(spec_fold_node::<WebWorker>(t, xs[xs.len() - 1]) == (t, xs[xs.len() - 1]));
        assert(xs.drop_last().push(xs.last()) =~= xs);
    }
}

proof fn lemma_web_fold_again(s: WebState, t: WebState, n: SpecNode)
    requires
        t.error is None,
        t.factories == s.factories,
    ensures
        ({
            let (s1, n1) = spec_fold_node::<WebWorker>(s, n);
            &&& s1.factories == s.factories
            &&& s1.error is None ==> spec_fold_node::<WebWorker>(t, n1) == (t, n1)
        }),
    decreases n, 0nat,
{
    lemma_web_folds_again(s, t, n.children);
    let (s1, cs1) = crate::fold::spec_fold_nodes::<WebWorker>(s, n.children);
    let m = with_children(n, cs1);
    assert(with_children(m, m.children) == m);
    if n.kind == Kind::Call && s1.error is None && m.children.len() >= 1 && m.children[0].kind == Kind::Ident {
        if let Some(plain) = factory_of(s1.factories, id_of(m.children[0])) {
            if let Some(Some(path)) = dynamic_import_of(m) {
                let (s2, c2) = worker_call(s1, m, plain);
                if s2.error is None {
                    let w = worker_ident(s1.next_ctxt);
                    assert(c2 == with_children(m, cs1.update(1, w)));
                    let cs2 = cs1.update(1, w);
                    assert(spec_fold_node::<WebWorker>(t, w) == (t, w)) by {
                        let e = Seq::<SpecNode>::empty();
                        assert(w.children =~= e);
                        assert(crate::fold::spec_fold_nodes::<WebWorker>(t, e) == (t, e));
                        assert(with_children(w, e) == w);
                    }
                    assert forall|i: int| 0 <= i < cs2.len() implies #[trigger] spec_fold_node::<WebWorker>(t, cs2[i]) == (t, cs2[i]) by {
                        if i != 1 {
                            assert(cs2[i] == cs1[i]);
                        }
                    }
                    lemma_web_folds_fixed(t, cs2);
                    assert(with_children(c2, cs2) == c2);
                    assert(dynamic_import_of(c2) is None);
                }
            }
        }
    }
}

proof fn lemma_web_folds_again(s: WebState, t: WebState, xs: Seq<SpecNode>)
    requires
        t.error is None,
        t.factories == s.factories,
    ensures
        ({
            let (s1, ys) = crate::fold::spec_fold_nodes::<WebWorker>(s, xs);
            &&& s1.factories == s.factories
            &&& s1.error is None ==> forall|i: int| 0 <= i < ys.len() ==> #[trigger] spec_fold_node::<WebWorker>(t, ys[i]) == (t, ys[i])
            &&& s1.error is None ==> crate::fold::spec_fold_nodes::<WebWorker>(t, ys) == (t, ys)
        }),
    decreases xs, xs.len(),
{
    if xs.len() > 0 {
        lemma_web_folds_again(s, t, xs.drop_last());
        let (sm, init) = crate::fold::spec_fold_nodes::<WebWorker>(s, xs.drop_last());
        lemma_web_fold_again(sm, t, xs.last());
        let (sf, x) = spec_fold_node::<WebWorker>(sm, xs.last());
        let ys = init.push(x);
        if sf.error is None {
            if sm.error is Some {
                lemma_web_error_stays(sm, xs.last());
            }
            assert forall|i: int| 0 <= i < ys.len() implies #[trigger] spec_fold_node::<WebWorker>(t, ys[i]) == (t, ys[i]) by {
                if i < init.len() {
                    assert(ys[i] == init[i]);
                }
            }
            lemma_web_folds_fixed(t, ys);
        }
    }
}

/// Walking the walk's output again, from a state with the same factories
/// and no error, changes nothing and adds no loader import: each rewritten
/// call now passes `_worker`, which is no dynamic import.
pub proof fn law_fold_again_adds_nothing(st: WebState, t: WebState, module: SpecNode)
    requires
        t.error is None,
        t.factories == st.factories,
        spec_fold_node::<WebWorker>(st, module).0.error is None,
    ensures
        ({
            let m = spec_fold_node::<WebWorker>(st, module).1;
            spec_fold_node::<WebWorker>(t, m) == (t, m)
        }),
{
    lemma_web_fold_again(st, t, module);
}

} // verus!
