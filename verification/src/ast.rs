//! The syntax tree that the transforms read and write.
//!
//! A module is a rose tree of [`Node`]s. Each node has a [`Kind`], a text
//! (the name of an identifier, the value of a string literal, the raw text of
//! a template element), a syntax context (identifier hygiene), a span and its
//! children in source order. Constructs that no transform looks into are
//! carried as [`Kind::Other`] with an opaque handle and their children.
use vstd::prelude::*;

verus! {

broadcast use vstd::string::group_string_axioms;

/// A byte range of the source file.
#[derive(Clone, Copy, PartialEq, Eq, Structural, Debug)]
pub struct Span {
    pub lo: u32,
    pub hi: u32,
}

/// Binary operators that the transforms generate.
#[derive(Clone, Copy, PartialEq, Eq, Structural, Debug)]
pub enum BinOp {
    /// `!==`
    StrictNotEq,
    /// `<`
    Lt,
    /// `&&`
    LogicalAnd,
}

/// Kinds of variable declarations.
#[derive(Clone, Copy, PartialEq, Eq, Structural, Debug)]
pub enum VarKind {
    Var,
    Let,
    Const,
}

/// The kind of a node, and the shape of its children.
#[derive(Clone, Copy, PartialEq, Eq, Structural, Debug)]
pub enum Kind {
    /// Module items.
    Module,
    /// `[source Str, specifiers...]`
    ImportDecl { type_only: bool },
    /// `import local from ..`: `[local Ident]`
    ImportDefault,
    /// `import { imported as local } from ..`: `[local Ident]` or `[local Ident, imported Ident]`
    ImportNamed,
    /// `import * as local from ..`: `[local Ident]`
    ImportNamespace,
    /// An identifier reference (leaf).
    Ident,
    /// An identifier in a binding position (leaf).
    BindingIdent,
    /// A string literal (leaf).
    Str,
    /// A non-negative integral number literal (leaf).
    Num(u32),
    /// `[callee, arguments...]`
    Call,
    /// `...expr`: `[expr]`
    Spread,
    /// `[object, property]`
    Member { computed: bool },
    /// `[left, right]`
    Bin(BinOp),
    /// `[target, value]`, the operator being opaque.
    Assign { op: u32 },
    /// `[Params, body]`, the body a `Block` or an expression.
    Arrow { is_async: bool, is_generator: bool },
    /// `[Params]` or `[Params, Block]`
    Function { is_async: bool, is_generator: bool },
    /// Parameter patterns.
    Params,
    /// Properties: `KeyValueProp`, `MethodProp`, `Spread` or others.
    Object,
    /// `[key, value]`
    KeyValueProp,
    /// `[key, Function]`
    MethodProp,
    /// Elements.
    Array,
    /// `[expressions..., TplElement...]`
    Tpl,
    /// A quasi of a template (leaf): the text is its raw value.
    TplElement { tail: bool },
    /// Statements of a block.
    Block,
    /// `[expr]`
    ExprStmt,
    /// `[]` or `[argument]`
    Return,
    /// `[test, consequent]` or `[test, consequent, alternate]`
    If,
    /// `[discriminant, cases...]`
    Switch,
    /// `[test, statements...]`
    Case,
    /// `[statements...]`
    DefaultCase,
    /// Declarators.
    VarDecl(VarKind),
    /// `[name]` or `[name, init]`
    VarDeclarator,
    /// Any other construct, with an opaque handle and its children.
    Other(u64),
}

/// A node of the tree.
#[derive(Debug)]
pub struct Node {
    pub kind: Kind,
    pub text: String,
    pub ctxt: u32,
    pub span: Span,
    pub children: Vec<Node>,
}

/// The mathematical value of a [`Node`].
pub struct SpecNode {
    pub kind: Kind,
    pub text: Seq<char>,
    pub ctxt: u32,
    pub span: Span,
    pub children: Seq<SpecNode>,
}

pub open spec fn node_view(n: Node) -> SpecNode
    decreases n,
{
    SpecNode {
        kind: n.kind,
        text: n.text@,
        ctxt: n.ctxt,
        span: n.span,
        children: Seq::new(
            n.children.len() as nat,
            |i: int|
                if 0 <= i < n.children.len() {
                    node_view(n.children[i])
                } else {
                    arbitrary()
                },
        ),
    }
}

impl View for Node {
    type V = SpecNode;

    open spec fn view(&self) -> SpecNode {
        node_view(*self)
    }
}

pub open spec fn nodes_view(s: Seq<Node>) -> Seq<SpecNode> {
    s.map_values(|n: Node| n@)
}

/// The view of a node field by field.
pub broadcast proof fn lemma_node_view(n: Node)
    ensures
        #[trigger] node_view(n) == (SpecNode {
            kind: n.kind,
            text: n.text@,
            ctxt: n.ctxt,
            span: n.span,
            children: nodes_view(n.children@),
        }),
{
    assert(node_view(n).children =~= nodes_view(n.children@));
}

/// The span of generated nodes.
pub open spec fn dummy_span() -> Span {
    Span { lo: 0, hi: 0 }
}

pub fn dummy() -> (r: Span)
    ensures
        r == dummy_span(),
{
    Span { lo: 0, hi: 0 }
}

/// A leaf with a text.
pub open spec fn leaf(kind: Kind, text: Seq<char>, ctxt: u32, span: Span) -> SpecNode {
    SpecNode { kind, text, ctxt, span, children: seq![] }
}

/// A generated inner node: no text, no context, no span.
pub open spec fn branch(kind: Kind, children: Seq<SpecNode>) -> SpecNode {
    SpecNode { kind, text: seq![], ctxt: 0, span: dummy_span(), children }
}

/// A generated identifier reference.
pub open spec fn ident(sym: Seq<char>) -> SpecNode {
    leaf(Kind::Ident, sym, 0, dummy_span())
}

/// A generated string literal.
pub open spec fn string_lit(value: Seq<char>, span: Span) -> SpecNode {
    leaf(Kind::Str, value, 0, span)
}

pub fn mk_leaf(kind: Kind, text: &str, ctxt: u32, span: Span) -> (r: Node)
    ensures
        r@ == leaf(kind, text@, ctxt, span),
{
    let r = Node { kind, text: text.to_string(), ctxt, span, children: Vec::new() };
    proof {
        lemma_node_view(r);
        assert(nodes_view(r.children@) =~= seq![]);
    }
    r
}

pub fn mk_branch(kind: Kind, children: Vec<Node>) -> (r: Node)
    ensures
        r@ == branch(kind, nodes_view(children@)),
{
    let r = Node { kind, text: String::new(), ctxt: 0, span: dummy(), children };
    proof {
        lemma_node_view(r);
    }
    r
}

/// A generated inner node with a span.
pub open spec fn spanned(kind: Kind, span: Span, children: Seq<SpecNode>) -> SpecNode {
    SpecNode { kind, text: seq![], ctxt: 0, span, children }
}

pub fn mk_spanned(kind: Kind, span: Span, children: Vec<Node>) -> (r: Node)
    ensures
        r@ == spanned(kind, span, nodes_view(children@)),
{
    let r = Node { kind, text: String::new(), ctxt: 0, span, children };
    proof {
        lemma_node_view(r);
    }
    r
}

pub fn mk_ident(sym: &str) -> (r: Node)
    ensures
        r@ == ident(sym@),
{
    mk_leaf(Kind::Ident, sym, 0, dummy())
}

pub fn mk_str(value: &str, span: Span) -> (r: Node)
    ensures
        r@ == string_lit(value@, span),
{
    mk_leaf(Kind::Str, value, 0, span)
}

/// A copy of `n` and everything below it.
pub fn copy_node(n: &Node) -> (r: Node)
    ensures
        r@ == n@,
    decreases n,
{
    proof {
        lemma_node_view(*n);
    }
    let children = copy_nodes(&n.children);
    let r = Node { kind: n.kind, text: n.text.clone(), ctxt: n.ctxt, span: n.span, children };
    proof {
        lemma_node_view(r);
    }
    r
}

/// Copies of the nodes of `v`, in order.
pub fn copy_nodes(v: &Vec<Node>) -> (r: Vec<Node>)
    ensures
        nodes_view(r@) == nodes_view(v@),
    decreases v,
{
    let mut out: Vec<Node> = Vec::new();
    let mut i: usize = 0;
    while i < v.len()
        invariant
            i <= v.len(),
            out.len() == i,
            forall|j: int| 0 <= j < i ==> out@[j]@ == v@[j]@,
        decreases v.len() - i,
    {
        proof {
            assert(decreases_to!(v => v[i as int]));
        }
        let c = copy_node(&v[i]);
        out.push(c);
        i = i + 1;
    }
    assert(nodes_view(out@) =~= nodes_view(v@));
    out
}

/// The name of a binding: its symbol and its syntax context.
#[derive(Debug)]
pub struct Id {
    pub sym: String,
    pub ctxt: u32,
}

impl View for Id {
    type V = (Seq<char>, u32);

    open spec fn view(&self) -> (Seq<char>, u32) {
        (self.sym@, self.ctxt)
    }
}

/// The name that an identifier node binds or refers to.
pub open spec fn id_of(n: SpecNode) -> (Seq<char>, u32) {
    (n.text, n.ctxt)
}

pub open spec fn ids_view(s: Seq<Id>) -> Seq<(Seq<char>, u32)> {
    s.map_values(|i: Id| i@)
}

/// The text of an optional string.
pub open spec fn opt_text(o: Option<String>) -> Option<Seq<char>> {
    match o {
        Some(s) => Some(s@),
        None => None,
    }
}

impl Id {
    pub fn of(n: &Node) -> (r: Id)
        ensures
            r@ == id_of(n@),
    {
        proof {
            lemma_node_view(*n);
        }
        Id { sym: n.text.clone(), ctxt: n.ctxt }
    }

    pub fn copy(&self) -> (r: Id)
        ensures
            r@ == self@,
    {
        Id { sym: self.sym.clone(), ctxt: self.ctxt }
    }

    pub fn same(&self, other: &Id) -> (r: bool)
        ensures
            r == (self@ == other@),
    {
        self.ctxt == other.ctxt && self.sym == other.sym
    }
}

/// Whether `v` holds a name equal to `id`.
pub fn has_id(v: &Vec<Id>, id: &Id) -> (r: bool)
    ensures
        r == ids_view(v@).contains(id@),
{
    let mut i: usize = 0;
    while i < v.len()
        invariant
            i <= v.len(),
            forall|j: int| 0 <= j < i ==> v@[j]@ != id@,
        decreases v.len() - i,
    {
        if v[i].same(id) {
            assert(ids_view(v@)[i as int] == id@);
            return true;
        }
        i = i + 1;
    }
    assert(!ids_view(v@).contains(id@)) by {
        if ids_view(v@).contains(id@) {
            let j = choose|j: int| 0 <= j < ids_view(v@).len() && ids_view(v@)[j] == id@;
            assert(v@[j]@ == id@);
        }
    }
    false
}

} // verus!
