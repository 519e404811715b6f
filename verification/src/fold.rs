//! The walk that every transform shares: a left-to-right, depth-first fold
//! of a tree in which a [`Folder`] is told about import declarations, block
//! entry and exit, finished calls, assignments and variable declarations.
use vstd::prelude::*;
use crate::ast::{Kind, Node, SpecNode, lemma_node_view, nodes_view};

verus! {

broadcast use vstd::seq_lib::group_seq_properties, vstd::std_specs::vec::group_vec_axioms;

/// What a transform does at the nodes that the walk reports to it. Each step
/// is a function of the state (the folder's view) and of the node.
pub trait Folder: View + Sized {
    /// An import declaration: what it becomes (it is not walked into).
    spec fn import_step(st: Self::V, decl: SpecNode) -> (Self::V, SpecNode);

    /// Entering a block.
    spec fn enter_step(st: Self::V) -> Self::V;

    /// Leaving a block.
    spec fn exit_step(st: Self::V) -> Self::V;

    /// A call whose children have been folded: what it becomes.
    spec fn call_step(st: Self::V, call: SpecNode) -> (Self::V, SpecNode);

    /// An assignment or a variable declaration whose children have been folded.
    spec fn binding_step(st: Self::V, node: SpecNode) -> Self::V;

    /// Whether the call step can go on with `call`: the inputs it leaves
    /// out are those on which the transform stops.
    spec fn call_ok(st: Self::V, call: SpecNode) -> bool;

    fn fold_import(&mut self, decl: Node) -> (r: Node)
        ensures
            (final(self)@, r@) == Self::import_step(old(self)@, decl@),
    ;

    fn enter_block(&mut self)
        ensures
            final(self)@ == Self::enter_step(old(self)@),
    ;

    fn exit_block(&mut self)
        ensures
            final(self)@ == Self::exit_step(old(self)@),
    ;

    fn fold_call(&mut self, call: Node) -> (r: Node)
        requires
            Self::call_ok(old(self)@, call@),
        ensures
            (final(self)@, r@) == Self::call_step(old(self)@, call@),
    ;

    fn see_binding(&mut self, node: &Node)
        ensures
            final(self)@ == Self::binding_step(old(self)@, node@),
    ;
}

/// `n` with other children.
pub open spec fn with_children(n: SpecNode, children: Seq<SpecNode>) -> SpecNode {
    SpecNode { kind: n.kind, text: n.text, ctxt: n.ctxt, span: n.span, children: children }
}

/// The state after folding `n`, and what `n` becomes.
pub open spec fn spec_fold_node<F: Folder>(st: F::V, n: SpecNode) -> (F::V, SpecNode)
    decreases n, 0nat,
{
    match n.kind {
        Kind::ImportDecl { .. } => F::import_step(st, n),
        Kind::Block => {
            let (s1, cs) = spec_fold_nodes::<F>(F::enter_step(st), n.children);
            (F::exit_step(s1), with_children(n, cs))
        },
        Kind::Call => {
            let (s1, cs) = spec_fold_nodes::<F>(st, n.children);
            F::call_step(s1, with_children(n, cs))
        },
        Kind::Assign { .. } | Kind::VarDecl(_) => {
            let (s1, cs) = spec_fold_nodes::<F>(st, n.children);
            let m = with_children(n, cs);
            (F::binding_step(s1, m), m)
        },
        _ => {
            let (s1, cs) = spec_fold_nodes::<F>(st, n.children);
            (s1, with_children(n, cs))
        },
    }
}

/// Folding a sequence of siblings from the first to the last.
pub open spec fn spec_fold_nodes<F: Folder>(st: F::V, s: Seq<SpecNode>) -> (F::V, Seq<SpecNode>)
    decreases s, s.len(),
{
    if s.len() == 0 {
        (st, seq![])
    } else {
        let (s1, init) = spec_fold_nodes::<F>(st, s.drop_last());
        let (s2, x) = spec_fold_node::<F>(s1, s.last());
        (s2, init.push(x))
    }
}


/// Whether every call that folding `n` from `st` reaches is one that the
/// call step can go on with.
pub open spec fn walk_ok<F: Folder>(st: F::V, n: SpecNode) -> bool
    decreases n, 0nat,
{
    match n.kind {
        Kind::ImportDecl { .. } => true,
        Kind::Block => walks_ok::<F>(F::enter_step(st), n.children),
        Kind::Call => {
            let (s1, cs) = spec_fold_nodes::<F>(st, n.children);
            walks_ok::<F>(st, n.children) && F::call_ok(s1, with_children(n, cs))
        },
        _ => walks_ok::<F>(st, n.children),
    }
}

/// [`walk_ok`] for siblings folded from the first to the last.
pub open spec fn walks_ok<F: Folder>(st: F::V, s: Seq<SpecNode>) -> bool
    decreases s, s.len(),
{
    s.len() == 0 || (walks_ok::<F>(st, s.drop_last()) && walk_ok::<F>(
        spec_fold_nodes::<F>(st, s.drop_last()).0,
        s.last(),
    ))
}

/// The sibling at `i` is reached from the state the ones before it leave.
pub proof fn lemma_walks_ok_at<F: Folder>(st: F::V, s: Seq<SpecNode>, i: int)
    requires
        walks_ok::<F>(st, s),
        0 <= i < s.len(),
    ensures
        walk_ok::<F>(spec_fold_nodes::<F>(st, s.take(i)).0, s[i]),
    decreases s.len(),
{
    if i == s.len() - 1 {
        assert(s.take(i) =~= s.drop_last());
    } else {
        lemma_walks_ok_at::<F>(st, s.drop_last(), i);
        assert(s.drop_last().take(i) =~= s.take(i));
    }
}

/// Whether the call step goes on with every call.
pub open spec fn admits_all<F: Folder>() -> bool {
    forall|st: F::V, c: SpecNode| #[trigger] F::call_ok(st, c)
}

/// A folder whose call step goes on with every call walks every tree.
pub proof fn lemma_walk_ok_all<F: Folder>(st: F::V, n: SpecNode)
    requires
        admits_all::<F>(),
    ensures
        walk_ok::<F>(st, n),
    decreases n, 0nat,
{
    match n.kind {
        Kind::Block => lemma_walks_ok_all::<F>(F::enter_step(st), n.children),
        Kind::Call => {
            lemma_walks_ok_all::<F>(st, n.children);
            let (s1, cs) = spec_fold_nodes::<F>(st, n.children);
            assert(F::call_ok(s1, with_children(n, cs)));
        },
        _ => lemma_walks_ok_all::<F>(st, n.children),
    }
}

pub proof fn lemma_walks_ok_all<F: Folder>(st: F::V, s: Seq<SpecNode>)
    requires
        admits_all::<F>(),
    ensures
        walks_ok::<F>(st, s),
    decreases s, s.len(),
{
    if s.len() > 0 {
        lemma_walks_ok_all::<F>(st, s.drop_last());
        lemma_walk_ok_all::<F>(spec_fold_nodes::<F>(st, s.drop_last()).0, s.last());
    }
}

/// Folds the children of a node, in order.
pub fn fold_children<F: Folder>(f: &mut F, v: Vec<Node>) -> (r: Vec<Node>)
    requires
        walks_ok::<F>(old(f)@, nodes_view(v@)),
    ensures
        (final(f)@, nodes_view(r@)) == spec_fold_nodes::<F>(old(f)@, nodes_view(v@)),
    decreases v,
{
    let ghost v0 = v;
    let ghost st0 = f@;
    let mut rest = v;
    let mut out: Vec<Node> = Vec::new();
    let mut i: usize = 0;
    let n = rest.len();
    proof {
        assert(nodes_view(v0@).take(0) =~= seq![]);
    }
    while i < n
        invariant
            n == v0.len(),
            v0 == v,
            i <= n,
            rest@ == v0@.skip(i as int),
            (f@, nodes_view(out@)) == spec_fold_nodes::<F>(st0, nodes_view(v0@).take(i as int)),
            walks_ok::<F>(st0, nodes_view(v0@)),
        decreases n - i,
    {
        let x = rest.remove(0);
        proof {
            assert(x == v0[i as int]);
            lemma_walks_ok_at::<F>(st0, nodes_view(v0@), i as int);
            assert(decreases_to!(v0 => v0[i as int]));
            assert(nodes_view(v0@).take(i + 1).drop_last() =~= nodes_view(v0@).take(i as int));
            assert(nodes_view(v0@).take(i + 1).last() == x@);
            assert(rest@ =~= v0@.skip(i + 1));
        }
        let y = fold_node(f, x);
        let ghost out0 = out@;
        out.push(y);
        proof {
            assert(nodes_view(out@) =~= nodes_view(out0).push(y@));
        }
        i = i + 1;
    }
    proof {
        assert(nodes_view(v0@).take(n as int) =~= nodes_view(v0@));
    }
    out
}

/// Folds `n` and everything below it.
pub fn fold_node<F: Folder>(f: &mut F, n: Node) -> (r: Node)
    requires
        walk_ok::<F>(old(f)@, n@),
    ensures
        (final(f)@, r@) == spec_fold_node::<F>(old(f)@, n@),
    decreases n,
{
    proof {
        lemma_node_view(n);
    }
    match n.kind {
        Kind::ImportDecl { .. } => f.fold_import(n),
        _ => {
            let Node { kind, text, ctxt, span, children } = n;
            let is_block = match kind {
                Kind::Block => true,
                _ => false,
            };
            if is_block {
                f.enter_block();
            }
            let cs = fold_children(f, children);
            if is_block {
                f.exit_block();
            }
            let m = Node { kind, text, ctxt, span, children: cs };
            proof {
                lemma_node_view(m);
            }
            match kind {
                Kind::Call => f.fold_call(m),
                Kind::Assign { .. } | Kind::VarDecl(_) => {
                    f.see_binding(&m);
                    m
                },
                _ => m,
            }
        },
    }
}

/// Whether a folder only looks: its import and call steps give back the
/// node they are given.
pub open spec fn only_looks<F: Folder>() -> bool {
    &&& forall|st: F::V, n: SpecNode| (#[trigger] F::import_step(st, n)).1 == n
    &&& forall|st: F::V, n: SpecNode| (#[trigger] F::call_step(st, n)).1 == n
}

/// A folder that only looks gives back the tree it walks.
pub proof fn lemma_fold_keeps_tree<F: Folder>(st: F::V, n: SpecNode)
    requires
        only_looks::<F>(),
    ensures
        spec_fold_node::<F>(st, n).1 == n,
    decreases n, 0nat,
{
    match n.kind {
        Kind::ImportDecl { .. } => {
            assert(F::import_step(st, n).1 == n);
        },
        Kind::Block => {
            lemma_folds_keep_trees::<F>(F::enter_step(st), n.children);
        },
        Kind::Call => {
            lemma_folds_keep_trees::<F>(st, n.children);
            let (s1, cs) = spec_fold_nodes::<F>(st, n.children);
            assert(F::call_step(s1, with_children(n, cs)).1 == with_children(n, cs));
        },
        _ => {
            lemma_folds_keep_trees::<F>(st, n.children);
        },
    }
}

pub proof fn lemma_folds_keep_trees<F: Folder>(st: F::V, s: Seq<SpecNode>)
    requires
        only_looks::<F>(),
    ensures
        spec_fold_nodes::<F>(st, s).1 == s,
    decreases s, s.len(),
{
    if s.len() > 0 {
        lemma_folds_keep_trees::<F>(st, s.drop_last());
        let s1 = spec_fold_nodes::<F>(st, s.drop_last()).0;
        lemma_fold_keeps_tree::<F>(s1, s.last());
        assert(s.drop_last().push(s.last()) =~= s);
    }
}

/// Folding siblings keeps their number.
pub proof fn lemma_folds_len<F: Folder>(st: F::V, s: Seq<SpecNode>)
    ensures
        spec_fold_nodes::<F>(st, s).1.len() == s.len(),
    decreases s.len(),
{
    if s.len() > 0 {
        lemma_folds_len::<F>(st, s.drop_last());
    }
}

/// Folding `a + b` folds `a`, then `b` from where `a` left the state.
pub proof fn lemma_folds_concat<F: Folder>(st: F::V, a: Seq<SpecNode>, b: Seq<SpecNode>)
    ensures
        ({
            let (s1, a1) = spec_fold_nodes::<F>(st, a);
            let (s2, b1) = spec_fold_nodes::<F>(s1, b);
            spec_fold_nodes::<F>(st, a + b) == (s2, a1 + b1)
        }),
    decreases b.len(),
{
    if b.len() == 0 {
        assert(a + b =~= a);
        assert(spec_fold_nodes::<F>(st, a).1 + seq![] =~= spec_fold_nodes::<F>(st, a).1);
    } else {
        lemma_folds_concat::<F>(st, a, b.drop_last());
        assert((a + b).drop_last() =~= a + b.drop_last());
        assert((a + b).last() == b.last());
        let (s1, a1) = spec_fold_nodes::<F>(st, a);
        let (s2, b1) = spec_fold_nodes::<F>(s1, b.drop_last());
        let (s3, x) = spec_fold_node::<F>(s2, b.last());
        assert((a1 + b1).push(x) =~= a1 + b1.push(x));
    }
}

} // verus!
