//! A walk that visits imports and calls and changes nothing.
use vstd::prelude::*;
use crate::ast::{Node, SpecNode};
use crate::fold::{Folder, fold_node, spec_fold_node, only_looks, lemma_fold_keeps_tree};

verus! {

/// The transform; it has no state.
#[derive(Debug)]
pub struct WebWorkerTransform {}

impl View for WebWorkerTransform {
    type V = ();

    open spec fn view(&self) -> () {
        ()
    }
}

impl WebWorkerTransform {
    pub fn with_defaults() -> (r: WebWorkerTransform)
        ensures
            r@ == (),
    {
        WebWorkerTransform {}
    }

    /// Walks a module; the module comes back as it was.
    pub fn fold_module(&mut self, module: Node) -> (r: Node)
        ensures
            r@ == module@,
    {
        let ghost m0 = module@;
        proof {
            assert(crate::fold::admits_all::<WebWorkerTransform>());
            crate::fold::lemma_walk_ok_all::<WebWorkerTransform>((), m0);
        }
        let r = fold_node(self, module);
        proof {
            law_webworker_transform_identity(m0);
        }
        r
    }
}

impl Folder for WebWorkerTransform {
    open spec fn import_step(st: (), decl: SpecNode) -> ((), SpecNode) {
        (st, decl)
    }

    open spec fn enter_step(st: ()) -> () {
        st
    }

    open spec fn exit_step(st: ()) -> () {
        st
    }

    open spec fn call_step(st: (), call: SpecNode) -> ((), SpecNode) {
        (st, call)
    }

    open spec fn binding_step(st: (), node: SpecNode) -> () {
        st
    }

    open spec fn call_ok(st: (), call: SpecNode) -> bool {
        true
    }

    fn fold_import(&mut self, decl: Node) -> (r: Node) {
        decl
    }

    fn enter_block(&mut self) {
    }

    fn exit_block(&mut self) {
    }

    fn fold_call(&mut self, call: Node) -> (r: Node) {
        call
    }

    fn see_binding(&mut self, node: &Node) {
    }
}

/// The transform leaves every tree as it was.
pub proof fn law_webworker_transform_identity(n: SpecNode)
    ensures
        spec_fold_node::<WebWorkerTransform>((), n).1 == n,
{
    assert(only_looks::<WebWorkerTransform>());
    lemma_fold_keeps_tree::<WebWorkerTransform>((), n);
}

} // verus!
