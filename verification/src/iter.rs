//! Readers pinned to a point-in-time node graph.
use vstd::prelude::*;

use std::rc::Rc;

use crate::KeyTrait;
use crate::node::Node;

verus! {

/// A reader bound at construction to one root node. The bound graph is
/// immutable and the pointer holds a share of its ownership, so the view
/// neither advances nor regresses, whatever the owning snapshot does
/// afterwards.
pub struct IterationPointer<P: KeyTrait, V: Copy> {
    root: Rc<Node<P, V>>,
    id: u64,
}

impl<P: KeyTrait, V: Copy> IterationPointer<P, V> {
    /// The map this reader is bound to: the owning snapshot's map at issuance.
    pub closed spec fn map_view(self) -> Map<Seq<u8>, (V, u64)> {
        (*self.root).map_view()
    }

    /// The reader id the owning snapshot assigned.
    pub closed spec fn spec_id(self) -> u64 {
        self.id
    }

    pub closed spec fn wf(self) -> bool {
        (*self.root).wf()
    }

    /// Binds a reader to `root`, under the id the owning snapshot assigned.
    pub(crate) fn new(root: Rc<Node<P, V>>, id: u64) -> (r: Self)
        requires
            (*root).wf(),
        ensures
            r.wf(),
            r.map_view() == (*root).map_view(),
            r.spec_id() == id,
    {
        IterationPointer { root, id }
    }

    /// The reader id the owning snapshot assigned.
    pub fn id(&self) -> (r: u64)
        ensures
            r == self.spec_id(),
    {
        self.id
    }

    /// One traversal of the bound graph: a finite sequence holding, for each
    /// key of the bound map, exactly one `(key, value, commit timestamp)`
    /// triple agreeing with that map. Each call walks the same immutable
    /// graph afresh, so the enumeration is restartable and never sees writes
    /// made after the reader was issued.
    pub fn iter(&self) -> (r: Vec<(P, V, u64)>)
        requires
            self.wf(),
        ensures
            forall|j: int|
                0 <= j < r@.len() ==> self.map_view().contains_key(#[trigger] r@[j].0.key_view())
                    && self.map_view()[r@[j].0.key_view()] == (r@[j].1, r@[j].2),
            forall|k: Seq<u8>|
                self.map_view().contains_key(k) ==> exists|j: int|
                    0 <= j < r@.len() && #[trigger] r@[j].0.key_view() == k,
            forall|a: int, b: int|
                0 <= a < b < r@.len() ==> r@[a].0.key_view() != r@[b].0.key_view(),
    {
        (*self.root).all_entries()
    }
}

} // verus!
