//! Snapshot and isolation layer of an in-memory, copy-on-write,
//! versioned key-value trie.
//!
//! A [`art::Tree`] owns the base root and the global timestamp counter and
//! registers snapshots. A [`snapshot::Snapshot`] captures the tree's root and
//! timestamp at creation and from then on is an independent, timestamp-bounded
//! view: its own writes rebind only its own root, so sibling snapshots and the
//! base tree never observe them. An [`iter::IterationPointer`] is a reader
//! pinned to the node graph current at its issuance; a snapshot cannot close
//! while readers issued by it are still open.
use vstd::prelude::*;
use vstd::string::StringSliceAdditionalSpecFns;

pub mod art;
pub mod iter;
pub mod laws;
pub mod node;
pub mod registry;
pub mod snapshot;

verus! {

/// Keys of the trie. A key is abstracted by the byte sequence `key_view`;
/// all visibility and isolation contracts are stated over that sequence.
pub trait KeyTrait: Sized {
    /// The byte sequence this key stands for.
    spec fn key_view(&self) -> Seq<u8>;

    /// Decides equality of the byte sequences of two keys.
    fn key_eq(&self, other: &Self) -> (r: bool)
        ensures
            r == (self.key_view() == other.key_view()),
    ;

    /// Produces an owned key with the same byte sequence.
    fn clone_key(&self) -> (r: Self)
        ensures
            r.key_view() == self.key_view(),
    ;
}

/// A key that is a plain byte vector.
pub struct VectorKey {
    data: Vec<u8>,
}

impl VectorKey {
    /// Builds a key from the bytes of a string.
    pub fn from_str(s: &str) -> (r: Self)
        ensures
            r.key_view() == s.spec_bytes(),
    {
        VectorKey { data: vstd::slice::slice_to_vec(s.as_bytes()) }
    }

    /// Builds a key from a byte slice.
    pub fn from_slice(bytes: &[u8]) -> (r: Self)
        ensures
            r.key_view() == bytes@,
    {
        VectorKey { data: vstd::slice::slice_to_vec(bytes) }
    }
}

impl KeyTrait for VectorKey {
    closed spec fn key_view(&self) -> Seq<u8> {
        self.data@
    }

    fn key_eq(&self, other: &Self) -> (r: bool) {
        if self.data.len() != other.data.len() {
            return false;
        }
        let n = self.data.len();
        let mut i: usize = 0;
        while i < n
            invariant
                0 <= i <= n,
                n == self.data@.len() == other.data@.len(),
                forall|j: int| 0 <= j < i ==> self.data@[j] == other.data@[j],
            decreases n - i,
        {
            if self.data[i] != other.data[i] {
                return false;
            }
            i = i + 1;
        }
        proof {
            assert(self.data@ =~= other.data@);
        }
        true
    }

    fn clone_key(&self) -> (r: Self) {
        VectorKey { data: vstd::slice::slice_to_vec(self.data.as_slice()) }
    }
}

} // verus!
