//! Snapshots: isolated, timestamp-bounded views of the trie.
//!
//! A snapshot captures the tree's root and timestamp at creation. From then on
//! it is an independent timeline: every successful `insert` commits at the
//! snapshot's own next timestamp and rebinds only the snapshot's root — the
//! prior root stays reachable, unmodified, through every previously issued
//! reader and through the tree — and a `get` is bounded by a requested
//! timestamp. A snapshot issues readers pinned to its current root and cannot
//! close while any of them is still open.
use vstd::prelude::*;

use std::rc::Rc;

use crate::KeyTrait;
use crate::art::TrieError;
use crate::iter::IterationPointer;
use crate::node::Node;
use crate::registry::IdRegistry;

verus! {

/// An isolated, timestamp-bounded view of the trie that accepts its own
/// writes without affecting any other view.
pub struct Snapshot<P: KeyTrait, V: Copy> {
    id: u64,
    ts: u64,
    root: Rc<Node<P, V>>,
    readers: IdRegistry,
    closed: bool,
}

impl<P: KeyTrait, V: Copy> Snapshot<P, V> {
    /// The snapshot's map from key bytes to the latest (value, commit
    /// timestamp) pair visible through it.
    pub closed spec fn map_view(self) -> Map<Seq<u8>, (V, u64)> {
        (*self.root).map_view()
    }

    /// The snapshot's own "now": the timestamp recorded on its current root,
    /// advanced by exactly one per successful insert.
    pub closed spec fn spec_ts(self) -> u64 {
        self.ts
    }

    /// The identity the tree assigned at creation.
    pub closed spec fn spec_id(self) -> u64 {
        self.id
    }

    /// Whether the snapshot has been closed; closing is irreversible.
    pub closed spec fn spec_closed(self) -> bool {
        self.closed
    }

    /// The ids of the active readers: issued and not yet closed, in order of
    /// issuance.
    pub closed spec fn readers_view(self) -> Seq<u64> {
        self.readers.ids_view()
    }

    /// How many reader ids were ever issued; also the id the next reader
    /// gets.
    pub closed spec fn issued_readers(self) -> u64 {
        self.readers.next_id()
    }

    pub closed spec fn wf(self) -> bool {
        &&& (*self.root).wf()
        &&& self.ts == (*self.root).spec_ts()
        &&& self.readers.wf()
    }

    /// Every commit timestamp visible through the snapshot is at or below the
    /// snapshot's own timestamp, so a `get` at `spec_ts()` sees every write
    /// made through it.
    pub proof fn lemma_commits_bounded(self)
        requires
            self.wf(),
        ensures
            forall|k: Seq<u8>|
                self.map_view().contains_key(k) ==> #[trigger] self.map_view()[k].1
                    <= self.spec_ts(),
    {
        (*self.root).lemma_commits_bounded();
    }

    /// The active reader ids are strictly increasing in order of issuance —
    /// so pairwise distinct — and all below the issued count: a reader id,
    /// once closed, is never reused within the snapshot's lifetime.
    pub proof fn lemma_reader_ids(self)
        requires
            self.wf(),
        ensures
            crate::registry::strictly_increasing(self.readers_view()),
            forall|a: int|
                0 <= a < self.readers_view().len() ==> self.readers_view()[a]
                    < self.issued_readers(),
    {
        self.readers.lemma_live_ids();
    }

    /// Seeds a snapshot with the identity, root and timestamp the tree
    /// captured for it.
    pub(crate) fn new(id: u64, root: Rc<Node<P, V>>, ts: u64) -> (r: Self)
        requires
            (*root).wf(),
            ts == (*root).spec_ts(),
        ensures
            r.wf(),
            r.spec_id() == id,
            r.spec_ts() == ts,
            r.map_view() == (*root).map_view(),
            !r.spec_closed(),
            r.readers_view() == Seq::<u64>::empty(),
            r.issued_readers() == 0,
    {
        Snapshot { id, ts, root, readers: IdRegistry::empty(), closed: false }
    }

    /// The identity the tree assigned at creation.
    pub fn id(&self) -> (r: u64)
        ensures
            r == self.spec_id(),
    {
        self.id
    }

    /// Rejects every operation on a closed snapshot.
    fn is_closed(&self) -> (r: Result<(), TrieError>)
        ensures
            !self.spec_closed() ==> r == Ok::<(), TrieError>(()),
            self.spec_closed() ==> r == Err::<(), TrieError>(TrieError::SnapshotAlreadyClosed),
    {
        if self.closed {
            Err(TrieError::SnapshotAlreadyClosed)
        } else {
            Ok(())
        }
    }

    /// Writes `key := value` through the snapshot, committing at the
    /// snapshot's next timestamp. The write is all-or-nothing: it either
    /// fully rebinds the snapshot's root to a copy-on-write successor or, on
    /// a closed snapshot, leaves everything untouched. No other view observes
    /// it.
    pub fn insert(&mut self, key: &P, value: V) -> (r: Result<(), TrieError>)
        requires
            old(self).wf(),
            old(self).spec_ts() < u64::MAX,
        ensures
            final(self).wf(),
            old(self).spec_closed() ==> {
                &&& r == Err::<(), TrieError>(TrieError::SnapshotAlreadyClosed)
                &&& *final(self) == *old(self)
            },
            !old(self).spec_closed() ==> {
                &&& r == Ok::<(), TrieError>(())
                &&& (final(self).map_view(), final(self).spec_ts())
                    == crate::laws::insert_step(
                    old(self).map_view(),
                    old(self).spec_ts(),
                    key.key_view(),
                    value,
                )
            },
            final(self).spec_id() == old(self).spec_id(),
            final(self).spec_closed() == old(self).spec_closed(),
            final(self).readers_view() == old(self).readers_view(),
            final(self).issued_readers() == old(self).issued_readers(),
    {
        match self.is_closed() {
            Err(e) => Err(e),
            Ok(_) => {
                let commit = self.ts + 1;
                let new_root = self.root.cow_insert(key, value, commit);
                self.root = Rc::new(new_root);
                self.ts = commit;
                Ok(())
            },
        }
    }

    /// Reads the latest version of `key` whose commit timestamp is at or
    /// below `ts`, through this snapshot's current root. Fails with
    /// `KeyNotFound` exactly when no such version is reachable from it.
    pub fn get(&self, key: &P, ts: u64) -> (r: Result<(V, u64), TrieError>)
        requires
            self.wf(),
        ensures
            self.spec_closed() ==> r == Err::<(V, u64), TrieError>(TrieError::SnapshotAlreadyClosed),
            !self.spec_closed() && self.map_view().contains_key(key.key_view())
                && self.map_view()[key.key_view()].1 <= ts ==> r == Ok::<(V, u64), TrieError>(
                (self.map_view()[key.key_view()].0, self.map_view()[key.key_view()].1),
            ),
            !self.spec_closed() && !(self.map_view().contains_key(key.key_view())
                && self.map_view()[key.key_view()].1 <= ts) ==> r == Err::<(V, u64), TrieError>(
                TrieError::KeyNotFound,
            ),
    {
        match self.is_closed() {
            Err(e) => Err(e),
            Ok(_) => match self.root.lookup(key, ts) {
                Some(found) => Ok(found),
                None => Err(TrieError::KeyNotFound),
            },
        }
    }

    /// The timestamp recorded on the snapshot's current root: the value to
    /// pass to a `get` that should observe everything written so far through
    /// this snapshot.
    pub fn ts(&self) -> (r: u64)
        requires
            self.wf(),
        ensures
            r == self.spec_ts(),
    {
        self.root.ts()
    }

    /// Closes the snapshot, irreversibly. Fails with
    /// `SnapshotReadersNotClosed` exactly while the active-reader count is
    /// nonzero; succeeds as soon as it reaches zero.
    pub fn close(&mut self) -> (r: Result<(), TrieError>)
        requires
            old(self).wf(),
        ensures
            final(self).wf(),
            old(self).spec_closed() ==> {
                &&& r == Err::<(), TrieError>(TrieError::SnapshotAlreadyClosed)
                &&& *final(self) == *old(self)
            },
            !old(self).spec_closed() && old(self).readers_view().len() > 0 ==> {
                &&& r == Err::<(), TrieError>(TrieError::SnapshotReadersNotClosed)
                &&& *final(self) == *old(self)
            },
            !old(self).spec_closed() && old(self).readers_view().len() == 0 ==> {
                &&& r == Ok::<(), TrieError>(())
                &&& final(self).spec_closed()
            },
            final(self).map_view() == old(self).map_view(),
            final(self).spec_ts() == old(self).spec_ts(),
            final(self).spec_id() == old(self).spec_id(),
            final(self).readers_view() == old(self).readers_view(),
            final(self).issued_readers() == old(self).issued_readers(),
    {
        match self.is_closed() {
            Err(e) => Err(e),
            Ok(_) => {
                if self.readers.count() > 0 {
                    return Err(TrieError::SnapshotReadersNotClosed);
                }
                self.closed = true;
                Ok(())
            },
        }
    }

    /// Issues a reader: allocates the next strictly increasing reader id
    /// (starting at zero), marks it active, and binds an IterationPointer to
    /// the snapshot's current root. The reader's view is pinned there for its
    /// lifetime.
    pub fn new_reader(&mut self) -> (r: Result<IterationPointer<P, V>, TrieError>)
        requires
            old(self).wf(),
            old(self).issued_readers() < u64::MAX,
        ensures
            final(self).wf(),
            old(self).spec_closed() ==> {
                &&& r == Err::<IterationPointer<P, V>, TrieError>(TrieError::SnapshotAlreadyClosed)
                &&& *final(self) == *old(self)
            },
            !old(self).spec_closed() ==> {
                &&& r is Ok
                &&& r->Ok_0.wf()
                &&& r->Ok_0.spec_id() == old(self).issued_readers()
                &&& r->Ok_0.map_view() == old(self).map_view()
                &&& (final(self).issued_readers(), final(self).readers_view())
                    == crate::laws::issue_step(
                    old(self).issued_readers(),
                    old(self).readers_view(),
                )
            },
            final(self).map_view() == old(self).map_view(),
            final(self).spec_ts() == old(self).spec_ts(),
            final(self).spec_id() == old(self).spec_id(),
            final(self).spec_closed() == old(self).spec_closed(),
    {
        match self.is_closed() {
            Err(e) => Err(e),
            Ok(_) => {
                let reader_id = self.readers.issue();
                Ok(IterationPointer::new(Rc::clone(&self.root), reader_id))
            },
        }
    }

    /// How many readers are active: issued and not yet closed.
    pub fn active_readers(&self) -> (r: Result<u64, TrieError>)
        requires
            self.wf(),
        ensures
            self.spec_closed() ==> r == Err::<u64, TrieError>(TrieError::SnapshotAlreadyClosed),
            !self.spec_closed() ==> r == Ok::<u64, TrieError>(self.readers_view().len() as u64),
    {
        match self.is_closed() {
            Err(e) => Err(e),
            Ok(_) => Ok(self.readers.count() as u64),
        }
    }

    /// Revokes the reader with the given id: removes it from the active set.
    /// Fails with `ReaderNotFound` exactly when the id is not active — never
    /// issued, or already closed.
    pub fn close_reader(&mut self, reader_id: u64) -> (r: Result<(), TrieError>)
        requires
            old(self).wf(),
        ensures
            final(self).wf(),
            old(self).spec_closed() ==> {
                &&& r == Err::<(), TrieError>(TrieError::SnapshotAlreadyClosed)
                &&& *final(self) == *old(self)
            },
            !old(self).spec_closed() ==> {
                &&& r == if old(self).readers_view().contains(reader_id) {
                    Ok::<(), TrieError>(())
                } else {
                    Err::<(), TrieError>(TrieError::ReaderNotFound)
                }
                &&& (final(self).issued_readers(), final(self).readers_view())
                    == crate::laws::close_step(
                    old(self).issued_readers(),
                    old(self).readers_view(),
                    reader_id,
                )
            },
            final(self).map_view() == old(self).map_view(),
            final(self).spec_ts() == old(self).spec_ts(),
            final(self).spec_id() == old(self).spec_id(),
            final(self).spec_closed() == old(self).spec_closed(),
    {
        match self.is_closed() {
            Err(e) => Err(e),
            Ok(_) => {
                if self.readers.remove(reader_id) {
                    Ok(())
                } else {
                    Err(TrieError::ReaderNotFound)
                }
            },
        }
    }
}

} // verus!
