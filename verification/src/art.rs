//! The tree: base root, global timestamp counter and snapshot registry.
use vstd::prelude::*;

use std::rc::Rc;

use crate::KeyTrait;
use crate::node::Node;
use crate::registry::IdRegistry;
use crate::snapshot::Snapshot;

verus! {

/// Every failure an operation of this crate reports.
#[derive(Debug, Clone, Copy, PartialEq, Eq, Structural)]
pub enum TrieError {
    /// An operation was attempted on a snapshot that was already closed.
    SnapshotAlreadyClosed,
    /// `close` was attempted while the snapshot still had active readers.
    SnapshotReadersNotClosed,
    /// A bounded lookup found no version of the key with a commit timestamp
    /// at or below the requested timestamp.
    KeyNotFound,
    /// `close_reader` named an id that was never issued or was already closed.
    ReaderNotFound,
    /// `close_snapshot` named an id that is not registered as open.
    SnapshotNotFound,
    /// A write named a nonzero timestamp below the tree's current one.
    TimestampTooOld,
}

/// The commit timestamp a tree write uses: the caller's `ts`, or the next
/// timestamp when the caller passes zero to let the tree assign it.
pub open spec fn commit_ts_for(cur: u64, ts: u64) -> u64
    recommends
        ts == 0 ==> cur < u64::MAX,
{
    if ts == 0 {
        (cur + 1) as u64
    } else {
        ts
    }
}

/// The base store: owns the current root and the global timestamp counter,
/// and registers the snapshots created from it that are still open.
pub struct Tree<P: KeyTrait, V: Copy> {
    root: Rc<Node<P, V>>,
    ts: u64,
    snapshots: IdRegistry,
}

impl<P: KeyTrait, V: Copy> Tree<P, V> {
    /// The map from key bytes to the latest (value, commit timestamp) pair in
    /// the base store.
    pub closed spec fn map_view(self) -> Map<Seq<u8>, (V, u64)> {
        (*self.root).map_view()
    }

    /// The tree's current timestamp: that of the most recent write.
    pub closed spec fn spec_ts(self) -> u64 {
        self.ts
    }

    /// The ids of the snapshots registered as open, in order of creation.
    pub closed spec fn snapshots_view(self) -> Seq<u64> {
        self.snapshots.ids_view()
    }

    /// The id the next snapshot will get.
    pub closed spec fn next_snapshot_id(self) -> u64 {
        self.snapshots.next_id()
    }

    pub closed spec fn wf(self) -> bool {
        &&& (*self.root).wf()
        &&& self.ts == (*self.root).spec_ts()
        &&& self.snapshots.wf()
    }

    /// The open snapshot ids are strictly increasing in order of creation —
    /// so unique among the currently open snapshots — and all below the next
    /// id: a snapshot id is never reused while its snapshot is registered.
    pub proof fn lemma_snapshot_ids(self)
        requires
            self.wf(),
        ensures
            crate::registry::strictly_increasing(self.snapshots_view()),
            forall|a: int|
                0 <= a < self.snapshots_view().len() ==> self.snapshots_view()[a]
                    < self.next_snapshot_id(),
    {
        self.snapshots.lemma_live_ids();
    }

    /// An empty tree at timestamp zero, with no snapshots.
    pub fn new() -> (r: Self)
        ensures
            r.wf(),
            r.map_view() == Map::<Seq<u8>, (V, u64)>::empty(),
            r.spec_ts() == 0,
            r.snapshots_view() == Seq::<u64>::empty(),
            r.next_snapshot_id() == 0,
    {
        Tree { root: Rc::new(Node::empty()), ts: 0, snapshots: IdRegistry::empty() }
    }

    /// The tree's current timestamp.
    pub fn ts(&self) -> (r: u64)
        ensures
            r == self.spec_ts(),
    {
        self.ts
    }

    /// Writes `key := value` into the base store at timestamp `ts`, or at the
    /// next timestamp when `ts` is zero. The write replaces the root by a new
    /// one built off to the side; roots previously handed to snapshots are
    /// untouched, so no snapshot observes it.
    pub fn insert(&mut self, key: &P, value: V, ts: u64) -> (r: Result<(), TrieError>)
        requires
            old(self).wf(),
            ts == 0 ==> old(self).spec_ts() < u64::MAX,
        ensures
            final(self).wf(),
            ts == 0 || ts >= old(self).spec_ts() ==> {
                &&& r == Ok::<(), TrieError>(())
                &&& final(self).map_view() == old(self).map_view().insert(
                    key.key_view(),
                    (value, commit_ts_for(old(self).spec_ts(), ts)),
                )
                &&& final(self).spec_ts() == commit_ts_for(old(self).spec_ts(), ts)
            },
            ts != 0 && ts < old(self).spec_ts() ==> {
                &&& r == Err::<(), TrieError>(TrieError::TimestampTooOld)
                &&& *final(self) == *old(self)
            },
            final(self).snapshots_view() == old(self).snapshots_view(),
            final(self).next_snapshot_id() == old(self).next_snapshot_id(),
    {
        let commit: u64 = if ts == 0 {
            self.ts + 1
        } else {
            if ts < self.ts {
                return Err(TrieError::TimestampTooOld);
            }
            ts
        };
        let new_root = self.root.cow_insert(key, value, commit);
        self.root = Rc::new(new_root);
        self.ts = commit;
        Ok(())
    }

    /// Reads the latest version of `key` visible at or below `ts` from the
    /// base store.
    pub fn get(&self, key: &P, ts: u64) -> (r: Result<(V, u64), TrieError>)
        requires
            self.wf(),
        ensures
            self.map_view().contains_key(key.key_view()) && self.map_view()[key.key_view()].1 <= ts
                ==> r == Ok::<(V, u64), TrieError>(
                (self.map_view()[key.key_view()].0, self.map_view()[key.key_view()].1),
            ),
            !(self.map_view().contains_key(key.key_view()) && self.map_view()[key.key_view()].1
                <= ts) ==> r == Err::<(V, u64), TrieError>(TrieError::KeyNotFound),
    {
        match self.root.lookup(key, ts) {
            Some(found) => Ok(found),
            None => Err(TrieError::KeyNotFound),
        }
    }

    /// Creates a snapshot: allocates the next snapshot id, seeds the snapshot
    /// with the tree's current root and timestamp, and registers the id as
    /// open. The snapshot starts with the tree's exact current view, no
    /// readers, and open.
    pub fn create_snapshot(&mut self) -> (r: Result<Snapshot<P, V>, TrieError>)
        requires
            old(self).wf(),
            old(self).next_snapshot_id() < u64::MAX,
        ensures
            final(self).wf(),
            r is Ok,
            ({
                let snap = r->Ok_0;
                &&& snap.wf()
                &&& snap.spec_id() == old(self).next_snapshot_id()
                &&& snap.map_view() == old(self).map_view()
                &&& snap.spec_ts() == old(self).spec_ts()
                &&& !snap.spec_closed()
                &&& snap.readers_view() == Seq::<u64>::empty()
                &&& snap.issued_readers() == 0
            }),
            final(self).map_view() == old(self).map_view(),
            final(self).spec_ts() == old(self).spec_ts(),
            final(self).snapshots_view() == old(self).snapshots_view().push(
                old(self).next_snapshot_id(),
            ),
            final(self).next_snapshot_id() == old(self).next_snapshot_id() + 1,
    {
        let id = self.snapshots.issue();
        Ok(Snapshot::new(id, Rc::clone(&self.root), self.ts))
    }

    /// How many snapshots are registered as open.
    pub fn snapshot_count(&self) -> (r: usize)
        ensures
            r == self.snapshots_view().len(),
    {
        self.snapshots.count()
    }

    /// Deregisters a snapshot id. To keep the registry aligned with the
    /// snapshot's own state, call this only after the snapshot's `close()`
    /// succeeded.
    pub fn close_snapshot(&mut self, id: u64) -> (r: Result<(), TrieError>)
        requires
            old(self).wf(),
        ensures
            final(self).wf(),
            old(self).snapshots_view().contains(id) ==> {
                &&& r == Ok::<(), TrieError>(())
                &&& final(self).snapshots_view() == old(self).snapshots_view().remove(
                    old(self).snapshots_view().index_of(id),
                )
                &&& final(self).next_snapshot_id() == old(self).next_snapshot_id()
            },
            !old(self).snapshots_view().contains(id) ==> {
                &&& r == Err::<(), TrieError>(TrieError::SnapshotNotFound)
                &&& *final(self) == *old(self)
            },
            final(self).map_view() == old(self).map_view(),
            final(self).spec_ts() == old(self).spec_ts(),
    {
        if self.snapshots.remove(id) {
            Ok(())
        } else {
            Err(TrieError::SnapshotNotFound)
        }
    }
}

} // verus!
