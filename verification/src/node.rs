//! Immutable trie nodes with copy-on-write updates.
//!
//! A [`Node`] is never mutated after construction: an insert builds a new node
//! off to the side and leaves every node reachable from the old root intact,
//! so any holder of an old root keeps its exact pre-write view. A node is
//! abstracted by `map_view`, the finite map from key bytes to the latest
//! `(value, commit timestamp)` written for that key, and by `spec_ts`, the
//! timestamp recorded on the node.
use vstd::prelude::*;

use crate::KeyTrait;

verus! {

/// One key's latest version: the key, its value and its commit timestamp.
pub(crate) struct Entry<P: KeyTrait, V: Copy> {
    pub(crate) key: P,
    pub(crate) value: V,
    pub(crate) ts: u64,
}

/// An immutable node: the set of entries reachable from one root, together
/// with the timestamp of the most recent write recorded in it.
pub struct Node<P: KeyTrait, V: Copy> {
    pub(crate) entries: Vec<Entry<P, V>>,
    pub(crate) ts: u64,
}

/// The map a sequence of entries stands for; a later entry for the same key
/// bytes overrides an earlier one.
pub(crate) open spec fn entries_map<P: KeyTrait, V: Copy>(s: Seq<Entry<P, V>>) -> Map<
    Seq<u8>,
    (V, u64),
>
    decreases s.len(),
{
    if s.len() == 0 {
        Map::empty()
    } else {
        entries_map(s.drop_last()).insert(
            s.last().key.key_view(),
            (s.last().value, s.last().ts),
        )
    }
}

/// No two entries carry the same key bytes.
pub(crate) open spec fn unique_keys<P: KeyTrait, V: Copy>(s: Seq<Entry<P, V>>) -> bool {
    forall|a: int, b: int|
        0 <= a < b < s.len() ==> s[a].key.key_view() != s[b].key.key_view()
}

/// Every entry of a sequence has its key bytes in the sequence's map.
pub(crate) proof fn lemma_entry_in_map<P: KeyTrait, V: Copy>(s: Seq<Entry<P, V>>, a: int)
    requires
        0 <= a < s.len(),
    ensures
        entries_map(s).contains_key(s[a].key.key_view()),
    decreases s.len(),
{
    if a < s.len() - 1 {
        lemma_entry_in_map(s.drop_last(), a);
    }
}

/// Every key of a sequence's map is carried by some entry of the sequence.
pub(crate) proof fn lemma_map_key_has_entry<P: KeyTrait, V: Copy>(s: Seq<Entry<P, V>>, k: Seq<u8>)
    requires
        entries_map(s).contains_key(k),
    ensures
        exists|a: int| 0 <= a < s.len() && s[a].key.key_view() == k,
    decreases s.len(),
{
    if s.len() > 0 && s.last().key.key_view() != k {
        lemma_map_key_has_entry(s.drop_last(), k);
        let a = choose|a: int| 0 <= a < s.drop_last().len() && s.drop_last()[a].key.key_view() == k;
        assert(s[a].key.key_view() == k);
    }
}

/// With unique keys, the map agrees with each entry.
pub(crate) proof fn lemma_entry_value<P: KeyTrait, V: Copy>(s: Seq<Entry<P, V>>, a: int)
    requires
        unique_keys(s),
        0 <= a < s.len(),
    ensures
        entries_map(s).contains_key(s[a].key.key_view()),
        entries_map(s)[s[a].key.key_view()] == (s[a].value, s[a].ts),
    decreases s.len(),
{
    lemma_entry_in_map(s, a);
    if a < s.len() - 1 {
        assert(unique_keys(s.drop_last()));
        lemma_entry_value(s.drop_last(), a);
        assert(s[a].key.key_view() != s.last().key.key_view());
    }
}

impl<P: KeyTrait, V: Copy> Node<P, V> {
    /// The map from key bytes to the latest (value, commit timestamp) pair
    /// reachable from this node.
    pub closed spec fn map_view(self) -> Map<Seq<u8>, (V, u64)> {
        entries_map(self.entries@)
    }

    /// The timestamp recorded on this node: that of the most recent write.
    pub closed spec fn spec_ts(self) -> u64 {
        self.ts
    }

    /// Structural soundness: keys are unique and no entry was committed after
    /// the node's own timestamp.
    pub closed spec fn wf(self) -> bool {
        &&& unique_keys(self.entries@)
        &&& forall|a: int| 0 <= a < self.entries@.len() ==> self.entries@[a].ts <= self.ts
    }

    /// A node holding the empty map at timestamp zero.
    pub fn empty() -> (r: Self)
        ensures
            r.wf(),
            r.map_view() == Map::<Seq<u8>, (V, u64)>::empty(),
            r.spec_ts() == 0,
    {
        Node { entries: Vec::new(), ts: 0 }
    }

    /// The timestamp recorded on this node.
    pub fn ts(&self) -> (r: u64)
        ensures
            r == self.spec_ts(),
    {
        self.ts
    }

    /// Every commit timestamp in the map is bounded by the node's timestamp.
    pub proof fn lemma_commits_bounded(&self)
        requires
            self.wf(),
        ensures
            forall|k: Seq<u8>|
                self.map_view().contains_key(k) ==> #[trigger] self.map_view()[k].1
                    <= self.spec_ts(),
    {
        assert forall|k: Seq<u8>| self.map_view().contains_key(k) implies #[trigger] self.map_view()[k].1 <= self.spec_ts() by {
            lemma_map_key_has_entry(self.entries@, k);
            let a = choose|a: int|
                0 <= a < self.entries@.len() && self.entries@[a].key.key_view() == k;
            lemma_entry_value(self.entries@, a);
        }
    }

    /// Copy-on-write insert: builds a new node whose map is this node's map
    /// with `key` bound to `(value, commit_ts)`; `self` is not touched, so
    /// every other holder of it keeps the prior view.
    pub fn cow_insert(&self, key: &P, value: V, commit_ts: u64) -> (r: Self)
        requires
            self.wf(),
            self.spec_ts() <= commit_ts,
        ensures
            r.wf(),
            r.spec_ts() == commit_ts,
            r.map_view() == self.map_view().insert(key.key_view(), (value, commit_ts)),
    {
        let ghost s = self.entries@;
        let ghost kv = key.key_view();
        let n = self.entries.len();
        let mut out: Vec<Entry<P, V>> = Vec::new();
        let mut i: usize = 0;
        while i < n
            invariant
                0 <= i <= n,
                n == s.len(),
                s == self.entries@,
                kv == key.key_view(),
                self.wf(),
                unique_keys(out@),
                entries_map(out@) == entries_map(s.take(i as int)).remove(kv),
                forall|a: int| 0 <= a < out@.len() ==> out@[a].key.key_view() != kv,
                forall|a: int| 0 <= a < out@.len() ==> out@[a].ts <= self.ts,
                forall|a: int|
                    0 <= a < out@.len() ==> entries_map(s.take(i as int)).contains_key(
                        #[trigger] out@[a].key.key_view(),
                    ),
            decreases n - i,
        {
            let ghost prefix = s.take(i as int);
            proof {
                assert(s.take(i as int + 1).drop_last() =~= prefix);
                assert(s.take(i as int + 1).last() == s[i as int]);
            }
            let e = &self.entries[i];
            if !e.key.key_eq(key) {
                proof {
                    // The key about to be appended is new to `out`: it stands in
                    // the map of the extended prefix but not in that of `prefix`
                    // restricted to `out`'s keys.
                    assert forall|a: int| 0 <= a < out@.len() implies out@[a].key.key_view()
                        != s[i as int].key.key_view() by {
                        if out@[a].key.key_view() == s[i as int].key.key_view() {
                            lemma_map_key_has_entry(prefix, out@[a].key.key_view());
                            let okv = out@[a].key.key_view();
                            let b = choose|b: int|
                                0 <= b < prefix.len() && prefix[b].key.key_view() == okv;
                            assert(s[b].key.key_view() == s[i as int].key.key_view());
                        }
                    }
                }
                let ghost out_prev = out@;
                let copied = Entry { key: e.key.clone_key(), value: e.value, ts: e.ts };
                out.push(copied);
                proof {
                    assert(out@.drop_last() =~= out_prev);
                    assert(entries_map(out@) == entries_map(out_prev).insert(
                        out@.last().key.key_view(),
                        (out@.last().value, out@.last().ts),
                    ));
                    assert(out@.last().key.key_view() == s[i as int].key.key_view());
                    assert(entries_map(s.take(i as int + 1)) == entries_map(prefix).insert(
                        s[i as int].key.key_view(),
                        (s[i as int].value, s[i as int].ts),
                    ));
                    assert(entries_map(out@) =~= entries_map(s.take(i as int + 1)).remove(kv));
                    assert forall|a: int| 0 <= a < out@.len() implies entries_map(
                        s.take(i as int + 1),
                    ).contains_key(#[trigger] out@[a].key.key_view()) by {
                        if a < out@.len() - 1 {
                            assert(entries_map(prefix).contains_key(out@[a].key.key_view()));
                        }
                    }
                }
            } else {
                proof {
                    assert(entries_map(out@) =~= entries_map(s.take(i as int + 1)).remove(kv));
                    assert forall|a: int| 0 <= a < out@.len() implies entries_map(
                        s.take(i as int + 1),
                    ).contains_key(#[trigger] out@[a].key.key_view()) by {
                        assert(entries_map(prefix).contains_key(out@[a].key.key_view()));
                    }
                }
            }
            i = i + 1;
        }
        proof {
            assert(s.take(n as int) =~= s);
        }
        let ghost out_prev = out@;
        let fresh = Entry { key: key.clone_key(), value, ts: commit_ts };
        out.push(fresh);
        proof {
            assert(out@.drop_last() =~= out_prev);
            assert(entries_map(out@) == entries_map(out_prev).insert(
                out@.last().key.key_view(),
                (out@.last().value, out@.last().ts),
            ));
            assert(out@.last().key.key_view() == kv);
            assert(entries_map(out@) =~= entries_map(s).insert(kv, (value, commit_ts)));
        }
        Node { entries: out, ts: commit_ts }
    }

    /// Bounded lookup: the latest version of `key` whose commit timestamp does
    /// not exceed `ts`, if the key has one.
    pub fn lookup(&self, key: &P, ts: u64) -> (r: Option<(V, u64)>)
        requires
            self.wf(),
        ensures
            self.map_view().contains_key(key.key_view()) && self.map_view()[key.key_view()].1 <= ts
                ==> r == Some(self.map_view()[key.key_view()]),
            !(self.map_view().contains_key(key.key_view())
                && self.map_view()[key.key_view()].1 <= ts) ==> r is None,
    {
        let ghost s = self.entries@;
        let ghost kv = key.key_view();
        let n = self.entries.len();
        let mut i: usize = 0;
        while i < n
            invariant
                0 <= i <= n,
                n == s.len(),
                s == self.entries@,
                kv == key.key_view(),
                self.wf(),
                forall|a: int| 0 <= a < i ==> s[a].key.key_view() != kv,
            decreases n - i,
        {
            let e = &self.entries[i];
            if e.key.key_eq(key) {
                proof {
                    lemma_entry_value(s, i as int);
                }
                if e.ts <= ts {
                    return Some((e.value, e.ts));
                } else {
                    return None;
                }
            }
            i = i + 1;
        }
        proof {
            if entries_map(s).contains_key(kv) {
                lemma_map_key_has_entry(s, kv);
            }
        }
        None
    }

    /// All entries of this node, keys duplicated, in storage order: one triple
    /// per key of the map, each agreeing with the map.
    pub fn all_entries(&self) -> (r: Vec<(P, V, u64)>)
        requires
            self.wf(),
        ensures
            forall|j: int|
                0 <= j < r@.len() ==> self.map_view().contains_key(#[trigger] r@[j].0.key_view())
                    && self.map_view()[r@[j].0.key_view()] == (r@[j].1, r@[j].2),
            forall|k: Seq<u8>|
                self.map_view().contains_key(k) ==> exists|j: int|
                    0 <= j < r@.len() && #[trigger] r@[j].0.key_view() == k,
            forall|a: int, b: int|
                0 <= a < b < r@.len() ==> r@[a].0.key_view() != r@[b].0.key_view(),
    {
        let ghost s = self.entries@;
        let n = self.entries.len();
        let mut out: Vec<(P, V, u64)> = Vec::new();
        let mut i: usize = 0;
        while i < n
            invariant
                0 <= i <= n,
                n == s.len(),
                s == self.entries@,
                self.wf(),
                out@.len() == i,
                forall|j: int|
                    0 <= j < i ==> #[trigger] out@[j].0.key_view() == s[j].key.key_view()
                        && out@[j].1 == s[j].value && out@[j].2 == s[j].ts,
            decreases n - i,
        {
            let e = &self.entries[i];
            out.push((e.key.clone_key(), e.value, e.ts));
            i = i + 1;
        }
        proof {
            assert forall|j: int| 0 <= j < out@.len() implies self.map_view().contains_key(
                #[trigger] out@[j].0.key_view(),
            ) && self.map_view()[out@[j].0.key_view()] == (out@[j].1, out@[j].2) by {
                lemma_entry_value(s, j);
            }
            assert forall|k: Seq<u8>| self.map_view().contains_key(k) implies exists|j: int|
                0 <= j < out@.len() && #[trigger] out@[j].0.key_view() == k by {
                lemma_map_key_has_entry(s, k);
                let a = choose|a: int| 0 <= a < s.len() && s[a].key.key_view() == k;
                assert(out@[a].0.key_view() == k);
            }
        }
        out
    }
}

} // verus!
