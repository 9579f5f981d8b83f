//! Issuance and revocation of numeric identities.
//!
//! An [`IdRegistry`] hands out strictly increasing ids starting at zero and
//! keeps the set of ids issued and not yet removed. An id, once issued, is
//! never issued again for the registry's lifetime, so the live count always
//! equals issued minus removed. Snapshots use one registry for their readers;
//! the tree uses one for its open snapshots.
use vstd::prelude::*;

verus! {

/// The ids are strictly increasing along the sequence (hence pairwise
/// distinct).
pub open spec fn strictly_increasing(s: Seq<u64>) -> bool {
    forall|a: int, b: int| 0 <= a < b < s.len() ==> s[a] < s[b]
}

/// Strict increase survives removing one element.
pub proof fn lemma_strictly_increasing_remove(s: Seq<u64>, i: int)
    requires
        strictly_increasing(s),
        0 <= i < s.len(),
    ensures
        strictly_increasing(s.remove(i)),
{
    let t = s.remove(i);
    assert forall|a: int, b: int| 0 <= a < b < t.len() implies t[a] < t[b] by {
        if b < i {
            assert(t[a] == s[a] && t[b] == s[b]);
        } else if a < i {
            assert(t[a] == s[a] && t[b] == s[b + 1]);
        } else {
            assert(t[a] == s[a + 1] && t[b] == s[b + 1]);
        }
    }
}

/// In a strictly increasing sequence an element has one index, and `index_of`
/// returns it.
pub proof fn lemma_index_of_unique(s: Seq<u64>, i: int)
    requires
        strictly_increasing(s),
        0 <= i < s.len(),
    ensures
        s.index_of(s[i]) == i,
{
    assert(s.contains(s[i]));
    let j = s.index_of(s[i]);
    assert(0 <= j < s.len() && s[j] == s[i]);
    if i < j {
        assert(s[i] < s[j]);
    } else if j < i {
        assert(s[j] < s[i]);
    }
}

/// Live numeric identities: the ids issued and not yet removed, and the id the
/// next issuance returns.
pub struct IdRegistry {
    ids: Vec<u64>,
    next: u64,
}

impl IdRegistry {
    /// The live ids, in order of issuance.
    pub closed spec fn ids_view(self) -> Seq<u64> {
        self.ids@
    }

    /// The id the next issuance returns; also the number of ids ever issued.
    pub closed spec fn next_id(self) -> u64 {
        self.next
    }

    /// Live ids are strictly increasing and all below `next_id`.
    pub closed spec fn wf(self) -> bool {
        &&& strictly_increasing(self.ids@)
        &&& forall|a: int| 0 <= a < self.ids@.len() ==> self.ids@[a] < self.next
    }

    /// The live ids are strictly increasing — so pairwise distinct — and all
    /// below the next id: an id, once removed, can never reappear.
    pub proof fn lemma_live_ids(self)
        requires
            self.wf(),
        ensures
            strictly_increasing(self.ids_view()),
            forall|a: int| 0 <= a < self.ids_view().len() ==> self.ids_view()[a] < self.next_id(),
    {
    }

    /// A registry that has issued nothing.
    pub fn empty() -> (r: Self)
        ensures
            r.wf(),
            r.ids_view() == Seq::<u64>::empty(),
            r.next_id() == 0,
    {
        IdRegistry { ids: Vec::new(), next: 0 }
    }

    /// Issues the next id: one more than every id issued before, starting at
    /// zero.
    pub fn issue(&mut self) -> (r: u64)
        requires
            old(self).wf(),
            old(self).next_id() < u64::MAX,
        ensures
            final(self).wf(),
            r == old(self).next_id(),
            final(self).ids_view() == old(self).ids_view().push(r),
            final(self).next_id() == old(self).next_id() + 1,
    {
        let id = self.next;
        self.next = self.next + 1;
        self.ids.push(id);
        id
    }

    /// How many ids are live: issued and not yet removed.
    pub fn count(&self) -> (r: usize)
        ensures
            r == self.ids_view().len(),
    {
        self.ids.len()
    }

    /// Removes a live id; reports whether it was live.
    pub fn remove(&mut self, id: u64) -> (r: bool)
        requires
            old(self).wf(),
        ensures
            final(self).wf(),
            r == old(self).ids_view().contains(id),
            r ==> final(self).ids_view() == old(self).ids_view().remove(
                old(self).ids_view().index_of(id),
            ),
            r ==> final(self).next_id() == old(self).next_id(),
            !r ==> *final(self) == *old(self),
    {
        let ghost s = self.ids@;
        let n = self.ids.len();
        let mut i: usize = 0;
        while i < n
            invariant
                0 <= i <= n,
                n == s.len(),
                s == self.ids@,
                *self == *old(self),
                self.wf(),
                forall|j: int| 0 <= j < i ==> s[j] != id,
            decreases n - i,
        {
            if self.ids[i] == id {
                proof {
                    lemma_index_of_unique(s, i as int);
                    lemma_strictly_increasing_remove(s, i as int);
                }
                self.ids.remove(i);
                return true;
            }
            i = i + 1;
        }
        false
    }
}

} // verus!
