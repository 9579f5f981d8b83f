//! The library's general guarantees, stated once and proved.
//!
//! Each proof function here states a law over the same spec-level models the
//! executable contracts use: `Snapshot::insert` ensures exactly one step of
//! [`inserts_result`], and `Snapshot::new_reader` / `Snapshot::close_reader`
//! ensure exactly one step of [`reader_state`], so what is proved of the
//! folds holds of any sequence of the corresponding calls.
use vstd::prelude::*;

use crate::registry::lemma_strictly_increasing_remove;
use crate::registry::strictly_increasing;

verus! {

/// What one successful insert does to a snapshot's map and timestamp: the key
/// is bound to the value with the next timestamp as its commit timestamp, and
/// the timestamp advances by exactly one. `Snapshot::insert` ensures exactly
/// this step.
pub open spec fn insert_step<V>(
    m: Map<Seq<u8>, (V, u64)>,
    ts: u64,
    key: Seq<u8>,
    value: V,
) -> (Map<Seq<u8>, (V, u64)>, u64)
    recommends
        ts < u64::MAX,
{
    (m.insert(key, (value, (ts + 1) as u64)), (ts + 1) as u64)
}

/// The map and timestamp a snapshot reaches after a sequence of successful
/// inserts: [`insert_step`], folded.
pub open spec fn inserts_result<V>(
    m: Map<Seq<u8>, (V, u64)>,
    ts: u64,
    ops: Seq<(Seq<u8>, V)>,
) -> (Map<Seq<u8>, (V, u64)>, u64)
    decreases ops.len(),
{
    if ops.len() == 0 {
        (m, ts)
    } else {
        let prior = inserts_result(m, ts, ops.drop_last());
        insert_step(prior.0, prior.1, ops.last().0, ops.last().1)
    }
}

/// For any sequence of `n` successful inserts on one snapshot, the
/// snapshot's timestamp equals its starting timestamp plus `n`.
pub proof fn lemma_ts_counts_inserts<V>(m: Map<Seq<u8>, (V, u64)>, ts: u64, ops: Seq<(Seq<u8>, V)>)
    requires
        ts + ops.len() <= u64::MAX,
    ensures
        inserts_result(m, ts, ops).1 == ts + ops.len(),
    decreases ops.len(),
{
    if ops.len() > 0 {
        lemma_ts_counts_inserts(m, ts, ops.drop_last());
    }
}

/// A key written through no insert of a snapshot — for instance one inserted
/// only into a sibling snapshot — is absent from that snapshot's map, so a
/// `get` for it through that snapshot fails at every requested timestamp.
pub proof fn lemma_unwritten_key_invisible<V>(
    m: Map<Seq<u8>, (V, u64)>,
    ts: u64,
    ops: Seq<(Seq<u8>, V)>,
    k: Seq<u8>,
)
    requires
        !m.contains_key(k),
        forall|i: int| 0 <= i < ops.len() ==> (#[trigger] ops[i]).0 != k,
    ensures
        !inserts_result(m, ts, ops).0.contains_key(k),
    decreases ops.len(),
{
    if ops.len() > 0 {
        lemma_unwritten_key_invisible(m, ts, ops.drop_last(), k);
    }
}

/// Every key a snapshot inserted itself is in its map afterwards, and every
/// commit timestamp in the map is at or below the snapshot's current
/// timestamp — so a `get` for such a key at the snapshot's current timestamp
/// succeeds and returns a commit timestamp at or below the requested one.
pub proof fn lemma_own_writes_visible<V>(m: Map<Seq<u8>, (V, u64)>, ts: u64, ops: Seq<(Seq<u8>, V)>)
    requires
        ts + ops.len() <= u64::MAX,
        forall|k: Seq<u8>| m.contains_key(k) ==> (#[trigger] m[k]).1 <= ts,
    ensures
        forall|i: int|
            0 <= i < ops.len() ==> inserts_result(m, ts, ops).0.contains_key(
                (#[trigger] ops[i]).0,
            ),
        forall|k: Seq<u8>|
            #[trigger] inserts_result(m, ts, ops).0.contains_key(k) ==> inserts_result(
                m,
                ts,
                ops,
            ).0[k].1 <= inserts_result(m, ts, ops).1,
    decreases ops.len(),
{
    if ops.len() > 0 {
        lemma_own_writes_visible(m, ts, ops.drop_last());
        lemma_ts_counts_inserts(m, ts, ops.drop_last());
        let prior = inserts_result(m, ts, ops.drop_last());
        assert forall|i: int| 0 <= i < ops.len() implies inserts_result(m, ts, ops).0.contains_key(
            (#[trigger] ops[i]).0,
        ) by {
            if i < ops.len() - 1 {
                assert(ops.drop_last()[i] == ops[i]);
                assert(prior.0.contains_key(ops[i].0));
            }
        }
    }
}

/// One reader-bookkeeping event on a snapshot: a reader is issued, or the
/// active reader with the given id is closed.
pub enum ReaderEvent {
    Issue,
    Close(u64),
}

/// What issuing a reader does to the bookkeeping: the count of ids ever
/// issued is handed out as the new id and appended to the active ids.
/// `Snapshot::new_reader` ensures exactly this step.
pub open spec fn issue_step(issued: u64, active: Seq<u64>) -> (u64, Seq<u64>)
    recommends
        issued < u64::MAX,
{
    (((issued + 1) as u64), active.push(issued))
}

/// What closing a reader id does to the bookkeeping: an active id is removed;
/// an id that is not active changes nothing (the call reports an error).
/// `Snapshot::close_reader` ensures exactly this step.
pub open spec fn close_step(issued: u64, active: Seq<u64>, id: u64) -> (u64, Seq<u64>) {
    if active.contains(id) {
        (issued, active.remove(active.index_of(id)))
    } else {
        (issued, active)
    }
}

/// The reader bookkeeping a sequence of events drives, from `issued` ids
/// already handed out and the active ids `active`: [`issue_step`] and
/// [`close_step`], folded.
pub open spec fn reader_state(issued: u64, active: Seq<u64>, evs: Seq<ReaderEvent>) -> (
    u64,
    Seq<u64>,
)
    decreases evs.len(),
{
    if evs.len() == 0 {
        (issued, active)
    } else {
        let prior = reader_state(issued, active, evs.drop_last());
        match evs.last() {
            ReaderEvent::Issue => issue_step(prior.0, prior.1),
            ReaderEvent::Close(id) => close_step(prior.0, prior.1, id),
        }
    }
}

/// How many events of a sequence issue a reader.
pub open spec fn issue_count(evs: Seq<ReaderEvent>) -> int
    decreases evs.len(),
{
    if evs.len() == 0 {
        0
    } else {
        issue_count(evs.drop_last()) + if evs.last() is Issue {
            1int
        } else {
            0int
        }
    }
}

/// Whether every close event of a sequence names an id active at that point.
pub open spec fn closes_hit_active(issued: u64, active: Seq<u64>, evs: Seq<ReaderEvent>) -> bool
    decreases evs.len(),
{
    if evs.len() == 0 {
        true
    } else {
        &&& closes_hit_active(issued, active, evs.drop_last())
        &&& match evs.last() {
            ReaderEvent::Issue => true,
            ReaderEvent::Close(id) => reader_state(issued, active, evs.drop_last()).1.contains(id),
        }
    }
}

/// Reader accounting. Issued ids strictly increase — the id each issue hands
/// out is the count of ids issued before it, so from a fresh snapshot they
/// are 0, 1, 2, … and no id is ever reused — and, when every close names an
/// id active at that point, the active-reader count equals issued minus
/// closed.
pub proof fn lemma_reader_accounting(issued: u64, active: Seq<u64>, evs: Seq<ReaderEvent>)
    requires
        issued + issue_count(evs) <= u64::MAX,
        strictly_increasing(active),
        forall|a: int| 0 <= a < active.len() ==> active[a] < issued,
        closes_hit_active(issued, active, evs),
    ensures
        reader_state(issued, active, evs).0 == issued + issue_count(evs),
        reader_state(issued, active, evs).1.len() == active.len() + issue_count(evs) - (evs.len()
            - issue_count(evs)),
        strictly_increasing(reader_state(issued, active, evs).1),
        forall|a: int|
            0 <= a < reader_state(issued, active, evs).1.len() ==> reader_state(
                issued,
                active,
                evs,
            ).1[a] < reader_state(issued, active, evs).0,
    decreases evs.len(),
{
    if evs.len() > 0 {
        lemma_reader_accounting(issued, active, evs.drop_last());
        let prior = reader_state(issued, active, evs.drop_last());
        match evs.last() {
            ReaderEvent::Issue => {},
            ReaderEvent::Close(id) => {
                let i = prior.1.index_of(id);
                assert(0 <= i < prior.1.len() && prior.1[i] == id);
                lemma_strictly_increasing_remove(prior.1, i);
            },
        }
    }
}

/// From a fresh snapshot — no reader issued yet — after any sequence of
/// events in which every close names an id active at that point, the
/// active-reader count equals the readers issued minus the readers closed.
pub proof fn lemma_active_equals_issued_minus_closed(evs: Seq<ReaderEvent>)
    requires
        issue_count(evs) <= u64::MAX,
        closes_hit_active(0, Seq::empty(), evs),
    ensures
        reader_state(0, Seq::empty(), evs).0 == issue_count(evs),
        reader_state(0, Seq::empty(), evs).1.len() == issue_count(evs) - (evs.len() - issue_count(
            evs,
        )),
{
    lemma_reader_accounting(0, Seq::empty(), evs);
}

} // verus!
