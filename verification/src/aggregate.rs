//! Reduction of one drained batch into its window summary.
//!
//! One pass over the batch yields an [`Access`]: the true minimum and
//! maximum timestamp among the batch's access events, and one counter per
//! variation — flag key, variation index and flag version — holding how
//! many access events fell on that variation and the value of the first of
//! them in arrival order. Custom and debug events do not aggregate; they
//! are preserved separately for the raw export (see [`crate::package`]).

use vstd::prelude::*;
use vstd::multiset::Multiset;
use crate::event::{
    Access, AccessEvent, Event, FlagCounters, ToggleCounter, VariationId, access_id, access_time,
    access_value, first_value, id_pred, is_access, key_count, key_events,
};
use crate::json::clone_value;

verus! {

broadcast use vstd::seq_lib::group_filter_ensures;

/// The variation identity of the counter at position `j` of group `i`.
pub open spec fn group_entry_id(gs: Seq<FlagCounters>, i: int, j: int) -> VariationId {
    (gs[i].key@, gs[i].counters@[j].index as int, gs[i].counters@[j].version)
}

/// Some counter of `gs` carries the variation identity `k`.
pub open spec fn groups_have_id(gs: Seq<FlagCounters>, k: VariationId) -> bool {
    exists|i: int, j: int|
        0 <= i < gs.len() && 0 <= j < gs[i].counters@.len() && #[trigger] group_entry_id(gs, i, j)
            == k
}

/// A counter under flag key `key` reflects the batch: its count is the
/// number of access events of its variation, positive, and its value is
/// the value of the first of them in arrival order.
pub open spec fn counter_correct(events: Seq<Event>, key: Seq<char>, c: ToggleCounter) -> bool {
    let k = (key, c.index as int, c.version);
    &&& key_count(events, k) > 0
    &&& c.count as nat == key_count(events, k)
    &&& c.value == first_value(events, k)
}

/// Every counter of every group reflects the batch.
pub open spec fn groups_sound(events: Seq<Event>, gs: Seq<FlagCounters>) -> bool {
    forall|i: int, j: int|
        0 <= i < gs.len() && 0 <= j < gs[i].counters@.len() ==> counter_correct(
            events,
            gs[i].key@,
            #[trigger] gs[i].counters@[j],
        )
}

/// Every access event of the batch has a counter for its variation.
pub open spec fn groups_complete(events: Seq<Event>, gs: Seq<FlagCounters>) -> bool {
    forall|t: int|
        0 <= t < events.len() && is_access(#[trigger] events[t]) ==> groups_have_id(
            gs,
            access_id(events[t]),
        )
}

/// Group keys are unique, and within a group no variation repeats.
pub open spec fn groups_distinct(gs: Seq<FlagCounters>) -> bool {
    &&& forall|i1: int, i2: int|
        0 <= i1 < i2 < gs.len() ==> (#[trigger] gs[i1].key@) != (#[trigger] gs[i2].key@)
    &&& forall|i: int, j1: int, j2: int|
        0 <= i < gs.len() && 0 <= j1 < j2 < gs[i].counters@.len() ==> #[trigger] group_entry_id(
            gs,
            i,
            j1,
        ) != #[trigger] group_entry_id(gs, i, j2)
}

/// No group is empty.
pub open spec fn groups_nonempty(gs: Seq<FlagCounters>) -> bool {
    forall|i: int| 0 <= i < gs.len() ==> #[trigger] gs[i].counters@.len() > 0
}

/// The batch holds at least one access event.
pub open spec fn has_access(events: Seq<Event>) -> bool {
    exists|t: int| 0 <= t < events.len() && is_access(#[trigger] events[t])
}

/// Every access event's timestamp lies within `[start, end]`.
pub open spec fn times_bounded(events: Seq<Event>, start: u128, end: u128) -> bool {
    forall|t: int|
        0 <= t < events.len() && is_access(#[trigger] events[t]) ==> start <= access_time(
            events[t],
        ) && access_time(events[t]) <= end
}

/// Some access event carries exactly the timestamp `x`.
pub open spec fn time_attained(events: Seq<Event>, x: u128) -> bool {
    exists|t: int| 0 <= t < events.len() && is_access(#[trigger] events[t]) && access_time(events[t]) == x
}

/// The full correctness of a window summary against its batch: counters
/// are sound, complete and free of duplicates, and the window bounds are
/// the true minimum and maximum access timestamps. A batch without
/// access events yields an empty summary with both bounds clamped to
/// `now`, the cycle's own timestamp — never the inverted never-touched
/// sentinel.
pub open spec fn access_summarizes(events: Seq<Event>, now: u128, a: Access) -> bool {
    &&& groups_sound(events, a.counters@)
    &&& groups_complete(events, a.counters@)
    &&& groups_distinct(a.counters@)
    &&& groups_nonempty(a.counters@)
    &&& (has_access(events) ==> {
        &&& times_bounded(events, a.start_time, a.end_time)
        &&& time_attained(events, a.start_time)
        &&& time_attained(events, a.end_time)
    })
    &&& (!has_access(events) ==> a.start_time == now && a.end_time == now && a.counters@.len()
        == 0)
}

/// How one appended event changes the per-variation selections.
proof fn lemma_key_stats_push(events: Seq<Event>, e: Event, k: VariationId)
    ensures
        id_pred(k)(e) ==> key_events(events.push(e), k) == key_events(events, k).push(e),
        !id_pred(k)(e) ==> key_events(events.push(e), k) == key_events(events, k),
{
    events.lemma_filter_push(e, id_pred(k));
}

/// A variation absent from all counters is absent from the batch they
/// summarize, so its selection is empty.
proof fn lemma_absent_id_count_zero(events: Seq<Event>, gs: Seq<FlagCounters>, k: VariationId)
    requires
        groups_complete(events, gs),
        !groups_have_id(gs, k),
    ensures
        key_count(events, k) == 0,
{
    assert forall|t: int| 0 <= t < events.len() implies !(id_pred(k)(#[trigger] events[t])) by {
        if is_access(events[t]) && access_id(events[t]) == k {
            assert(groups_have_id(gs, k));
        }
    }
    assert(events.all(|e: Event| !(id_pred(k)(e))));
    events.lemma_all_neg_filter_empty(id_pred(k));
}

/// Counting per variation sees only which events a batch holds, never
/// their order: two batches that are permutations of one another — the
/// same multiset of events — have the same count for every variation.
/// [`lemma_summary_permutation_invariant`] lifts this to whole
/// summaries.
pub proof fn lemma_key_count_permutation_invariant(s1: Seq<Event>, s2: Seq<Event>, k: VariationId)
    requires
        s1.to_multiset() == s2.to_multiset(),
    ensures
        key_count(s1, k) == key_count(s2, k),
{
    lemma_key_count_from_multiset(s1, k);
    lemma_key_count_from_multiset(s2, k);
}

/// The per-variation count is a function of the batch's multiset alone.
proof fn lemma_key_count_from_multiset(s: Seq<Event>, k: VariationId)
    ensures
        key_count(s, k) == s.to_multiset().filter(id_pred(k)).len(),
    decreases s.len(),
{
    broadcast use vstd::multiset::group_multiset_axioms;
    broadcast use vstd::seq_lib::group_to_multiset_ensures;

    if s.len() == 0 {
        assert(key_events(s, k).len() == 0);
        assert(s.to_multiset().len() == 0);
        assert(s.to_multiset().filter(id_pred(k)) =~= Multiset::<Event>::empty());
    } else {
        let rest = s.drop_last();
        let e = s.last();
        lemma_key_count_from_multiset(rest, k);
        assert(s =~= rest.push(e));
        rest.lemma_filter_len_push(id_pred(k), e);
        assert(s.to_multiset() =~= rest.to_multiset().insert(e));
        let mfil = rest.to_multiset().filter(id_pred(k));
        if id_pred(k)(e) {
            assert(s.to_multiset().filter(id_pred(k)) =~= mfil.insert(e));
            assert(mfil.insert(e).len() == mfil.len() + 1);
        } else {
            assert(s.to_multiset().filter(id_pred(k)) =~= mfil);
        }
    }
}

/// A variation is counted exactly when some access event of the batch
/// carries it.
proof fn lemma_key_count_pos(events: Seq<Event>, k: VariationId)
    ensures
        key_count(events, k) > 0 <==> exists|t: int|
            0 <= t < events.len() && is_access(#[trigger] events[t]) && access_id(events[t]) == k,
{
    if key_count(events, k) > 0 {
        events.lemma_filter_pred(id_pred(k), 0);
        let w = key_events(events, k)[0];
        assert(key_events(events, k).contains(w));
        events.lemma_filter_contains_rev(id_pred(k), w);
        let t = choose|t: int| 0 <= t < events.len() && events[t] == w;
        assert(is_access(events[t]) && access_id(events[t]) == k);
    }
    if exists|t: int|
        0 <= t < events.len() && is_access(#[trigger] events[t]) && access_id(events[t]) == k {
        let t = choose|t: int|
            0 <= t < events.len() && is_access(#[trigger] events[t]) && access_id(events[t]) == k;
        assert(id_pred(k)(events[t]));
        events.lemma_filter_contains(id_pred(k), t);
        assert(key_events(events, k).contains(events[t]));
    }
}

/// An event of one batch occurs in every batch with the same multiset.
proof fn lemma_event_transfer(s1: Seq<Event>, s2: Seq<Event>, t1: int)
    requires
        s1.to_multiset() == s2.to_multiset(),
        0 <= t1 < s1.len(),
    ensures
        exists|t2: int| 0 <= t2 < s2.len() && s2[t2] == s1[t1],
{
    broadcast use vstd::seq_lib::group_to_multiset_ensures;

    assert(s1.contains(s1[t1]));
    assert(s1.to_multiset().count(s1[t1]) > 0);
    assert(s2.contains(s1[t1]));
}

/// The whole-result form of permutation invariance: two summaries of
/// batches that are permutations of one another agree on the window
/// bounds, carry counters for exactly the same variations, and give any
/// shared variation the same count. Only the representative value may
/// differ, as it follows arrival order.
pub proof fn lemma_summary_permutation_invariant(
    s1: Seq<Event>,
    s2: Seq<Event>,
    now: u128,
    a1: Access,
    a2: Access,
)
    requires
        s1.to_multiset() == s2.to_multiset(),
        access_summarizes(s1, now, a1),
        access_summarizes(s2, now, a2),
    ensures
        a1.start_time == a2.start_time,
        a1.end_time == a2.end_time,
        forall|k: VariationId|
            groups_have_id(a1.counters@, k) <==> groups_have_id(a2.counters@, k),
        forall|i1: int, j1: int, i2: int, j2: int|
            #![trigger group_entry_id(a1.counters@, i1, j1), group_entry_id(a2.counters@, i2, j2)]
            0 <= i1 < a1.counters@.len() && 0 <= j1 < a1.counters@[i1].counters@.len() && 0 <= i2
                < a2.counters@.len() && 0 <= j2 < a2.counters@[i2].counters@.len()
                && group_entry_id(a1.counters@, i1, j1) == group_entry_id(a2.counters@, i2, j2)
                ==> a1.counters@[i1].counters@[j1].count == a2.counters@[i2].counters@[j2].count,
{
    lemma_bounds_permutation_invariant(s1, s2, now, a1, a2);
    assert forall|k: VariationId| #[trigger] key_count(s1, k) == key_count(s2, k) by {
        lemma_key_count_permutation_invariant(s1, s2, k);
    }
    lemma_ids_transfer(s1, s2, a1, a2);
    lemma_ids_transfer(s2, s1, a2, a1);
    assert forall|i1: int, j1: int, i2: int, j2: int|
        #![trigger group_entry_id(a1.counters@, i1, j1), group_entry_id(a2.counters@, i2, j2)]
        0 <= i1 < a1.counters@.len() && 0 <= j1 < a1.counters@[i1].counters@.len() && 0 <= i2
            < a2.counters@.len() && 0 <= j2 < a2.counters@[i2].counters@.len()
            && group_entry_id(a1.counters@, i1, j1) == group_entry_id(a2.counters@, i2, j2) implies a1.counters@[i1].counters@[j1].count
        == a2.counters@[i2].counters@[j2].count by {
        let k = group_entry_id(a1.counters@, i1, j1);
        assert(counter_correct(s1, a1.counters@[i1].key@, a1.counters@[i1].counters@[j1]));
        assert(counter_correct(s2, a2.counters@[i2].key@, a2.counters@[i2].counters@[j2]));
        lemma_key_count_permutation_invariant(s1, s2, k);
    }
}

/// Every variation counted by one summary is counted by the other,
/// when the two batches count every variation alike.
proof fn lemma_ids_transfer(s1: Seq<Event>, s2: Seq<Event>, a1: Access, a2: Access)
    requires
        forall|k: VariationId| #[trigger] key_count(s1, k) == key_count(s2, k),
        groups_sound(s1, a1.counters@),
        groups_complete(s2, a2.counters@),
    ensures
        forall|k: VariationId|
            groups_have_id(a1.counters@, k) ==> groups_have_id(a2.counters@, k),
{
    assert forall|k: VariationId|
        groups_have_id(a1.counters@, k) implies groups_have_id(a2.counters@, k) by {
        let (i, j) = choose|i: int, j: int|
            0 <= i < a1.counters@.len() && 0 <= j < a1.counters@[i].counters@.len()
                && #[trigger] group_entry_id(a1.counters@, i, j) == k;
        assert(counter_correct(s1, a1.counters@[i].key@, a1.counters@[i].counters@[j]));
        assert(key_count(s1, k) > 0);
        assert(key_count(s2, k) > 0);
        lemma_key_count_pos(s2, k);
        let t2 = choose|t: int|
            0 <= t < s2.len() && is_access(#[trigger] s2[t]) && access_id(s2[t]) == k;
        assert(groups_have_id(a2.counters@, access_id(s2[t2])));
    }
}

/// The window bounds of a summary depend only on which events the batch
/// holds, not on their order.
proof fn lemma_bounds_permutation_invariant(
    s1: Seq<Event>,
    s2: Seq<Event>,
    now: u128,
    a1: Access,
    a2: Access,
)
    requires
        s1.to_multiset() == s2.to_multiset(),
        access_summarizes(s1, now, a1),
        access_summarizes(s2, now, a2),
    ensures
        a1.start_time == a2.start_time,
        a1.end_time == a2.end_time,
{
    if has_access(s1) {
        let t1 = choose|t: int| 0 <= t < s1.len() && is_access(#[trigger] s1[t]);
        lemma_event_transfer(s1, s2, t1);
        assert(has_access(s2));
    }
    if has_access(s2) {
        let t2 = choose|t: int| 0 <= t < s2.len() && is_access(#[trigger] s2[t]);
        lemma_event_transfer(s2, s1, t2);
        assert(has_access(s1));
    }
    if has_access(s1) {
        // each summary's attained bound lies within the other's bounds
        let ts = choose|t: int|
            0 <= t < s1.len() && is_access(#[trigger] s1[t]) && access_time(s1[t])
                == a1.start_time;
        lemma_event_transfer(s1, s2, ts);
        let ts2 = choose|t: int| 0 <= t < s2.len() && s2[t] == s1[ts];
        assert(a2.start_time <= access_time(s2[ts2]));
        let us = choose|t: int|
            0 <= t < s2.len() && is_access(#[trigger] s2[t]) && access_time(s2[t])
                == a2.start_time;
        lemma_event_transfer(s2, s1, us);
        let us1 = choose|t: int| 0 <= t < s1.len() && s1[t] == s2[us];
        assert(a1.start_time <= access_time(s1[us1]));
        let te = choose|t: int|
            0 <= t < s1.len() && is_access(#[trigger] s1[t]) && access_time(s1[t]) == a1.end_time;
        lemma_event_transfer(s1, s2, te);
        let te2 = choose|t: int| 0 <= t < s2.len() && s2[t] == s1[te];
        assert(access_time(s2[te2]) <= a2.end_time);
        let ue = choose|t: int|
            0 <= t < s2.len() && is_access(#[trigger] s2[t]) && access_time(s2[t]) == a2.end_time;
        lemma_event_transfer(s2, s1, ue);
        let ue1 = choose|t: int| 0 <= t < s1.len() && s1[t] == s2[ue];
        assert(access_time(s1[ue1]) <= a1.end_time);
    }
}

/// How many counters the summary holds, over all flag keys.
pub open spec fn total_counters(gs: Seq<FlagCounters>) -> nat
    decreases gs.len(),
{
    if gs.len() == 0 {
        0
    } else {
        total_counters(gs.drop_last()) + gs.last().counters@.len()
    }
}

/// The variation identities of one group's counters, in counter order.
pub open spec fn group_id_seq(g: FlagCounters) -> Seq<VariationId> {
    Seq::new(
        g.counters@.len(),
        |j: int| (g.key@, g.counters@[j].index as int, g.counters@[j].version),
    )
}

/// The variation identities counted by the summary.
pub open spec fn summary_ids(gs: Seq<FlagCounters>) -> Set<VariationId>
    decreases gs.len(),
{
    if gs.len() == 0 {
        Set::<VariationId>::empty()
    } else {
        summary_ids(gs.drop_last()).union(group_id_seq(gs.last()).to_set())
    }
}

pub open spec fn is_access_pred() -> spec_fn(Event) -> bool {
    |e: Event| is_access(e)
}

pub open spec fn access_id_fn() -> spec_fn(Event) -> VariationId {
    |e: Event| access_id(e)
}

/// The distinct variation identities of a batch's access events.
pub open spec fn batch_variations(events: Seq<Event>) -> Set<VariationId> {
    events.filter(is_access_pred()).map_values(access_id_fn()).to_set()
}

/// A summary counts an identity exactly when one of its counters
/// carries it.
proof fn lemma_summary_ids_membership(gs: Seq<FlagCounters>, k: VariationId)
    ensures
        summary_ids(gs).contains(k) <==> groups_have_id(gs, k),
    decreases gs.len(),
{
    broadcast use vstd::set::group_set_axioms;

    if gs.len() == 0 {
        if groups_have_id(gs, k) {
            let (i, j) = choose|i: int, j: int|
                0 <= i < gs.len() && 0 <= j < gs[i].counters@.len() && #[trigger] group_entry_id(
                    gs,
                    i,
                    j,
                ) == k;
            assert(false);
        }
    } else {
        let r = gs.drop_last();
        let g = gs.last();
        lemma_summary_ids_membership(r, k);
        if summary_ids(gs).contains(k) {
            if summary_ids(r).contains(k) {
                let (i, j) = choose|i: int, j: int|
                    0 <= i < r.len() && 0 <= j < r[i].counters@.len() && #[trigger] group_entry_id(
                        r,
                        i,
                        j,
                    ) == k;
                assert(gs[i] == r[i]);
                assert(group_entry_id(gs, i, j) == k);
            } else {
                assert(group_id_seq(g).to_set().contains(k));
                assert(group_id_seq(g).contains(k));
                let j = choose|j: int|
                    0 <= j < group_id_seq(g).len() && group_id_seq(g)[j] == k;
                assert(group_entry_id(gs, gs.len() - 1, j) == k);
            }
            assert(groups_have_id(gs, k));
        }
        if groups_have_id(gs, k) {
            let (i, j) = choose|i: int, j: int|
                0 <= i < gs.len() && 0 <= j < gs[i].counters@.len() && #[trigger] group_entry_id(
                    gs,
                    i,
                    j,
                ) == k;
            if i < gs.len() - 1 {
                assert(r[i] == gs[i]);
                assert(group_entry_id(r, i, j) == k);
                assert(groups_have_id(r, k));
            } else {
                assert(group_id_seq(g)[j] == k);
                assert(group_id_seq(g).contains(k));
                assert(group_id_seq(g).to_set().contains(k));
            }
            assert(summary_ids(gs).contains(k));
        }
    }
}

/// A duplicate-free summary has as many counters as identities.
proof fn lemma_summary_ids_len(gs: Seq<FlagCounters>)
    requires
        groups_distinct(gs),
    ensures
        summary_ids(gs).finite(),
        summary_ids(gs).len() == total_counters(gs),
    decreases gs.len(),
{
    broadcast use vstd::set::group_set_axioms;
    broadcast use vstd::seq_lib::seq_to_set_is_finite;

    if gs.len() == 0 {
        assert(summary_ids(gs).len() == 0);
    } else {
        let r = gs.drop_last();
        let g = gs.last();
        let last = gs.len() - 1;
        assert forall|i: int| 0 <= i < r.len() implies r[i] == gs[i] by {}
        assert(groups_distinct(r)) by {
            assert forall|i1: int, i2: int|
                0 <= i1 < i2 < r.len() implies (#[trigger] r[i1].key@) != (
            #[trigger] r[i2].key@) by {
                assert(gs[i1].key@ != gs[i2].key@);
            }
            assert forall|i: int, j1: int, j2: int|
                0 <= i < r.len() && 0 <= j1 < j2 < r[i].counters@.len() implies #[trigger] group_entry_id(
                r,
                i,
                j1,
            ) != #[trigger] group_entry_id(r, i, j2) by {
                assert(group_entry_id(gs, i, j1) != group_entry_id(gs, i, j2));
            }
        }
        lemma_summary_ids_len(r);
        let sg = group_id_seq(g);
        assert(sg.no_duplicates()) by {
            assert forall|j1: int, j2: int|
                0 <= j1 < j2 < sg.len() implies sg[j1] != sg[j2] by {
                assert(group_entry_id(gs, last, j1) != group_entry_id(gs, last, j2));
                assert(sg[j1] == group_entry_id(gs, last, j1));
                assert(sg[j2] == group_entry_id(gs, last, j2));
            }
        }
        sg.unique_seq_to_set();
        assert(summary_ids(r).disjoint(sg.to_set())) by {
            assert forall|k: VariationId|
                summary_ids(r).contains(k) implies !sg.to_set().contains(k) by {
                lemma_summary_ids_membership(r, k);
                let (i, j) = choose|i: int, j: int|
                    0 <= i < r.len() && 0 <= j < r[i].counters@.len() && #[trigger] group_entry_id(
                        r,
                        i,
                        j,
                    ) == k;
                // the earlier group's key differs from the last group's
                assert(gs[i].key@ != gs[last].key@);
                if sg.to_set().contains(k) {
                    assert(sg.contains(k));
                    let j2 = choose|j2: int| 0 <= j2 < sg.len() && sg[j2] == k;
                    assert(k.0 == g.key@);
                    assert(k.0 == gs[i].key@);
                }
            }
        }
        vstd::set_lib::lemma_set_disjoint_lens(summary_ids(r), sg.to_set());
        assert(summary_ids(r) + sg.to_set() =~= summary_ids(gs));
    }
}

/// An identity lies among the batch's variations exactly when the batch
/// counts it.
proof fn lemma_batch_variations_membership(events: Seq<Event>, k: VariationId)
    ensures
        batch_variations(events).contains(k) <==> key_count(events, k) > 0,
{
    broadcast use vstd::set::group_set_axioms;

    let accs = events.filter(is_access_pred());
    let ids = accs.map_values(access_id_fn());
    lemma_key_count_pos(events, k);
    if batch_variations(events).contains(k) {
        assert(ids.contains(k));
        let j = choose|j: int| 0 <= j < ids.len() && ids[j] == k;
        assert(access_id(accs[j]) == k);
        events.lemma_filter_pred(is_access_pred(), j);
        assert(is_access(accs[j]));
        assert(accs.contains(accs[j]));
        events.lemma_filter_contains_rev(is_access_pred(), accs[j]);
        let t = choose|t: int| 0 <= t < events.len() && events[t] == accs[j];
        assert(is_access(events[t]) && access_id(events[t]) == k);
    }
    if key_count(events, k) > 0 {
        let t = choose|t: int|
            0 <= t < events.len() && is_access(#[trigger] events[t]) && access_id(events[t]) == k;
        assert(is_access_pred()(events[t]));
        events.lemma_filter_contains(is_access_pred(), t);
        assert(accs.contains(events[t]));
        let j = choose|j: int| 0 <= j < accs.len() && accs[j] == events[t];
        assert(ids[j] == k);
        assert(ids.contains(k));
        assert(ids.to_set().contains(k));
    }
}

/// The numeric form of counter completeness: over all flag keys the
/// summary holds exactly one counter per distinct variation among the
/// batch's access events — no more, no fewer.
pub proof fn lemma_counter_cardinality(events: Seq<Event>, now: u128, a: Access)
    requires
        access_summarizes(events, now, a),
    ensures
        batch_variations(events).finite(),
        total_counters(a.counters@) == batch_variations(events).len(),
{
    broadcast use vstd::set::group_set_axioms;

    lemma_summary_ids_len(a.counters@);
    assert forall|k: VariationId|
        summary_ids(a.counters@).contains(k) <==> batch_variations(events).contains(k) by {
        lemma_summary_ids_membership(a.counters@, k);
        lemma_batch_variations_membership(events, k);
        if groups_have_id(a.counters@, k) {
            let (i, j) = choose|i: int, j: int|
                0 <= i < a.counters@.len() && 0 <= j < a.counters@[i].counters@.len()
                    && #[trigger] group_entry_id(a.counters@, i, j) == k;
            assert(counter_correct(events, a.counters@[i].key@, a.counters@[i].counters@[j]));
            assert(key_count(events, k) > 0);
        }
        if key_count(events, k) > 0 {
            lemma_key_count_pos(events, k);
            let t = choose|t: int|
                0 <= t < events.len() && is_access(#[trigger] events[t]) && access_id(events[t])
                    == k;
            assert(groups_have_id(a.counters@, access_id(events[t])));
        }
    }
    assert(summary_ids(a.counters@) =~= batch_variations(events));
}

/// Two events that agree on everything the aggregator reads: equal
/// outright, or access events identical up to the raw-export flag.
pub open spec fn same_but_export_flag(e1: Event, e2: Event) -> bool {
    ||| e1 == e2
    ||| (e1 is AccessEvent && e2 is AccessEvent && {
        let x = e1->AccessEvent_0;
        let y = e2->AccessEvent_0;
        &&& x.kind == y.kind
        &&& x.time == y.time
        &&& x.key == y.key
        &&& x.user == y.user
        &&& x.value == y.value
        &&& x.variation_index == y.variation_index
        &&& x.version == y.version
        &&& x.rule_index == y.rule_index
    })
}

/// Counting and representative values never read the raw-export flag:
/// toggling it on any access events changes no variation's count and no
/// variation's first value.
pub proof fn lemma_key_stats_ignore_export_flag(s1: Seq<Event>, s2: Seq<Event>, k: VariationId)
    requires
        s1.len() == s2.len(),
        forall|t: int| 0 <= t < s1.len() ==> same_but_export_flag(#[trigger] s1[t], s2[t]),
    ensures
        key_count(s1, k) == key_count(s2, k),
        key_count(s1, k) > 0 ==> first_value(s1, k) == first_value(s2, k),
    decreases s1.len(),
{
    if s1.len() == 0 {
        assert(key_events(s1, k).len() == 0);
        assert(key_events(s2, k).len() == 0);
    } else {
        let r1 = s1.drop_last();
        let r2 = s2.drop_last();
        let x1 = s1.last();
        let x2 = s2.last();
        assert forall|t: int|
            0 <= t < r1.len() implies same_but_export_flag(#[trigger] r1[t], r2[t]) by {
            assert(r1[t] == s1[t]);
            assert(r2[t] == s2[t]);
        }
        lemma_key_stats_ignore_export_flag(r1, r2, k);
        assert(s1 =~= r1.push(x1));
        assert(s2 =~= r2.push(x2));
        r1.lemma_filter_push(x1, id_pred(k));
        r2.lemma_filter_push(x2, id_pred(k));
        assert(same_but_export_flag(x1, x2));
        assert(id_pred(k)(x1) == id_pred(k)(x2));
        if id_pred(k)(x1) {
            assert(key_events(s1, k) == key_events(r1, k).push(x1));
            assert(key_events(s2, k) == key_events(r2, k).push(x2));
            if key_events(r1, k).len() == 0 {
                assert(key_events(s1, k)[0] == x1);
                assert(key_events(s2, k)[0] == x2);
                assert(access_value(x1) == access_value(x2));
            } else {
                assert(key_events(s1, k)[0] == key_events(r1, k)[0]);
                assert(key_events(s2, k)[0] == key_events(r2, k)[0]);
            }
        }
    }
}

/// The whole-result form of export-flag invariance: toggling the
/// raw-export flag of any access events leaves the window summary the
/// same — equal bounds, counters for exactly the same variations, and
/// for any shared variation the same count and the same representative
/// value. Only the packed unit's raw-event list reads the flag.
pub proof fn lemma_summary_ignores_export_flag(
    s1: Seq<Event>,
    s2: Seq<Event>,
    now: u128,
    a1: Access,
    a2: Access,
)
    requires
        s1.len() == s2.len(),
        forall|t: int| 0 <= t < s1.len() ==> same_but_export_flag(#[trigger] s1[t], s2[t]),
        access_summarizes(s1, now, a1),
        access_summarizes(s2, now, a2),
    ensures
        a1.start_time == a2.start_time,
        a1.end_time == a2.end_time,
        forall|k: VariationId|
            groups_have_id(a1.counters@, k) <==> groups_have_id(a2.counters@, k),
        forall|i1: int, j1: int, i2: int, j2: int|
            #![trigger group_entry_id(a1.counters@, i1, j1), group_entry_id(a2.counters@, i2, j2)]
            0 <= i1 < a1.counters@.len() && 0 <= j1 < a1.counters@[i1].counters@.len() && 0 <= i2
                < a2.counters@.len() && 0 <= j2 < a2.counters@[i2].counters@.len()
                && group_entry_id(a1.counters@, i1, j1) == group_entry_id(a2.counters@, i2, j2)
                ==> a1.counters@[i1].counters@[j1].count == a2.counters@[i2].counters@[j2].count
                && a1.counters@[i1].counters@[j1].value == a2.counters@[i2].counters@[j2].value,
{
    // pointwise agreement on what the window bounds read
    assert forall|t: int|
        0 <= t < s1.len() implies is_access(#[trigger] s1[t]) == is_access(s2[t]) && (is_access(
        s1[t],
    ) ==> access_time(s1[t]) == access_time(s2[t])) by {}
    if has_access(s1) {
        let t = choose|t: int| 0 <= t < s1.len() && is_access(#[trigger] s1[t]);
        assert(is_access(s2[t]));
        assert(has_access(s2));
    }
    if has_access(s2) {
        let t = choose|t: int| 0 <= t < s2.len() && is_access(#[trigger] s2[t]);
        assert(is_access(s1[t]));
        assert(has_access(s1));
    }
    if has_access(s1) {
        let ts = choose|t: int|
            0 <= t < s1.len() && is_access(#[trigger] s1[t]) && access_time(s1[t])
                == a1.start_time;
        assert(a2.start_time <= access_time(s2[ts]));
        let us = choose|t: int|
            0 <= t < s2.len() && is_access(#[trigger] s2[t]) && access_time(s2[t])
                == a2.start_time;
        assert(a1.start_time <= access_time(s1[us]));
        let te = choose|t: int|
            0 <= t < s1.len() && is_access(#[trigger] s1[t]) && access_time(s1[t]) == a1.end_time;
        assert(access_time(s2[te]) <= a2.end_time);
        let ue = choose|t: int|
            0 <= t < s2.len() && is_access(#[trigger] s2[t]) && access_time(s2[t]) == a2.end_time;
        assert(access_time(s1[ue]) <= a1.end_time);
    }
    assert forall|k: VariationId| #[trigger] key_count(s1, k) == key_count(s2, k) by {
        lemma_key_stats_ignore_export_flag(s1, s2, k);
    }
    lemma_ids_transfer(s1, s2, a1, a2);
    assert forall|k: VariationId| #[trigger] key_count(s2, k) == key_count(s1, k) by {
        lemma_key_stats_ignore_export_flag(s1, s2, k);
    }
    lemma_ids_transfer(s2, s1, a2, a1);
    assert forall|i1: int, j1: int, i2: int, j2: int|
        #![trigger group_entry_id(a1.counters@, i1, j1), group_entry_id(a2.counters@, i2, j2)]
        0 <= i1 < a1.counters@.len() && 0 <= j1 < a1.counters@[i1].counters@.len() && 0 <= i2
            < a2.counters@.len() && 0 <= j2 < a2.counters@[i2].counters@.len()
            && group_entry_id(a1.counters@, i1, j1) == group_entry_id(a2.counters@, i2, j2) implies a1.counters@[i1].counters@[j1].count
        == a2.counters@[i2].counters@[j2].count && a1.counters@[i1].counters@[j1].value
        == a2.counters@[i2].counters@[j2].value by {
        let k = group_entry_id(a1.counters@, i1, j1);
        assert(counter_correct(s1, a1.counters@[i1].key@, a1.counters@[i1].counters@[j1]));
        assert(counter_correct(s2, a2.counters@[i2].key@, a2.counters@[i2].counters@[j2]));
        lemma_key_stats_ignore_export_flag(s1, s2, k);
    }
}

/// A non-access event changes neither the counters' soundness nor their
/// completeness.
proof fn lemma_groups_skip_event(prefix: Seq<Event>, ev: Event, gs: Seq<FlagCounters>)
    requires
        !is_access(ev),
        groups_sound(prefix, gs),
        groups_complete(prefix, gs),
    ensures
        groups_sound(prefix.push(ev), gs),
        groups_complete(prefix.push(ev), gs),
{
    let p1 = prefix.push(ev);
    assert forall|i: int, j: int|
        0 <= i < gs.len() && 0 <= j < gs[i].counters@.len() implies counter_correct(
        p1,
        gs[i].key@,
        #[trigger] gs[i].counters@[j],
    ) by {
        lemma_key_stats_push(prefix, ev, group_entry_id(gs, i, j));
    }
    assert forall|t: int| 0 <= t < p1.len() && is_access(#[trigger] p1[t]) implies groups_have_id(
        gs,
        access_id(p1[t]),
    ) by {
        assert(t < prefix.len());
        assert(p1[t] == prefix[t]);
    }
}

/// How the window bounds move when one access event is appended.
proof fn lemma_time_bounds_push(
    prefix: Seq<Event>,
    ev: Event,
    os: u128,
    oe: u128,
    ns: u128,
    ne: u128,
    ohas: bool,
)
    requires
        is_access(ev),
        ohas == has_access(prefix),
        ohas ==> times_bounded(prefix, os, oe) && time_attained(prefix, os) && time_attained(
            prefix,
            oe,
        ),
        ns == if ohas && os < access_time(ev) {
            os
        } else {
            access_time(ev)
        },
        ne == if ohas && oe > access_time(ev) {
            oe
        } else {
            access_time(ev)
        },
    ensures
        has_access(prefix.push(ev)),
        times_bounded(prefix.push(ev), ns, ne),
        time_attained(prefix.push(ev), ns),
        time_attained(prefix.push(ev), ne),
{
    let p1 = prefix.push(ev);
    let last = prefix.len() as int;
    assert(p1[last] == ev);
    assert(is_access(p1[last]));
    assert forall|t: int| 0 <= t < p1.len() && is_access(#[trigger] p1[t]) implies ns
        <= access_time(p1[t]) && access_time(p1[t]) <= ne by {
        if t < prefix.len() {
            assert(p1[t] == prefix[t]);
        }
    }
    if ohas && os < access_time(ev) {
        let t0 = choose|t: int|
            0 <= t < prefix.len() && is_access(#[trigger] prefix[t]) && access_time(prefix[t])
                == os;
        assert(p1[t0] == prefix[t0]);
        assert(time_attained(p1, ns));
    } else {
        assert(access_time(p1[last]) == ns);
    }
    if ohas && oe > access_time(ev) {
        let t1 = choose|t: int|
            0 <= t < prefix.len() && is_access(#[trigger] prefix[t]) && access_time(prefix[t])
                == oe;
        assert(p1[t1] == prefix[t1]);
        assert(time_attained(p1, ne));
    } else {
        assert(access_time(p1[last]) == ne);
    }
}

/// A non-access event leaves the window bounds untouched.
proof fn lemma_time_bounds_skip(prefix: Seq<Event>, ev: Event, os: u128, oe: u128, ohas: bool)
    requires
        !is_access(ev),
        ohas == has_access(prefix),
        ohas ==> times_bounded(prefix, os, oe) && time_attained(prefix, os) && time_attained(
            prefix,
            oe,
        ),
    ensures
        has_access(prefix.push(ev)) == ohas,
        ohas ==> times_bounded(prefix.push(ev), os, oe) && time_attained(prefix.push(ev), os)
            && time_attained(prefix.push(ev), oe),
{
    let p1 = prefix.push(ev);
    assert forall|t: int| 0 <= t < p1.len() && is_access(#[trigger] p1[t]) implies t
        < prefix.len() && p1[t] == prefix[t] by {}
    if has_access(p1) {
        assert(has_access(prefix));
    }
    if ohas {
        let t0 = choose|t: int| 0 <= t < prefix.len() && is_access(#[trigger] prefix[t]);
        assert(p1[t0] == prefix[t0]);
        assert(has_access(p1));
        let ts = choose|t: int|
            0 <= t < prefix.len() && is_access(#[trigger] prefix[t]) && access_time(prefix[t])
                == os;
        assert(p1[ts] == prefix[ts]);
        let te = choose|t: int|
            0 <= t < prefix.len() && is_access(#[trigger] prefix[t]) && access_time(prefix[t])
                == oe;
        assert(p1[te] == prefix[te]);
    }
}

/// Absorbing an access event whose variation already has a counter: only
/// that counter's count rises, by one.
proof fn lemma_groups_bump_counter(
    prefix: Seq<Event>,
    ev: Event,
    gs: Seq<FlagCounters>,
    gs1: Seq<FlagCounters>,
    gi: int,
    ci: int,
)
    requires
        is_access(ev),
        groups_sound(prefix, gs),
        groups_complete(prefix, gs),
        groups_distinct(gs),
        groups_nonempty(gs),
        0 <= gi < gs.len(),
        0 <= ci < gs[gi].counters@.len(),
        group_entry_id(gs, gi, ci) == access_id(ev),
        gs1.len() == gs.len(),
        forall|x: int| 0 <= x < gs.len() && x != gi ==> gs1[x] == gs[x],
        gs1[gi].key@ == gs[gi].key@,
        gs1[gi].counters@.len() == gs[gi].counters@.len(),
        forall|y: int|
            0 <= y < gs[gi].counters@.len() && y != ci ==> gs1[gi].counters@[y]
                == gs[gi].counters@[y],
        gs1[gi].counters@[ci].index == gs[gi].counters@[ci].index,
        gs1[gi].counters@[ci].version == gs[gi].counters@[ci].version,
        gs1[gi].counters@[ci].value == gs[gi].counters@[ci].value,
        gs1[gi].counters@[ci].count == gs[gi].counters@[ci].count + 1,
    ensures
        groups_sound(prefix.push(ev), gs1),
        groups_complete(prefix.push(ev), gs1),
        groups_distinct(gs1),
        groups_nonempty(gs1),
{
    let p1 = prefix.push(ev);
    let k = access_id(ev);
    assert forall|i: int, j: int|
        0 <= i < gs.len() && 0 <= j < gs[i].counters@.len() implies #[trigger] group_entry_id(
        gs1,
        i,
        j,
    ) == group_entry_id(gs, i, j) && gs1[i].counters@.len() == gs[i].counters@.len() by {
        if i != gi {
            assert(gs1[i] == gs[i]);
        }
    }
    assert forall|i: int, j: int|
        0 <= i < gs1.len() && 0 <= j < gs1[i].counters@.len() implies counter_correct(
        p1,
        gs1[i].key@,
        #[trigger] gs1[i].counters@[j],
    ) by {
        let eid = group_entry_id(gs, i, j);
        lemma_key_stats_push(prefix, ev, eid);
        assert(counter_correct(prefix, gs[i].key@, gs[i].counters@[j]));
        if i == gi && j == ci {
            assert(id_pred(eid)(ev));
            assert(key_events(p1, eid) == key_events(prefix, eid).push(ev));
            assert(key_events(p1, eid)[0] == key_events(prefix, eid)[0]);
        } else {
            // a second counter for the event's variation would violate
            // distinctness, so this one is untouched by the event
            if eid == k {
                if i == gi {
                    assert(group_entry_id(gs, gi, j) != group_entry_id(gs, gi, ci));
                } else {
                    assert(gs[i].key@ == gs[gi].key@);
                }
                assert(false);
            }
            assert(!(id_pred(eid)(ev)));
            assert(gs1[i].counters@[j] == gs[i].counters@[j]);
        }
    }
    assert forall|t: int| 0 <= t < p1.len() && is_access(#[trigger] p1[t]) implies groups_have_id(
        gs1,
        access_id(p1[t]),
    ) by {
        if t < prefix.len() {
            assert(p1[t] == prefix[t]);
            let (wi, wj) = choose|wi: int, wj: int|
                0 <= wi < gs.len() && 0 <= wj < gs[wi].counters@.len()
                    && #[trigger] group_entry_id(gs, wi, wj) == access_id(prefix[t]);
            assert(group_entry_id(gs1, wi, wj) == access_id(p1[t]));
        } else {
            assert(group_entry_id(gs1, gi, ci) == k);
        }
    }
}

/// Absorbing the first access event of a new variation of a flag that
/// already has a group: one fresh counter with count one joins that group.
proof fn lemma_groups_new_counter(
    prefix: Seq<Event>,
    ev: Event,
    gs: Seq<FlagCounters>,
    gs1: Seq<FlagCounters>,
    gi: int,
)
    requires
        is_access(ev),
        groups_sound(prefix, gs),
        groups_complete(prefix, gs),
        groups_distinct(gs),
        groups_nonempty(gs),
        0 <= gi < gs.len(),
        gs[gi].key@ == access_id(ev).0,
        !groups_have_id(gs, access_id(ev)),
        gs1.len() == gs.len(),
        forall|x: int| 0 <= x < gs.len() && x != gi ==> gs1[x] == gs[x],
        gs1[gi].key@ == gs[gi].key@,
        gs1[gi].counters@.len() == gs[gi].counters@.len() + 1,
        forall|y: int|
            0 <= y < gs[gi].counters@.len() ==> gs1[gi].counters@[y] == gs[gi].counters@[y],
        gs1[gi].counters@.last().index as int == access_id(ev).1,
        gs1[gi].counters@.last().version == access_id(ev).2,
        gs1[gi].counters@.last().value == access_value(ev),
        gs1[gi].counters@.last().count == 1,
    ensures
        groups_sound(prefix.push(ev), gs1),
        groups_complete(prefix.push(ev), gs1),
        groups_distinct(gs1),
        groups_nonempty(gs1),
{
    let p1 = prefix.push(ev);
    let k = access_id(ev);
    let newj = gs[gi].counters@.len() as int;
    lemma_absent_id_count_zero(prefix, gs, k);
    assert forall|i: int, j: int|
        0 <= i < gs.len() && 0 <= j < gs[i].counters@.len() implies #[trigger] group_entry_id(
        gs1,
        i,
        j,
    ) == group_entry_id(gs, i, j) by {
        if i != gi {
            assert(gs1[i] == gs[i]);
        }
    }
    assert(group_entry_id(gs1, gi, newj) == k);
    // distinctness: the new counter's identity is in no old entry
    assert forall|i: int, j: int|
        0 <= i < gs.len() && 0 <= j < gs[i].counters@.len() implies group_entry_id(gs, i, j)
            != k by {
        if group_entry_id(gs, i, j) == k {
            assert(groups_have_id(gs, k));
        }
    }
    assert forall|i: int, j: int|
        0 <= i < gs1.len() && 0 <= j < gs1[i].counters@.len() implies counter_correct(
        p1,
        gs1[i].key@,
        #[trigger] gs1[i].counters@[j],
    ) by {
        if i == gi && j == newj {
            lemma_key_stats_push(prefix, ev, k);
            assert(id_pred(k)(ev));
            assert(key_events(prefix, k).len() == 0);
            assert(key_events(p1, k) == key_events(prefix, k).push(ev));
            assert(key_events(p1, k)[0] == ev);
        } else {
            let eid = group_entry_id(gs, i, j);
            lemma_key_stats_push(prefix, ev, eid);
            assert(counter_correct(prefix, gs[i].key@, gs[i].counters@[j]));
            assert(eid != k);
            assert(!(id_pred(eid)(ev)));
            assert(gs1[i].counters@[j] == gs[i].counters@[j]);
        }
    }
    assert forall|t: int| 0 <= t < p1.len() && is_access(#[trigger] p1[t]) implies groups_have_id(
        gs1,
        access_id(p1[t]),
    ) by {
        if t < prefix.len() {
            assert(p1[t] == prefix[t]);
            let (wi, wj) = choose|wi: int, wj: int|
                0 <= wi < gs.len() && 0 <= wj < gs[wi].counters@.len()
                    && #[trigger] group_entry_id(gs, wi, wj) == access_id(prefix[t]);
            assert(group_entry_id(gs1, wi, wj) == access_id(p1[t]));
        } else {
            assert(group_entry_id(gs1, gi, newj) == k);
        }
    }
}

/// Absorbing the first access event of a flag key no group carries yet:
/// a fresh group with one counter of count one is appended.
proof fn lemma_groups_new_group(
    prefix: Seq<Event>,
    ev: Event,
    gs: Seq<FlagCounters>,
    gs1: Seq<FlagCounters>,
)
    requires
        is_access(ev),
        groups_sound(prefix, gs),
        groups_complete(prefix, gs),
        groups_distinct(gs),
        groups_nonempty(gs),
        forall|x: int| 0 <= x < gs.len() ==> (#[trigger] gs[x].key@) != access_id(ev).0,
        gs1.len() == gs.len() + 1,
        forall|x: int| 0 <= x < gs.len() ==> gs1[x] == gs[x],
        gs1.last().key@ == access_id(ev).0,
        gs1.last().counters@.len() == 1,
        gs1.last().counters@[0].index as int == access_id(ev).1,
        gs1.last().counters@[0].version == access_id(ev).2,
        gs1.last().counters@[0].value == access_value(ev),
        gs1.last().counters@[0].count == 1,
    ensures
        groups_sound(prefix.push(ev), gs1),
        groups_complete(prefix.push(ev), gs1),
        groups_distinct(gs1),
        groups_nonempty(gs1),
{
    let p1 = prefix.push(ev);
    let k = access_id(ev);
    let newi = gs.len() as int;
    assert forall|i: int, j: int|
        0 <= i < gs.len() && 0 <= j < gs[i].counters@.len() implies #[trigger] group_entry_id(
        gs1,
        i,
        j,
    ) == group_entry_id(gs, i, j) && group_entry_id(gs, i, j) != k by {
        assert(gs1[i] == gs[i]);
        assert(gs[i].key@ != k.0);
    }
    assert(!groups_have_id(gs, k));
    lemma_absent_id_count_zero(prefix, gs, k);
    assert(group_entry_id(gs1, newi, 0) == k);
    assert forall|i: int, j: int|
        0 <= i < gs1.len() && 0 <= j < gs1[i].counters@.len() implies counter_correct(
        p1,
        gs1[i].key@,
        #[trigger] gs1[i].counters@[j],
    ) by {
        if i == newi {
            assert(j == 0);
            lemma_key_stats_push(prefix, ev, k);
            assert(id_pred(k)(ev));
            assert(key_events(prefix, k).len() == 0);
            assert(key_events(p1, k) == key_events(prefix, k).push(ev));
            assert(key_events(p1, k)[0] == ev);
        } else {
            let eid = group_entry_id(gs, i, j);
            lemma_key_stats_push(prefix, ev, eid);
            assert(counter_correct(prefix, gs[i].key@, gs[i].counters@[j]));
            assert(!(id_pred(eid)(ev)));
            assert(gs1[i].counters@[j] == gs[i].counters@[j]);
        }
    }
    assert forall|t: int| 0 <= t < p1.len() && is_access(#[trigger] p1[t]) implies groups_have_id(
        gs1,
        access_id(p1[t]),
    ) by {
        if t < prefix.len() {
            assert(p1[t] == prefix[t]);
            let (wi, wj) = choose|wi: int, wj: int|
                0 <= wi < gs.len() && 0 <= wj < gs[wi].counters@.len()
                    && #[trigger] group_entry_id(gs, wi, wj) == access_id(prefix[t]);
            assert(group_entry_id(gs1, wi, wj) == access_id(p1[t]));
        } else {
            assert(group_entry_id(gs1, newi, 0) == k);
        }
    }
}

fn opt_u64_eq(a: &Option<u64>, b: &Option<u64>) -> (r: bool)
    ensures
        r == (*a == *b),
{
    match (a, b) {
        (Some(x), Some(y)) => *x == *y,
        (None, None) => true,
        _ => false,
    }
}

/// The position of the group for `key`, if one exists.
fn find_group(groups: &Vec<FlagCounters>, key: &String) -> (r: Option<usize>)
    ensures
        match r {
            Some(i) => i < groups@.len() && groups@[i as int].key@ == key@,
            None => forall|x: int| 0 <= x < groups@.len() ==> (#[trigger] groups@[x].key@) != key@,
        },
{
    let n = groups.len();
    let mut i: usize = 0;
    while i < n
        invariant
            n == groups@.len(),
            i <= n,
            forall|x: int| 0 <= x < i ==> (#[trigger] groups@[x].key@) != key@,
        decreases n - i,
    {
        if groups[i].key == *key {
            return Some(i);
        }
        i += 1;
    }
    None
}

/// The position of the counter for the event's variation index and flag
/// version within one flag's group, if one exists.
fn find_counter(counters: &Vec<ToggleCounter>, a: &AccessEvent) -> (r: Option<usize>)
    ensures
        match r {
            Some(j) => j < counters@.len() && counters@[j as int].index == a.variation_index
                && counters@[j as int].version == a.version,
            None => forall|y: int|
                0 <= y < counters@.len() ==> !(#[trigger] counters@[y].index == a.variation_index
                    && counters@[y].version == a.version),
        },
{
    let n = counters.len();
    let mut j: usize = 0;
    while j < n
        invariant
            n == counters@.len(),
            j <= n,
            forall|y: int|
                0 <= y < j ==> !(#[trigger] counters@[y].index == a.variation_index
                    && counters@[y].version == a.version),
        decreases n - j,
    {
        if counters[j].index == a.variation_index && opt_u64_eq(&counters[j].version, &a.version) {
            return Some(j);
        }
        j += 1;
    }
    None
}

/// Reduces one batch to its window summary: the true minimum and
/// maximum access timestamp and one correct counter per variation,
/// grouped by flag key, exactly as [`access_summarizes`] states. `now`
/// is the cycle's own timestamp: a batch without access events yields
/// the empty summary with both bounds clamped to it.
pub fn build_access(events: &Vec<Event>, now: u128) -> (access: Access)
    ensures
        access_summarizes(events@, now, access),
{
    let ghost all = events@;
    let mut groups: Vec<FlagCounters> = Vec::new();
    let mut start_time: u128 = now;
    let mut end_time: u128 = now;
    let mut seen: bool = false;
    let n = events.len();
    let mut i: usize = 0;
    while i < n
        invariant
            n == all.len(),
            events@ == all,
            i <= n,
            groups_sound(all.take(i as int), groups@),
            groups_complete(all.take(i as int), groups@),
            groups_distinct(groups@),
            groups_nonempty(groups@),
            seen == has_access(all.take(i as int)),
            seen ==> times_bounded(all.take(i as int), start_time, end_time) && time_attained(
                all.take(i as int),
                start_time,
            ) && time_attained(all.take(i as int), end_time),
            !seen ==> start_time == now && end_time == now,
        decreases n - i,
    {
        let ghost prefix = all.take(i as int);
        let ghost ev = all[i as int];
        proof {
            all.lemma_take_succ_push(i as int);
            assert(all.take(i as int + 1) == prefix.push(ev));
        }
        let e: &Event = &events[i];
        match e {
            Event::AccessEvent(a) => {
                proof {
                    assert(ev is AccessEvent);
                    assert(*a == ev->AccessEvent_0);
                }
                let ghost k = access_id(ev);
                let ghost ohas = seen;
                let ghost os = start_time;
                let ghost oe = end_time;
                if !seen {
                    seen = true;
                    start_time = a.time;
                    end_time = a.time;
                } else {
                    if a.time < start_time {
                        start_time = a.time;
                    }
                    if a.time > end_time {
                        end_time = a.time;
                    }
                }
                proof {
                    lemma_time_bounds_push(prefix, ev, os, oe, start_time, end_time, ohas);
                }
                let ghost gs = groups@;
                match find_group(&groups, &a.key) {
                    Some(gi) => {
                        match find_counter(&groups[gi].counters, a) {
                            Some(ci) => {
                                proof {
                                    assert(group_entry_id(gs, gi as int, ci as int) == k);
                                    assert(counter_correct(
                                        prefix,
                                        gs[gi as int].key@,
                                        gs[gi as int].counters@[ci as int],
                                    ));
                                    // the count is at most the prefix length
                                    prefix.lemma_filter_len(id_pred(k));
                                }
                                let mut g = groups.remove(gi);
                                let tc = g.counters.remove(ci);
                                let bumped = ToggleCounter {
                                    value: tc.value,
                                    version: tc.version,
                                    index: tc.index,
                                    count: tc.count + 1,
                                };
                                g.counters.insert(ci, bumped);
                                groups.insert(gi, g);
                                proof {
                                    assert(groups@.len() == gs.len());
                                    assert forall|x: int|
                                        0 <= x < gs.len() && x != gi implies groups@[x]
                                        == gs[x] by {}
                                    lemma_groups_bump_counter(
                                        prefix,
                                        ev,
                                        gs,
                                        groups@,
                                        gi as int,
                                        ci as int,
                                    );
                                }
                            },
                            None => {
                                proof {
                                    assert forall|wi: int, wj: int|
                                        0 <= wi < gs.len() && 0 <= wj
                                            < gs[wi].counters@.len() implies #[trigger] group_entry_id(
                                        gs,
                                        wi,
                                        wj,
                                    ) != k by {
                                        if wi == gi {
                                            assert(gs[wi].counters@[wj].index
                                                != a.variation_index || gs[wi].counters@[wj].version
                                                != a.version);
                                        } else {
                                            assert(gs[wi].key@ != gs[gi as int].key@);
                                        }
                                    }
                                    assert(!groups_have_id(gs, k));
                                }
                                let fresh = ToggleCounter {
                                    value: clone_value(&a.value),
                                    version: a.version,
                                    index: a.variation_index,
                                    count: 1,
                                };
                                let mut g = groups.remove(gi);
                                g.counters.push(fresh);
                                groups.insert(gi, g);
                                proof {
                                    assert(groups@.len() == gs.len());
                                    assert forall|x: int|
                                        0 <= x < gs.len() && x != gi implies groups@[x]
                                        == gs[x] by {}
                                    lemma_groups_new_counter(prefix, ev, gs, groups@, gi as int);
                                }
                            },
                        }
                    },
                    None => {
                        let fresh = ToggleCounter {
                            value: clone_value(&a.value),
                            version: a.version,
                            index: a.variation_index,
                            count: 1,
                        };
                        let mut fresh_counters: Vec<ToggleCounter> = Vec::new();
                        fresh_counters.push(fresh);
                        let group = FlagCounters { key: a.key.clone(), counters: fresh_counters };
                        groups.push(group);
                        proof {
                            lemma_groups_new_group(prefix, ev, gs, groups@);
                        }
                    },
                }
            },
            _ => {
                proof {
                    assert(!is_access(ev));
                    lemma_groups_skip_event(prefix, ev, groups@);
                    lemma_time_bounds_skip(prefix, ev, start_time, end_time, seen);
                }
            },
        }
        i += 1;
    }
    proof {
        assert(all.take(n as int) == all);
        if !seen && groups@.len() > 0 {
            // a counter would have a positive count, so some access event
            // would exist — but the batch has none
            assert(groups@[0].counters@.len() > 0);
            let c = groups@[0].counters@[0];
            assert(counter_correct(all, groups@[0].key@, c));
            let kid = (groups@[0].key@, c.index as int, c.version);
            assert(key_events(all, kid).len() > 0);
            all.lemma_filter_pred(id_pred(kid), 0);
            let w = key_events(all, kid)[0];
            assert(id_pred(kid)(w));
            assert(key_events(all, kid).contains(w));
            all.lemma_filter_contains_rev(id_pred(kid), w);
            assert(all.contains(w));
            let wt = choose|wt: int| 0 <= wt < all.len() && all[wt] == w;
            assert(is_access(all[wt]));
            assert(has_access(all));
        }
    }
    Access { start_time, end_time, counters: groups }
}

} // verus!
