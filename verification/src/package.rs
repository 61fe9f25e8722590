//! Packing one drained batch into a transmissible unit.
//!
//! One reduction pass over the batch yields two parallel outputs computed
//! from the identical snapshot: the aggregated window summary, which
//! counts every access event, and the raw-event list, which keeps only
//! the access events marked for raw export — custom and debug events
//! always pass through.

use vstd::prelude::*;
use crate::aggregate::{access_summarizes, build_access};
use crate::event::{Event, PackedData};

verus! {

broadcast use vstd::seq_lib::group_seq_properties;

/// Whether a raw event may appear in the packed batch's raw-event list:
/// access events only when marked for export, everything else always.
pub open spec fn exported(e: Event) -> bool {
    match e {
        Event::AccessEvent(a) => a.track_access_events,
        _ => true,
    }
}

pub open spec fn exported_pred() -> spec_fn(Event) -> bool {
    |e: Event| exported(e)
}

/// The raw events a batch exports, in arrival order.
pub open spec fn raw_export(events: Seq<Event>) -> Seq<Event> {
    events.filter(exported_pred())
}

/// One packed batch faithfully represents one drained batch stamped
/// `now`: its raw list is exactly the exported events and its summary
/// aggregates all of them.
pub open spec fn packs(batch: Seq<Event>, now: u128, unit: PackedData) -> bool {
    &&& unit.events@ == raw_export(batch)
    &&& access_summarizes(batch, now, unit.access)
}

/// Keeps exactly the events [`exported`] admits, in arrival order,
/// consuming the batch.
pub fn build_events(events: Vec<Event>) -> (kept: Vec<Event>)
    ensures
        kept@ == raw_export(events@),
{
    let ghost all = events@;
    let mut rest = events;
    let mut kept: Vec<Event> = Vec::new();
    proof {
        assert(all.take(0) =~= Seq::<Event>::empty());
        assert(all.take(0).filter(exported_pred()) =~= Seq::<Event>::empty());
    }
    while rest.len() > 0
        invariant
            rest@.len() <= all.len(),
            rest@ == all.skip(all.len() - rest@.len()),
            kept@ == raw_export(all.take(all.len() - rest@.len())),
        decreases rest@.len(),
    {
        let ghost done = all.len() - rest@.len();
        let e = rest.remove(0);
        proof {
            assert(e == all[done]);
            assert(rest@ =~= all.skip(done + 1));
            all.lemma_take_succ_push(done);
            assert(all.take(done + 1) == all.take(done).push(e));
            all.take(done).lemma_filter_push(e, exported_pred());
        }
        let keep = match &e {
            Event::AccessEvent(a) => a.track_access_events,
            _ => true,
        };
        if keep {
            kept.push(e);
        }
    }
    proof {
        assert(all.take(all.len() as int) == all);
    }
    kept
}

/// Packs one drained batch stamped with the cycle's own timestamp
/// `now`: aggregates every access event into the window summary, then
/// keeps the exported raw events. The batch is consumed — a raw event
/// lives on only inside the unit.
pub fn build_packed_data(events: Vec<Event>, now: u128) -> (unit: PackedData)
    ensures
        packs(events@, now, unit),
{
    let access = build_access(&events, now);
    let kept = build_events(events);
    PackedData { events: kept, access }
}

} // verus!
