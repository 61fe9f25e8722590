//! The recorder core: the state a flush scheduler drives.
//!
//! Producers append events; each timer tick runs one flush cycle. The
//! cycle itself is split at the I/O boundary: [`EventRecorder::begin_flush`]
//! drains the batch, packs it, pushes the unit into the retry buffer and
//! detaches the whole backlog as the payload of one delivery attempt;
//! the caller performs the HTTP POST and reports back through
//! [`EventRecorder::on_delivery`], which restores the backlog when the
//! attempt failed and discards it when it succeeded. Timer, locks and
//! transport live with the caller; every decision is made — and proved —
//! here.

use vstd::prelude::*;
use std::collections::VecDeque;
use crate::buffer::EventBuffer;
use crate::event::{Event, PackedData};
use crate::package::{build_packed_data, packs};
use crate::retry::{push_model, RetryBuffer};

verus! {

/// The verified state of the event recorder: the accumulating raw-event
/// buffer and the bounded backlog of undelivered packed batches.
pub struct EventRecorder {
    buffer: EventBuffer,
    retry: RetryBuffer,
}

impl EventRecorder {
    /// The raw events recorded since the last flush cycle, oldest first.
    pub closed spec fn pending(&self) -> Seq<Event> {
        self.buffer@
    }

    /// The packed batches awaiting successful delivery, oldest first.
    pub closed spec fn backlog(&self) -> Seq<PackedData> {
        self.retry.contents()
    }

    /// The retry buffer's fixed capacity.
    pub closed spec fn cap(&self) -> nat {
        self.retry.cap()
    }

    /// The backlog never exceeds the capacity.
    pub closed spec fn wf(&self) -> bool {
        self.retry.wf()
    }

    /// A fresh recorder with nothing pending and nothing to retry. The
    /// capacity bounds the backlog for the whole lifetime.
    pub fn new(capacity: usize) -> (r: EventRecorder)
        ensures
            r.wf(),
            r.cap() == capacity,
            r.pending() == Seq::<Event>::empty(),
            r.backlog() == Seq::<PackedData>::empty(),
    {
        EventRecorder { buffer: EventBuffer::new(), retry: RetryBuffer::new(capacity) }
    }

    /// How many events wait for the next flush cycle.
    pub fn pending_len(&self) -> (n: usize)
        ensures
            n == self.pending().len(),
    {
        self.buffer.len()
    }

    /// How many packed batches wait for a successful delivery.
    pub fn backlog_len(&self) -> (n: usize)
        ensures
            n == self.backlog().len(),
    {
        self.retry.len()
    }

    /// The retry buffer's fixed capacity.
    pub fn capacity(&self) -> (c: usize)
        ensures
            c == self.cap(),
    {
        self.retry.capacity()
    }

    /// Appends one event for the next flush cycle. Total: producers never
    /// observe an error and are never slowed by delivery.
    pub fn record_event(&mut self, event: Event)
        requires
            old(self).wf(),
        ensures
            final(self).wf(),
            final(self).cap() == old(self).cap(),
            final(self).pending() == old(self).pending().push(event),
            final(self).backlog() == old(self).backlog(),
    {
        self.buffer.record(event);
    }

    /// The first half of one flush cycle: drains the pending batch and,
    /// when it is non-empty, packs it under the cycle's own timestamp
    /// `now` (which bounds a window without access events), pushes the
    /// unit into the retry buffer (evicting the oldest unit if the
    /// buffer was full) and detaches the whole backlog as the payload of
    /// one delivery attempt. Returns `None` — and changes no backlog —
    /// when nothing was recorded since the previous drain.
    pub fn begin_flush(&mut self, now: u128) -> (payload: Option<VecDeque<PackedData>>)
        requires
            old(self).wf(),
        ensures
            final(self).wf(),
            final(self).cap() == old(self).cap(),
            final(self).pending() == Seq::<Event>::empty(),
            match payload {
                None => old(self).pending().len() == 0 && final(self).backlog() == old(
                    self,
                ).backlog(),
                Some(units) => {
                    &&& old(self).pending().len() > 0
                    &&& final(self).backlog() == Seq::<PackedData>::empty()
                    &&& units@.len() <= old(self).cap()
                    &&& exists|u: PackedData|
                        #[trigger] packs(old(self).pending(), now, u) && units@ == push_model(
                            old(self).backlog(),
                            u,
                            old(self).cap(),
                        )
                },
            },
    {
        let batch = self.buffer.drain_all();
        if batch.len() == 0 {
            return None;
        }
        let ghost batch_view = batch@;
        let unit = build_packed_data(batch, now);
        let ghost unit_ghost = unit;
        self.retry.push(unit);
        let units = self.retry.snapshot_and_detach();
        proof {
            assert(packs(batch_view, now, unit_ghost));
        }
        Some(units)
    }

    /// The second half of one flush cycle: the caller reports how the
    /// delivery attempt for the detached payload ended. On success the
    /// payload is discarded for good; on failure it is restored verbatim,
    /// so the next cycle retries the whole accumulated backlog.
    pub fn on_delivery(&mut self, payload: VecDeque<PackedData>, success: bool)
        requires
            old(self).wf(),
            payload@.len() <= old(self).cap(),
        ensures
            final(self).wf(),
            final(self).cap() == old(self).cap(),
            final(self).pending() == old(self).pending(),
            success ==> final(self).backlog() == old(self).backlog(),
            !success ==> final(self).backlog() == payload@,
    {
        if !success {
            self.retry.restore(payload);
        }
    }
}

/// One failed delivery followed by one successful delivery hands the
/// transport the union of both cycles' units, in original order, each
/// exactly once — provided the capacity admits both, so that nothing is
/// evicted. In the model of [`EventRecorder::begin_flush`]: the first
/// cycle's payload from an empty backlog is its unit alone; after the
/// failure restores that payload, the second cycle's payload is the first
/// unit followed by the second.
pub proof fn lemma_failed_then_delivered(u1: PackedData, u2: PackedData, cap: nat)
    requires
        cap >= 2,
    ensures
        push_model(Seq::<PackedData>::empty(), u1, cap) == seq![u1],
        push_model(seq![u1], u2, cap) == seq![u1, u2],
{
    assert(push_model(Seq::<PackedData>::empty(), u1, cap) =~= seq![u1]);
    assert(push_model(seq![u1], u2, cap) =~= seq![u1, u2]);
}

/// Relies on `std::time::SystemTime::now`, `duration_since` and
/// `Duration::as_millis`: the wall clock as milliseconds since the Unix
/// epoch. Total: a clock that reads before the epoch yields zero rather
/// than a panic. Nothing can be promised of a clock reading.
#[verifier::external_body]
fn clock_unix_millis() -> u128 {
    match std::time::SystemTime::now().duration_since(std::time::UNIX_EPOCH) {
        Ok(since_epoch) => since_epoch.as_millis(),
        Err(_) => 0,
    }
}

/// The wall clock as milliseconds since the Unix epoch, for producers
/// stamping the events they record and for the scheduler stamping a
/// cycle. A pre-epoch clock reads as zero; the reading is otherwise the
/// transport boundary's word, and the recorder only ever stores it.
pub fn unix_timestamp() -> u128 {
    clock_unix_millis()
}

} // verus!
