//! The accumulator of raw events between two flush cycles.
//!
//! Producers append; the scheduler periodically takes everything out in one
//! step. The owner is expected to wrap the buffer in a mutual-exclusion
//! primitive; the operations themselves are plain and total, so a producer
//! is never slowed by more than the lock.

use vstd::prelude::*;
use crate::event::Event;

verus! {

/// A mutable accumulator of raw events, drained wholesale by the flush
/// scheduler.
pub struct EventBuffer {
    events: Vec<Event>,
}

impl View for EventBuffer {
    type V = Seq<Event>;

    closed spec fn view(&self) -> Seq<Event> {
        self.events@
    }
}

impl EventBuffer {
    /// An empty buffer.
    pub fn new() -> (b: EventBuffer)
        ensures
            b@ == Seq::<Event>::empty(),
    {
        EventBuffer { events: Vec::new() }
    }

    /// Appends one event. Never fails and never drops: overflow protection
    /// lives downstream in the retry buffer, not here.
    pub fn record(&mut self, event: Event)
        ensures
            final(self)@ == old(self)@.push(event),
    {
        self.events.push(event);
    }

    /// Takes the whole accumulated batch out, leaving the buffer empty.
    /// Returns the events in the order they were recorded.
    pub fn drain_all(&mut self) -> (batch: Vec<Event>)
        ensures
            batch@ == old(self)@,
            final(self)@ == Seq::<Event>::empty(),
    {
        let mut batch: Vec<Event> = Vec::new();
        core::mem::swap(&mut batch, &mut self.events);
        batch
    }

    /// How many events are waiting for the next flush.
    pub fn len(&self) -> (n: usize)
        ensures
            n == self@.len(),
    {
        self.events.len()
    }
}

} // verus!
