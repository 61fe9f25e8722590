//! The bounded FIFO of not-yet-delivered packed batches.
//!
//! Every flush cycle pushes the batch it just built, then detaches the
//! whole backlog and hands it to the transport. On failure the backlog is
//! restored verbatim and retried next cycle; on success it is gone. The
//! buffer never holds more than its fixed capacity: pushing beyond it
//! silently evicts the oldest units first — an accepted, documented
//! trade-off, not an error.

use vstd::prelude::*;
use std::collections::VecDeque;
use crate::event::PackedData;

verus! {

/// What one push leaves in a buffer of capacity `cap` that held `s`:
/// the unit goes to the tail, then the head is dropped until the length
/// is back within `cap`.
pub open spec fn push_model(s: Seq<PackedData>, u: PackedData, cap: nat) -> Seq<PackedData> {
    let grown = s.push(u);
    if grown.len() <= cap {
        grown
    } else {
        grown.skip(grown.len() - cap)
    }
}

/// What a whole sequence of pushes leaves, oldest push first.
pub open spec fn push_all_model(s: Seq<PackedData>, us: Seq<PackedData>, cap: nat) -> Seq<
    PackedData,
>
    decreases us.len(),
{
    if us.len() == 0 {
        s
    } else {
        push_all_model(push_model(s, us[0], cap), us.skip(1), cap)
    }
}

/// A capacity-bounded FIFO of packed batches awaiting delivery.
pub struct RetryBuffer {
    units: VecDeque<PackedData>,
    capacity: usize,
    evicted: u64,
}

impl RetryBuffer {
    /// The buffered units, oldest first.
    pub closed spec fn contents(&self) -> Seq<PackedData> {
        self.units@
    }

    /// The fixed capacity chosen at construction.
    pub closed spec fn cap(&self) -> nat {
        self.capacity as nat
    }

    /// How many units capacity pressure has evicted so far; saturates at
    /// the counter's maximum. Eviction is expected, silent data loss —
    /// observable here for operability, never an error.
    pub closed spec fn evictions(&self) -> u64 {
        self.evicted
    }

    /// The buffer never holds more units than its capacity.
    pub open spec fn wf(&self) -> bool {
        self.contents().len() <= self.cap()
    }

    /// An empty buffer that will never hold more than `capacity` units.
    pub fn new(capacity: usize) -> (b: RetryBuffer)
        ensures
            b.wf(),
            b.cap() == capacity,
            b.contents() == Seq::<PackedData>::empty(),
            b.evictions() == 0,
    {
        RetryBuffer { units: VecDeque::new(), capacity, evicted: 0 }
    }

    pub fn len(&self) -> (n: usize)
        ensures
            n == self.contents().len(),
    {
        self.units.len()
    }

    pub fn capacity(&self) -> (c: usize)
        ensures
            c == self.cap(),
    {
        self.capacity
    }

    /// How many units have been evicted so far.
    pub fn evicted_total(&self) -> (n: u64)
        ensures
            n == self.evictions(),
    {
        self.evicted
    }

    /// Appends one unit at the tail; if the buffer would then exceed its
    /// capacity, discards from the head until it is full at most. The
    /// surviving units are the most recent ones, in their original order.
    pub fn push(&mut self, unit: PackedData)
        requires
            old(self).wf(),
        ensures
            final(self).wf(),
            final(self).cap() == old(self).cap(),
            final(self).contents() == push_model(old(self).contents(), unit, old(self).cap()),
            old(self).contents().len() < old(self).cap() ==> final(self).evictions() == old(
                self,
            ).evictions(),
            old(self).contents().len() >= old(self).cap() ==> final(self).evictions() == (
            if old(self).evictions() < u64::MAX {
                (old(self).evictions() + 1) as u64
            } else {
                old(self).evictions()
            }),
    {
        self.units.push_back(unit);
        if self.units.len() > self.capacity {
            let _ = self.units.pop_front();
            if self.evicted < u64::MAX {
                self.evicted = self.evicted + 1;
            }
            proof {
                assert(self.units@ =~= push_model(old(self).contents(), unit, old(self).cap()));
            }
        }
    }

    /// Detaches the whole backlog for one delivery attempt: returns the
    /// full ordered contents and leaves the buffer empty, so nothing can
    /// interleave with the in-flight send.
    pub fn snapshot_and_detach(&mut self) -> (snapshot: VecDeque<PackedData>)
        requires
            old(self).wf(),
        ensures
            final(self).wf(),
            final(self).cap() == old(self).cap(),
            final(self).evictions() == old(self).evictions(),
            snapshot@ == old(self).contents(),
            final(self).contents() == Seq::<PackedData>::empty(),
    {
        let mut snapshot: VecDeque<PackedData> = VecDeque::new();
        core::mem::swap(&mut snapshot, &mut self.units);
        snapshot
    }

    /// Re-installs a previously detached snapshot after a failed delivery,
    /// so the same backlog is retried verbatim on the next cycle.
    pub fn restore(&mut self, units: VecDeque<PackedData>)
        requires
            old(self).wf(),
            units@.len() <= old(self).cap(),
        ensures
            final(self).wf(),
            final(self).cap() == old(self).cap(),
            final(self).evictions() == old(self).evictions(),
            final(self).contents() == units@,
    {
        self.units = units;
    }
}

/// Bounded FIFO eviction, stated once and for all sequences of pushes:
/// filling an empty buffer of capacity `cap` with the units `us`, oldest
/// first, leaves exactly the most recent `cap` of them, in their original
/// order; only the oldest `us.len() - cap` are evicted, and the length
/// never exceeds `cap`.
pub proof fn lemma_fifo_eviction(us: Seq<PackedData>, cap: nat)
    ensures
        push_all_model(Seq::<PackedData>::empty(), us, cap) == if us.len() <= cap {
            us
        } else {
            us.skip(us.len() - cap)
        },
        push_all_model(Seq::<PackedData>::empty(), us, cap).len() <= cap,
{
    lemma_push_all_model(Seq::<PackedData>::empty(), us, cap);
    assert(Seq::<PackedData>::empty() + us =~= us);
    if us.len() <= cap {
        assert(us.skip(0) =~= us);
    }
}

/// The general shape behind [`lemma_fifo_eviction`]: pushing `us` onto a
/// buffer already holding `s` keeps the last `cap` units of `s + us`.
pub proof fn lemma_push_all_model(s: Seq<PackedData>, us: Seq<PackedData>, cap: nat)
    requires
        s.len() <= cap,
    ensures
        push_all_model(s, us, cap) == if s.len() + us.len() <= cap {
            s + us
        } else {
            (s + us).skip(s.len() + us.len() - cap)
        },
    decreases us.len(),
{
    if us.len() == 0 {
        assert(s + us =~= s);
    } else {
        let s1 = push_model(s, us[0], cap);
        assert(s1.len() <= cap);
        lemma_push_all_model(s1, us.skip(1), cap);
        assert(push_all_model(s, us, cap) == push_all_model(s1, us.skip(1), cap));
        if s.len() + 1 <= cap {
            assert(s1 =~= s.push(us[0]));
            if s.len() + us.len() <= cap {
                assert(s1 + us.skip(1) =~= s + us);
            } else {
                assert(s1 + us.skip(1) =~= s + us);
                assert((s1 + us.skip(1)).skip(s1.len() + us.skip(1).len() - cap) =~= (s + us).skip(
                    s.len() + us.len() - cap,
                ));
            }
        } else {
            // the buffer was exactly full: the push evicts one unit
            assert(s.len() == cap);
            assert(s1 =~= s.push(us[0]).skip(1));
            if cap == 0 {
                assert(s1 + us.skip(1) =~= us.skip(1));
                assert((s + us).skip(s.len() + us.len() - cap).len() == 0);
                assert(us.skip(1).len() == us.len() - 1);
                if us.len() - 1 <= cap {
                    assert(us.len() == 1);
                    assert(push_all_model(s, us, cap) =~= (s + us).skip(
                        s.len() + us.len() - cap,
                    ));
                } else {
                    assert((s1 + us.skip(1)).skip(s1.len() + us.skip(1).len() - cap) =~= (s
                        + us).skip(s.len() + us.len() - cap));
                }
            } else {
                assert(s1.len() == cap);
                assert((s1 + us.skip(1)).skip(s1.len() + us.skip(1).len() - cap) =~= (s + us).skip(
                    s.len() + us.len() - cap,
                ));
            }
        }
    }
}

} // verus!
