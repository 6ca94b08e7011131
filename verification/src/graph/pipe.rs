//! Occupancy bookkeeping of the packet queues between elements.
use vstd::prelude::*;

verus! {

/// Default per-edge queue capacity.
pub const DEFAULT_QUEUE_CAPACITY: usize = 20;

/// The occupancy of one pipe: packets in flight and, for a bounded pipe, its capacity.
pub struct PipeState {
    depth: usize,
    capacity: Option<usize>,
}

/// The depth a pipe reports: the packets in flight, capped at the capacity.
pub open spec fn reported_depth(depth: usize, capacity: Option<usize>) -> usize {
    match capacity {
        Some(c) => if depth < c {
            depth
        } else {
            c
        },
        None => depth,
    }
}

impl PipeState {
    /// Packets counted in flight.
    pub closed spec fn in_flight(&self) -> usize {
        self.depth
    }

    pub closed spec fn limit(&self) -> Option<usize> {
        self.capacity
    }

    pub fn new(capacity: Option<usize>) -> (r: Self)
        ensures
            r.in_flight() == 0,
            r.limit() == capacity,
    {
        PipeState { depth: 0, capacity }
    }

    /// The current depth, never above the capacity of a bounded pipe.
    pub fn depth(&self) -> (r: usize)
        ensures
            r == reported_depth(self.in_flight(), self.limit()),
    {
        match self.capacity {
            Some(capacity) => if self.depth < capacity {
                self.depth
            } else {
                capacity
            },
            None => self.depth,
        }
    }

    /// A packet entered the pipe (the counter wraps as an atomic one does).
    pub fn enqueued(&mut self)
        ensures
            final(self).in_flight() == vstd::wrapping::usize_specs::wrapping_add(old(self).in_flight(), 1),
            final(self).limit() == old(self).limit(),
    {
        self.depth = self.depth.wrapping_add(1);
    }

    /// A packet left the pipe, or a send was undone.
    pub fn dequeued(&mut self)
        ensures
            final(self).in_flight() == vstd::wrapping::usize_specs::wrapping_sub(old(self).in_flight(), 1),
            final(self).limit() == old(self).limit(),
    {
        self.depth = self.depth.wrapping_sub(1);
    }
}

/// A bounded pipe never reports more than its capacity, whatever has been
/// counted in flight.
pub proof fn lemma_reported_depth_bounded(depth: usize, capacity: usize)
    ensures
        reported_depth(depth, Some(capacity)) <= capacity,
        reported_depth(depth, Some(capacity)) <= depth,
        depth <= capacity ==> reported_depth(depth, Some(capacity)) == depth,
{
}

/// Counting a packet in and then out leaves the count where it was, also
/// across the wrap-around.
pub proof fn lemma_enqueue_dequeue_round_trip(depth: usize)
    ensures
        vstd::wrapping::usize_specs::wrapping_sub(vstd::wrapping::usize_specs::wrapping_add(depth, 1), 1)
            == depth,
{
}

} // verus!
