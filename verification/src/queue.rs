//! The bounded FIFO queue of events between the producer and the worker.
//!
//! Dequeue order equals enqueue order, and a queue never holds more than
//! the capacity it was created with.  In the concurrent setting a full
//! queue suspends the producer (backpressure); here the bound is a
//! precondition of `enqueue` that every caller respects explicitly.

use vstd::prelude::*;

use crate::parser::Line;

verus! {

/// A bounded ordered sequence of events with exactly one writer and one
/// reader.
pub struct EventQueue {
    items: Vec<Line>,
    capacity: usize,
}

impl View for EventQueue {
    type V = Seq<Line>;

    closed spec fn view(&self) -> Seq<Line> {
        self.items@
    }
}

impl EventQueue {
    /// The capacity the queue was created with.
    pub closed spec fn cap(&self) -> nat {
        self.capacity as nat
    }

    /// The queue never exceeds its capacity.
    pub open spec fn wf(&self) -> bool {
        self@.len() <= self.cap()
    }

    pub fn new(capacity: usize) -> (q: Self)
        requires
            capacity >= 1,
        ensures
            q@ == Seq::<Line>::empty(),
            q.cap() == capacity,
            q.wf(),
    {
        EventQueue { items: Vec::new(), capacity }
    }

    pub fn len(&self) -> (n: usize)
        ensures
            n == self@.len(),
    {
        self.items.len()
    }

    pub fn is_empty(&self) -> (r: bool)
        ensures
            r == (self@.len() == 0),
    {
        self.items.len() == 0
    }

    pub fn is_full(&self) -> (r: bool)
        ensures
            r == (self@.len() >= self.cap()),
    {
        self.items.len() >= self.capacity
    }

    /// Accept one event at the back.  The caller respects backpressure: a
    /// full queue takes nothing.
    pub fn enqueue(&mut self, event: Line)
        requires
            old(self).wf(),
            old(self)@.len() < old(self).cap(),
        ensures
            final(self)@ == old(self)@.push(event),
            final(self).cap() == old(self).cap(),
            final(self).wf(),
    {
        self.items.push(event);
    }

    /// Hand out the oldest event: first in, first out.
    pub fn dequeue(&mut self) -> (e: Line)
        requires
            old(self)@.len() > 0,
        ensures
            e == old(self)@[0],
            final(self)@ == old(self)@.drop_first(),
            final(self).cap() == old(self).cap(),
            old(self).wf() ==> final(self).wf(),
    {
        self.items.remove(0)
    }
}

} // verus!
