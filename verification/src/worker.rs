//! A worker: a bounded FIFO mailbox plus the consuming task's visible state.
//!
//! The consuming task itself is asynchronous and lives in the embedding; this
//! type models what the engine decides about it. `begin_next` is the task
//! taking the next update out of the mailbox (moving it in flight), and
//! `finish_at` is the handler invocation for an in-flight update completing.
//! A ghost log of completed updates supports the ordering proofs.

use vstd::prelude::*;

use crate::update::Update;

verus! {

pub struct Worker {
    mailbox: Vec<Update>,
    in_flight: Vec<Update>,
    capacity: usize,
    processed: Ghost<Seq<Update>>,
}

impl Worker {
    /// The pending updates, front first.
    pub closed spec fn mailbox_view(self) -> Seq<Update> {
        self.mailbox@
    }

    /// The updates taken out of the mailbox whose handler invocation has not
    /// completed yet. A keyed worker has at most one; the default worker may
    /// have many.
    pub closed spec fn in_flight_view(self) -> Seq<Update> {
        self.in_flight@
    }

    /// The updates whose handler invocation has completed, in completion
    /// order.
    pub closed spec fn processed_view(self) -> Seq<Update> {
        self.processed@
    }

    /// The configured mailbox capacity.
    pub closed spec fn cap(self) -> usize {
        self.capacity
    }

    /// Everything this worker has accepted, in acceptance order, as long as
    /// completions happen in intake order (which holds for keyed workers,
    /// where at most one update is in flight).
    pub open spec fn accepted(self) -> Seq<Update> {
        self.processed_view() + self.in_flight_view() + self.mailbox_view()
    }

    /// Structurally well-formed: a positive capacity that the mailbox obeys.
    pub open spec fn wf(self) -> bool {
        &&& self.cap() >= 1
        &&& self.mailbox_view().len() <= self.cap()
    }

    /// Nothing buffered and nothing in flight: the worker's task is waiting
    /// on its (empty) mailbox. Only such workers may be reaped.
    pub open spec fn is_quiet(self) -> bool {
        self.mailbox_view().len() == 0 && self.in_flight_view().len() == 0
    }

    /// A fresh worker with an empty mailbox.
    pub fn new(capacity: usize) -> (w: Worker)
        requires
            capacity >= 1,
        ensures
            w.wf(),
            w.cap() == capacity,
            w.mailbox_view() == Seq::<Update>::empty(),
            w.in_flight_view() == Seq::<Update>::empty(),
            w.processed_view() == Seq::<Update>::empty(),
    {
        Worker { mailbox: Vec::new(), in_flight: Vec::new(), capacity, processed: Ghost(Seq::empty()) }
    }

    /// Offer an update to the mailbox. Rejected exactly when the mailbox is
    /// full; a rejected update is left with the caller, never dropped — this
    /// is the backpressure signal that stalls ingestion.
    pub fn try_send(&mut self, u: Update) -> (ok: bool)
        requires
            old(self).wf(),
        ensures
            final(self).wf(),
            ok == (old(self).mailbox_view().len() < old(self).cap()),
            ok ==> {
                &&& final(self).mailbox_view() == old(self).mailbox_view().push(u)
                &&& final(self).in_flight_view() == old(self).in_flight_view()
                &&& final(self).processed_view() == old(self).processed_view()
                &&& final(self).cap() == old(self).cap()
            },
            !ok ==> *final(self) == *old(self),
    {
        if self.mailbox.len() < self.capacity {
            self.mailbox.push(u);
            true
        } else {
            false
        }
    }

    /// The worker's task dequeues the next update, moving it in flight.
    /// Returns nothing when the mailbox is empty.
    pub fn begin_next(&mut self) -> (r: Option<Update>)
        requires
            old(self).wf(),
        ensures
            final(self).wf(),
            old(self).mailbox_view().len() == 0 ==> r is None && *final(self) == *old(self),
            old(self).mailbox_view().len() > 0 ==> {
                &&& r == Some(old(self).mailbox_view()[0])
                &&& final(self).mailbox_view() == old(self).mailbox_view().drop_first()
                &&& final(self).in_flight_view()
                    == old(self).in_flight_view().push(old(self).mailbox_view()[0])
                &&& final(self).processed_view() == old(self).processed_view()
                &&& final(self).cap() == old(self).cap()
                &&& final(self).accepted() == old(self).accepted()
            },
    {
        if self.mailbox.len() == 0 {
            None
        } else {
            let u = self.mailbox.remove(0);
            self.in_flight.push(u);
            proof {
                assert(self.mailbox@ =~= old(self).mailbox@.drop_first());
                assert(self.accepted() =~= old(self).accepted());
            }
            Some(u)
        }
    }

    /// The handler invocation for the in-flight update at position `i`
    /// completes: it moves to the ghost log of processed updates.
    pub fn finish_at(&mut self, i: usize) -> (u: Update)
        requires
            old(self).wf(),
            i < old(self).in_flight_view().len(),
        ensures
            final(self).wf(),
            u == old(self).in_flight_view()[i as int],
            final(self).mailbox_view() == old(self).mailbox_view(),
            final(self).in_flight_view() == old(self).in_flight_view().remove(i as int),
            final(self).processed_view() == old(self).processed_view().push(u),
            final(self).cap() == old(self).cap(),
    {
        let u = self.in_flight.remove(i);
        proof {
            self.processed@ = self.processed@.push(u);
        }
        u
    }

    /// How many updates are buffered.
    pub fn mailbox_len(&self) -> (n: usize)
        ensures
            n == self.mailbox_view().len(),
    {
        self.mailbox.len()
    }

    /// How many updates are in flight.
    pub fn in_flight_len(&self) -> (n: usize)
        ensures
            n == self.in_flight_view().len(),
    {
        self.in_flight.len()
    }

    /// Whether the worker's task is waiting on its mailbox (nothing in
    /// flight). This is the idle flag the reaper consults.
    pub fn is_waiting(&self) -> (b: bool)
        ensures
            b == (self.in_flight_view().len() == 0),
    {
        self.in_flight.len() == 0
    }

    /// The position of an in-flight update carrying `id`, if any: how an
    /// embedding that ran a handler invocation to completion names the
    /// update it finished.
    pub fn find_in_flight(&self, id: u64) -> (r: Option<usize>)
        ensures
            match r {
                Some(i) => i < self.in_flight_view().len() && self.in_flight_view()[i as int].id
                    == id,
                None => forall|j: int|
                    0 <= j < self.in_flight_view().len() ==> (#[trigger] self.in_flight_view()[j]).id
                        != id,
            },
    {
        let mut i: usize = 0;
        while i < self.in_flight.len()
            invariant
                i <= self.in_flight@.len(),
                forall|j: int| 0 <= j < i ==> (#[trigger] self.in_flight@[j]).id != id,
            decreases self.in_flight@.len() - i,
        {
            if self.in_flight[i].id == id {
                return Some(i);
            }
            i += 1;
        }
        None
    }

    /// The configured mailbox capacity.
    pub fn capacity(&self) -> (c: usize)
        ensures
            c == self.cap(),
    {
        self.capacity
    }
}

} // verus!
