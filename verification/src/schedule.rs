//! The bounded scheduler's admission control: one run-wide pool of `capacity`
//! permits bounds the number of simultaneously in-flight recognition calls,
//! for all directories together.  Every call acquires one permit before it
//! starts and gives it back when it returns, success or failure alike, so the
//! pool never leaks capacity.
//!
//! The asynchronous runtime that parks a task until a permit is free lives in
//! the surrounding program; `Limiter` is the decision it implements: whether
//! one more call may start now, and the bookkeeping when one returns.  The
//! pool carries the ghost trace of its admission events, and its well-
//! formedness says that the in-flight count is exactly what the admission
//! model yields on that trace — so the bound proven for every trace holds of
//! every reachable pool state.

use vstd::prelude::*;

verus! {

/// One admission event of a run: a task asked to start a call (admitted only
/// while the pool is below capacity; otherwise it keeps waiting), or a call
/// returned its permit.
pub enum PermitEvent {
    Start,
    Finish,
}

/// The number of in-flight recognition calls after a sequence of admission
/// events, starting from an idle pool: a `Start` admits one more call only
/// while the pool is below capacity, a `Finish` gives one permit back.
pub open spec fn in_flight_after(capacity: nat, trace: Seq<PermitEvent>) -> nat
    decreases trace.len(),
{
    if trace.len() == 0 {
        0
    } else {
        let prev = in_flight_after(capacity, trace.drop_last());
        match trace.last() {
            PermitEvent::Start => if prev < capacity {
                prev + 1
            } else {
                prev
            },
            PermitEvent::Finish => if prev > 0 {
                (prev - 1) as nat
            } else {
                prev
            },
        }
    }
}

/// Law: at no point do more than `capacity` recognition calls run at once.
/// Whatever admission events a run produces — any number of directories, any
/// number of images, tasks starting and finishing in any interleaving — the
/// in-flight count after every prefix of the run stays within the pool's
/// capacity.
pub proof fn lemma_in_flight_bounded(capacity: nat, trace: Seq<PermitEvent>)
    ensures
        in_flight_after(capacity, trace) <= capacity,
    decreases trace.len(),
{
    if trace.len() > 0 {
        lemma_in_flight_bounded(capacity, trace.drop_last());
    }
}

/// The state of the run-wide permit pool, carrying the ghost trace of the
/// admission events that produced it.
pub struct Limiter {
    pub capacity: usize,
    pub in_flight: usize,
    pub trace: Ghost<Seq<PermitEvent>>,
}

impl Limiter {
    /// The in-flight count is exactly what the admission model yields on the
    /// pool's trace; with `lemma_in_flight_bounded` it therefore never
    /// exceeds the capacity.
    pub open spec fn wf(self) -> bool {
        self.in_flight as nat == in_flight_after(self.capacity as nat, self.trace@)
    }

    /// A fresh pool of `capacity` permits, none of them held.
    pub fn new(capacity: usize) -> (r: Limiter)
        ensures
            r.wf(),
            r.capacity == capacity,
            r.in_flight == 0,
            r.trace@ == Seq::<PermitEvent>::empty(),
    {
        let r = Limiter { capacity, in_flight: 0, trace: Ghost(Seq::empty()) };
        proof {
            assert(in_flight_after(capacity as nat, r.trace@) == 0);
        }
        r
    }

    /// Decides whether one more recognition call may start now.  It may
    /// exactly when the pool is not exhausted; a refused task waits and asks
    /// again once a permit was given back.
    pub fn try_start(&mut self) -> (started: bool)
        requires
            old(self).wf(),
        ensures
            final(self).wf(),
            final(self).capacity == old(self).capacity,
            final(self).trace@ == old(self).trace@.push(PermitEvent::Start),
            started ==> (old(self).in_flight < old(self).capacity && final(self).in_flight
                == old(self).in_flight + 1),
            !started ==> (old(self).in_flight == old(self).capacity && final(self).in_flight
                == old(self).in_flight),
    {
        proof {
            lemma_in_flight_bounded(self.capacity as nat, self.trace@);
            assert(self.trace@.push(PermitEvent::Start).drop_last() =~= self.trace@);
        }
        self.trace = Ghost(self.trace@.push(PermitEvent::Start));
        if self.in_flight < self.capacity {
            self.in_flight = self.in_flight + 1;
            true
        } else {
            false
        }
    }

    /// A recognition call returned, with success or with failure: its permit
    /// is given back unconditionally, on every exit path.
    pub fn finish(&mut self)
        requires
            old(self).wf(),
            old(self).in_flight > 0,
        ensures
            final(self).wf(),
            final(self).capacity == old(self).capacity,
            final(self).trace@ == old(self).trace@.push(PermitEvent::Finish),
            final(self).in_flight == old(self).in_flight - 1,
    {
        proof {
            assert(self.trace@.push(PermitEvent::Finish).drop_last() =~= self.trace@);
        }
        self.trace = Ghost(self.trace@.push(PermitEvent::Finish));
        self.in_flight = self.in_flight - 1;
    }

    /// How many calls hold a permit right now.
    pub fn in_flight_count(&self) -> (n: usize)
        ensures
            n == self.in_flight,
    {
        self.in_flight
    }
}

/// The per-directory progress signal: of `total` dispatched pages,
/// `completed` have finished successfully so far.  One increment is emitted
/// per successful page.
pub struct Progress {
    pub total: usize,
    pub completed: usize,
}

impl Progress {
    /// Never more completions than dispatched pages.
    pub open spec fn wf(self) -> bool {
        self.completed <= self.total
    }

    /// A fresh counter for a directory of `total` pages.
    pub fn new(total: usize) -> (r: Progress)
        ensures
            r.wf(),
            r.total == total,
            r.completed == 0,
    {
        Progress { total, completed: 0 }
    }

    /// One page finished successfully.
    pub fn record_success(&mut self)
        requires
            old(self).wf(),
            old(self).completed < old(self).total,
        ensures
            final(self).wf(),
            final(self).total == old(self).total,
            final(self).completed == old(self).completed + 1,
    {
        self.completed = self.completed + 1;
    }

    /// The running completion count shown beside the directory's label.
    pub fn completed_count(&self) -> (n: usize)
        ensures
            n == self.completed,
    {
        self.completed
    }
}

} // verus!
