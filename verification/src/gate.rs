//! The concurrency gate: a counting permit pool that bounds how many jobs
//! run simultaneously. The pool's accounting is verified here; the blocking
//! wait for a free permit is the caller's loop around `try_acquire`.

use vstd::prelude::*;

verus! {

/// A counting permit pool with a fixed capacity.
pub struct Gate {
    /// The configured bound on simultaneously held permits; at least one.
    pub capacity: usize,
    /// Permits currently held.
    pub active: usize,
}

impl Gate {
    /// Permits held never exceed the capacity.
    pub open spec fn wf(self) -> bool {
        self.active <= self.capacity && self.capacity >= 1
    }

    pub fn new(capacity: usize) -> (g: Gate)
        requires
            1 <= capacity,
        ensures
            g.wf(),
            g.capacity == capacity,
            g.active == 0,
    {
        Gate { capacity, active: 0 }
    }

    /// Take a permit when one is free. A true return has taken exactly one
    /// permit; a false return means the pool was full and nothing changed.
    /// A caller that must hold a permit waits by retrying.
    pub fn try_acquire(&mut self) -> (granted: bool)
        requires
            old(self).wf(),
        ensures
            final(self).wf(),
            final(self).capacity == old(self).capacity,
            granted ==> old(self).active < old(self).capacity && final(self).active == old(
                self,
            ).active + 1,
            !granted ==> old(self).active == old(self).capacity && final(self).active == old(
                self,
            ).active,
    {
        if self.active < self.capacity {
            self.active = self.active + 1;
            true
        } else {
            false
        }
    }

    /// Return a held permit.
    pub fn release(&mut self)
        requires
            old(self).wf(),
            old(self).active >= 1,
        ensures
            final(self).wf(),
            final(self).capacity == old(self).capacity,
            final(self).active == old(self).active - 1,
    {
        self.active = self.active - 1;
    }
}

/// One transition of the permit pool, in the order the transitions
/// happened.
pub enum GateEvent {
    /// A permit was taken.
    Acquire,
    /// A permit was returned.
    Release,
}

/// How many permits are held after a history of events.
pub open spec fn active_after(events: Seq<GateEvent>) -> int
    decreases events.len(),
{
    if events.len() == 0 {
        0
    } else {
        active_after(events.drop_last()) + match events.last() {
            GateEvent::Acquire => 1int,
            GateEvent::Release => -1int,
        }
    }
}

/// An admissible history for capacity `cap`: a permit is taken only while
/// fewer than `cap` are held, and only a held permit is returned. This is
/// exactly what `try_acquire` and `release` allow.
pub open spec fn admissible(events: Seq<GateEvent>, cap: int) -> bool {
    forall|i: int| 0 <= i < events.len() ==> {
        let held = active_after(#[trigger] events.subrange(0, i));
        &&& events[i] is Acquire ==> held < cap
        &&& events[i] is Release ==> held >= 1
    }
}

/// Law: a step this pool allows keeps the history admissible. A granted
/// acquire happens only below the capacity, and a release only with a
/// permit held — exactly what `try_acquire` and `release` permit — so
/// appending such a step keeps the history admissible and moves the held
/// count by one.
pub proof fn lemma_admissible_extend(events: Seq<GateEvent>, cap: int, e: GateEvent)
    requires
        admissible(events, cap),
        e is Acquire ==> active_after(events) < cap,
        e is Release ==> active_after(events) >= 1,
    ensures
        admissible(events.push(e), cap),
        active_after(events.push(e)) == active_after(events) + (match e {
            GateEvent::Acquire => 1int,
            GateEvent::Release => -1int,
        }),
{
    let extended = events.push(e);
    assert(extended.drop_last() =~= events);
    assert forall|i: int| 0 <= i < extended.len() implies {
        let held = active_after(#[trigger] extended.subrange(0, i));
        &&& extended[i] is Acquire ==> held < cap
        &&& extended[i] is Release ==> held >= 1
    } by {
        assert(extended.subrange(0, i) =~= events.subrange(0, i));
        if i < events.len() {
            assert(extended[i] == events[i]);
        } else {
            assert(events.subrange(0, i) =~= events);
        }
    }
}

/// Law: under any admissible history the number of simultaneously held
/// permits stays between zero and the capacity — at no point do more than
/// `cap` jobs hold a permit at once.
pub proof fn lemma_concurrency_bound(events: Seq<GateEvent>, cap: int)
    requires
        cap >= 0,
        admissible(events, cap),
    ensures
        0 <= active_after(events) <= cap,
    decreases events.len(),
{
    if events.len() > 0 {
        let n = events.len() as int;
        let prefix = events.drop_last();
        assert forall|i: int| 0 <= i < prefix.len() implies {
            let held = active_after(#[trigger] prefix.subrange(0, i));
            &&& prefix[i] is Acquire ==> held < cap
            &&& prefix[i] is Release ==> held >= 1
        } by {
            assert(prefix.subrange(0, i) =~= events.subrange(0, i));
            assert(prefix[i] == events[i]);
        }
        lemma_concurrency_bound(prefix, cap);
        assert(events.subrange(0, n - 1) =~= prefix);
        assert({
            let held = active_after(events.subrange(0, n - 1));
            &&& events[n - 1] is Acquire ==> held < cap
            &&& events[n - 1] is Release ==> held >= 1
        });
    }
}

} // verus!
