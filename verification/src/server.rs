//! The bookkeeping around the accept loop: how many connections may be
//! served at once, and how the server winds down.

use vstd::prelude::*;

verus! {

/// A fixed budget of connections that may be served at the same time.
#[derive(Debug)]
pub struct Permits {
    limit: usize,
    in_use: usize,
}

impl Permits {
    /// The size of the budget.
    pub closed spec fn limit(&self) -> nat {
        self.limit as nat
    }

    /// How many permits are out.
    pub closed spec fn in_use(&self) -> nat {
        self.in_use as nat
    }

    /// Never more permits are out than the budget holds.
    pub closed spec fn wf(&self) -> bool {
        self.in_use <= self.limit
    }

    /// A budget of `limit` permits, none of them out.
    pub fn new(limit: usize) -> (r: Permits)
        ensures
            r.wf(),
            r.limit() == limit,
            r.in_use() == 0,
    {
        Permits { limit, in_use: 0 }
    }

    /// How many more connections may be accepted right now.
    pub fn available(&self) -> (r: usize)
        requires
            self.wf(),
        ensures
            r == self.limit() - self.in_use(),
    {
        self.limit - self.in_use
    }

    /// Takes a permit for a new connection. It is refused exactly while the
    /// whole budget is out; nothing changes then.
    pub fn try_acquire(&mut self) -> (r: bool)
        requires
            old(self).wf(),
        ensures
            final(self).wf(),
            final(self).limit() == old(self).limit(),
            r == (old(self).in_use() < old(self).limit()),
            final(self).in_use() == old(self).in_use() + (if r {
                1nat
            } else {
                0nat
            }),
    {
        if self.in_use < self.limit {
            self.in_use += 1;
            true
        } else {
            false
        }
    }

    /// Gives back the permit of a connection that has ended. Where none is
    /// out, nothing changes and the answer is `false`.
    pub fn release(&mut self) -> (r: bool)
        requires
            old(self).wf(),
        ensures
            final(self).wf(),
            final(self).limit() == old(self).limit(),
            r == (old(self).in_use() > 0),
            final(self).in_use() == old(self).in_use() - (if r {
                1nat
            } else {
                0nat
            }),
    {
        if self.in_use > 0 {
            self.in_use -= 1;
            true
        } else {
            false
        }
    }
}

/// The one signal that tells every task to stop, and the count of tasks that
/// have not finished yet.
#[derive(Debug)]
pub struct Shutdown {
    notified: bool,
    draining: usize,
}

impl Shutdown {
    /// Whether the signal was given.
    pub closed spec fn notified(&self) -> bool {
        self.notified
    }

    /// How many tasks have started and not finished.
    pub closed spec fn draining(&self) -> nat {
        self.draining as nat
    }

    /// A running server with no task.
    pub fn new() -> (r: Shutdown)
        ensures
            !r.notified(),
            r.draining() == 0,
    {
        Shutdown { notified: false, draining: 0 }
    }

    /// Gives the signal. Given twice, the second changes nothing.
    pub fn notify_shutdown(&mut self)
        ensures
            final(self).notified(),
            final(self).draining() == old(self).draining(),
            old(self).notified() ==> *final(self) == *old(self),
    {
        self.notified = true;
    }

    /// Whether the signal was given.
    pub fn is_shutdown(&self) -> (r: bool)
        ensures
            r == self.notified(),
    {
        self.notified
    }

    /// Counts a new task in. It is refused once the signal was given, or
    /// where the count would not fit; nothing changes then.
    pub fn task_started(&mut self) -> (r: bool)
        ensures
            r == (!old(self).notified() && old(self).draining() < usize::MAX),
            final(self).notified() == old(self).notified(),
            final(self).draining() == old(self).draining() + (if r {
                1nat
            } else {
                0nat
            }),
    {
        if !self.notified && self.draining < usize::MAX {
            self.draining += 1;
            true
        } else {
            false
        }
    }

    /// Counts a task out that has finished its cleanup. Where none is
    /// counted, nothing changes.
    pub fn task_finished(&mut self)
        ensures
            final(self).notified() == old(self).notified(),
            final(self).draining() == (if old(self).draining() > 0 {
                old(self).draining() - 1
            } else {
                0
            }),
    {
        if self.draining > 0 {
            self.draining -= 1;
        }
    }

    /// Whether the shutdown is complete: the signal was given and every task
    /// has finished.
    pub fn is_complete(&self) -> (r: bool)
        ensures
            r == (self.notified() && self.draining() == 0),
    {
        self.notified && self.draining == 0
    }
}

} // verus!
