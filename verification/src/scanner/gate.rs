//! The concurrency gate: a pool of permits that bounds how many probes are
//! in flight at once.

use vstd::prelude::*;

verus! {

/// What the pool is, as numbers.
pub struct GateView {
    /// How many permits there are in all.
    pub limit: nat,
    /// How many of them are held right now.
    pub held: nat,
    /// Whether the pool has been closed for good.
    pub closed: bool,
}

/// The answer to a request for a permit.
#[derive(Debug, Clone, Copy, PartialEq, Eq)]
pub enum Acquire {
    /// A permit was handed out; it is held until it is released.
    Granted,
    /// Every permit is held: the request has to wait for a release.
    Exhausted,
    /// The pool is closed and hands out no more permits.
    Closed,
}

/// A counting pool of permits. It never has more permits out than its limit.
#[derive(Debug)]
pub struct ConcurrencyGate {
    limit: usize,
    held: usize,
    closed: bool,
}

impl View for ConcurrencyGate {
    type V = GateView;

    closed spec fn view(&self) -> GateView {
        GateView { limit: self.limit as nat, held: self.held as nat, closed: self.closed }
    }
}

impl ConcurrencyGate {
    /// The pool has at least one permit and no more out than it has.
    pub open spec fn wf(&self) -> bool {
        1 <= self@.limit && self@.held <= self@.limit
    }

    /// A gate of `limit` permits, all of them free. A gate without permits
    /// could never let anything pass, so a limit of zero is refused.
    pub fn new(limit: usize) -> (gate: Option<Self>)
        ensures
            limit == 0 <==> gate is None,
            gate matches Some(g) ==> g.wf() && g@ == (GateView {
                limit: limit as nat,
                held: 0,
                closed: false,
            }),
    {
        if limit == 0 {
            None
        } else {
            Some(ConcurrencyGate { limit, held: 0, closed: false })
        }
    }

    /// The number of permits in all.
    pub fn limit(&self) -> (n: usize)
        ensures
            n == self@.limit,
    {
        self.limit
    }

    /// The number of permits held right now.
    pub fn held(&self) -> (n: usize)
        ensures
            n == self@.held,
    {
        self.held
    }

    /// Whether the pool has been closed.
    pub fn is_closed(&self) -> (closed: bool)
        ensures
            closed == self@.closed,
    {
        self.closed
    }

    /// Asks for one permit. A closed gate refuses; an open one grants while a
    /// permit is free and otherwise tells the caller to wait.
    pub fn acquire(&mut self) -> (got: Acquire)
        requires
            old(self).wf(),
        ensures
            final(self).wf(),
            got == old(self)@.answer(),
            final(self)@ == old(self)@.after_acquire(),
    {
        if self.closed {
            Acquire::Closed
        } else if self.held < self.limit {
            self.held = self.held + 1;
            Acquire::Granted
        } else {
            Acquire::Exhausted
        }
    }

    /// Gives one permit back. Returns whether there was one to give back.
    pub fn release(&mut self) -> (released: bool)
        requires
            old(self).wf(),
        ensures
            final(self).wf(),
            released == (old(self)@.held > 0),
            final(self)@ == old(self)@.after_release(),
    {
        if self.held > 0 {
            self.held = self.held - 1;
            true
        } else {
            false
        }
    }

    /// Closes the pool: from now on every request is refused. Permits that
    /// are out stay out until they are released.
    pub fn close(&mut self)
        requires
            old(self).wf(),
        ensures
            final(self).wf(),
            final(self)@ == (GateView { closed: true, ..old(self)@ }),
    {
        self.closed = true;
    }
}

impl GateView {
    /// What a request for a permit is answered with.
    pub open spec fn answer(self) -> Acquire {
        if self.closed {
            Acquire::Closed
        } else if self.held < self.limit {
            Acquire::Granted
        } else {
            Acquire::Exhausted
        }
    }

    /// The pool after a request for a permit: one more is held if it was
    /// granted, and nothing has changed if it was not.
    pub open spec fn after_acquire(self) -> GateView {
        if self.answer() is Granted {
            GateView { held: self.held + 1, ..self }
        } else {
            self
        }
    }

    /// The pool after a permit came back.
    pub open spec fn after_release(self) -> GateView {
        if self.held > 0 {
            GateView { held: (self.held - 1) as nat, ..self }
        } else {
            self
        }
    }
}

} // verus!
