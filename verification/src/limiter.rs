//! The counted semaphore that bounds how many transfers run at once.

use vstd::prelude::*;

verus! {

/// Default number of simultaneous downloads.
pub const DEFAULT_DOWNLOAD_PERMITS: usize = 4;

/// Default number of simultaneous uploads.
pub const DEFAULT_UPLOAD_PERMITS: usize = 2;

/// A counted semaphore as a value: the permit limit and the number of
/// permits that workers currently hold. The caller that shares it between
/// threads waits and retries when no permit is free.
#[derive(Debug, PartialEq, Eq)]
pub struct Semaphore {
    max: usize,
    held: usize,
}

impl Semaphore {
    /// The permit limit.
    pub closed spec fn limit(&self) -> nat {
        self.max as nat
    }

    /// The number of permits that are held.
    pub closed spec fn in_use(&self) -> nat {
        self.held as nat
    }

    /// The state as two numbers.
    pub open spec fn permits(&self) -> Permits {
        Permits { limit: self.limit(), held: self.in_use() }
    }

    /// The number of permits that can be had right now. While a lowered
    /// limit is still exceeded, none can.
    pub open spec fn free(&self) -> nat {
        if self.in_use() < self.limit() {
            (self.limit() - self.in_use()) as nat
        } else {
            0
        }
    }

    /// A semaphore with `max` permits, none of them held.
    pub fn new(max: usize) -> (s: Self)
        ensures
            s.limit() == max,
            s.in_use() == 0,
    {
        Semaphore { max, held: 0 }
    }

    /// The permit limit.
    pub fn max_permits(&self) -> (n: usize)
        ensures
            n == self.limit(),
    {
        self.max
    }

    /// The number of permits that can be had right now.
    pub fn available(&self) -> (n: usize)
        ensures
            n == self.free(),
    {
        if self.held < self.max {
            self.max - self.held
        } else {
            0
        }
    }

    /// The number of permits that are held.
    pub fn held_permits(&self) -> (n: usize)
        ensures
            n == self.in_use(),
    {
        self.held
    }

    /// Takes a permit if one is free and says whether it did. A permit is
    /// handed out only while fewer than the limit are held, so the number
    /// of holders never grows beyond the limit.
    pub fn acquire(&mut self) -> (granted: bool)
        ensures
            granted == (old(self).free() > 0),
            final(self).permits() == old(self).permits().after(PermitEvent::Acquire),
            granted ==> final(self).in_use() <= final(self).limit(),
    {
        if self.held < self.max {
            self.held = self.held + 1;
            true
        } else {
            false
        }
    }

    /// Gives a permit back. Releasing when no permit is held changes
    /// nothing.
    pub fn release(&mut self)
        ensures
            final(self).permits() == old(self).permits().after(PermitEvent::Release),
    {
        if self.held > 0 {
            self.held = self.held - 1;
        }
    }

    /// Changes the permit limit. Raising it frees the added permits at
    /// once; lowering it takes no permit away from its holder, the excess
    /// drains as holders release.
    pub fn resize(&mut self, max: usize)
        ensures
            final(self).permits() == old(self).permits().after(PermitEvent::Resize(max)),
    {
        self.max = max;
    }
}

/// One thing that happens to a semaphore.
pub enum PermitEvent {
    /// A worker asks for a permit.
    Acquire,
    /// A worker gives its permit back.
    Release,
    /// The limit is set anew.
    Resize(usize),
}

/// The state of a semaphore as two numbers.
pub ghost struct Permits {
    /// The permit limit.
    pub limit: nat,
    /// The number of permits held.
    pub held: nat,
}

impl Permits {
    /// The state after one event.
    pub open spec fn after(self, e: PermitEvent) -> Permits {
        match e {
            PermitEvent::Acquire => if self.held < self.limit {
                Permits { held: self.held + 1, ..self }
            } else {
                self
            },
            PermitEvent::Release => if self.held > 0 {
                Permits { held: (self.held - 1) as nat, ..self }
            } else {
                self
            },
            PermitEvent::Resize(n) => Permits { limit: n as nat, ..self },
        }
    }

    /// The state after a sequence of events.
    pub open spec fn after_all(self, trace: Seq<PermitEvent>) -> Permits
        decreases trace.len(),
    {
        if trace.len() == 0 {
            self
        } else {
            self.after_all(trace.drop_last()).after(trace.last())
        }
    }

    /// The largest limit in force at any point of `trace`.
    pub open spec fn highest_limit(self, trace: Seq<PermitEvent>) -> nat
        decreases trace.len(),
    {
        if trace.len() == 0 {
            self.limit
        } else {
            let before = self.highest_limit(trace.drop_last());
            let now = self.after_all(trace).limit;
            if now > before {
                now
            } else {
                before
            }
        }
    }

    /// Whether `trace` never lowers the limit.
    pub open spec fn never_lowered(self, trace: Seq<PermitEvent>) -> bool
        decreases trace.len(),
    {
        trace.len() == 0 || (self.never_lowered(trace.drop_last()) && self.after_all(trace).limit
            >= self.after_all(trace.drop_last()).limit)
    }
}

/// However workers ask for and return permits, no more of them hold one
/// than the highest limit that was ever in force; and while the limit is
/// never lowered, no more than the limit in force.
pub proof fn lemma_holders_bounded(start: Permits, trace: Seq<PermitEvent>)
    requires
        start.held <= start.limit,
    ensures
        start.after_all(trace).held <= start.highest_limit(trace),
        start.never_lowered(trace) ==> start.after_all(trace).held <= start.after_all(
            trace,
        ).limit,
    decreases trace.len(),
{
    if trace.len() > 0 {
        lemma_holders_bounded(start, trace.drop_last());
    }
}

} // verus!
