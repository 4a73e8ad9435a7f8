//! The system-wide concurrency gate: a counting admission control that
//! never lets more than `MAX_CONCURRENT_TASKS` executions run at once.

use vstd::prelude::*;

verus! {

/// The capacity of the concurrency gate, shared by every task execution
/// in the process.
pub const MAX_CONCURRENT_TASKS: usize = 10;

/// A counting gate: `try_acquire` admits an execution only while fewer
/// than `MAX_CONCURRENT_TASKS` are active, and `release` returns a slot.
pub struct ConcurrencyGate {
    active: usize,
}

impl ConcurrencyGate {
    /// The number of executions currently holding a slot.
    pub closed spec fn active_count(&self) -> int {
        self.active as int
    }

    /// The count never exceeds the capacity.
    pub open spec fn wf(&self) -> bool {
        self.active_count() <= MAX_CONCURRENT_TASKS
    }

    /// A gate with every slot free.
    pub fn new() -> (r: Self)
        ensures
            r.active_count() == 0,
            r.wf(),
    {
        ConcurrencyGate { active: 0 }
    }

    /// The number of active executions.
    pub fn active(&self) -> (n: usize)
        ensures
            n == self.active_count(),
    {
        self.active
    }

    /// Admits one execution when a slot is free; refuses at capacity,
    /// leaving the count unchanged.
    pub fn try_acquire(&mut self) -> (ok: bool)
        requires
            old(self).wf(),
        ensures
            final(self).wf(),
            ok == (old(self).active_count() < MAX_CONCURRENT_TASKS),
            ok ==> final(self).active_count() == old(self).active_count() + 1,
            !ok ==> final(self).active_count() == old(self).active_count(),
    {
        if self.active < MAX_CONCURRENT_TASKS {
            self.active = self.active + 1;
            true
        } else {
            false
        }
    }

    /// Returns one slot; releasing an idle gate is a no-op.
    pub fn release(&mut self)
        requires
            old(self).wf(),
        ensures
            final(self).wf(),
            final(self).active_count() == if old(self).active_count() > 0 {
                old(self).active_count() - 1
            } else {
                0
            },
    {
        if self.active > 0 {
            self.active = self.active - 1;
        }
    }
}

/// However the slots have been acquired and released, at most
/// `MAX_CONCURRENT_TASKS` executions hold one at any instant: every
/// well-formed state, and every state these operations produce, keeps the
/// active count within the capacity.
pub proof fn lemma_gate_bounds_concurrency(g: &ConcurrencyGate)
    requires
        g.wf(),
    ensures
        g.active_count() <= MAX_CONCURRENT_TASKS,
{
}

} // verus!
