//! Retry-budget bookkeeping for the delivery loop.
//!
//! The budget is a saturating counter of remaining credits before delivery
//! failures are flagged as exhausted. It is observability only: it never
//! gates or suppresses the next delivery attempt.
use vstd::prelude::*;

verus! {

/// Tracks how many delivery failures in a row the agent will tolerate
/// before reporting its budget as exhausted.
pub struct RetryGovernor {
    /// The configured initial budget, restored on every success.
    initial: usize,
    /// The remaining credits; decremented (floor zero) on failure.
    budget: usize,
}

impl RetryGovernor {
    /// The budget never exceeds the configured initial value.
    pub closed spec fn wf(&self) -> bool {
        self.budget <= self.initial
    }

    pub closed spec fn spec_initial(&self) -> usize {
        self.initial
    }

    pub closed spec fn spec_budget(&self) -> usize {
        self.budget
    }

    pub fn new(initial: usize) -> (r: RetryGovernor)
        ensures
            r.wf(),
            r.spec_initial() == initial,
            r.spec_budget() == initial,
    {
        RetryGovernor { initial, budget: initial }
    }

    /// A failed delivery spends one credit; the count saturates at zero.
    pub fn on_failure(&mut self)
        ensures
            final(self).spec_initial() == old(self).spec_initial(),
            final(self).spec_budget() == if old(self).spec_budget() > 0 {
                (old(self).spec_budget() - 1) as usize
            } else {
                0usize
            },
            old(self).wf() ==> final(self).wf(),
    {
        if self.budget > 0 {
            self.budget = self.budget - 1;
        }
    }

    /// A successful delivery restores the full configured budget.
    pub fn on_success(&mut self)
        ensures
            final(self).spec_initial() == old(self).spec_initial(),
            final(self).spec_budget() == old(self).spec_initial(),
            final(self).wf(),
    {
        self.budget = self.initial;
    }

    /// The remaining credits, as reported beside delivery warnings.
    pub fn budget(&self) -> (b: usize)
        ensures
            b == self.spec_budget(),
    {
        self.budget
    }

    /// True when the budget has been spent down to zero.
    pub fn exhausted(&self) -> (e: bool)
        ensures
            e == (self.spec_budget() == 0),
    {
        self.budget == 0
    }
}

} // verus!
