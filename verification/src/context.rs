//! Metering of instructions.
use vstd::prelude::*;

verus! {

/// Instruction meter
pub trait ContextObject {
    /// Number of remaining instructions allowed
    spec fn spec_remaining(&self) -> u64;

    /// Consume instructions
    fn consume(&mut self, amount: u64)
        requires
            amount <= old(self).spec_remaining(),
        ensures
            final(self).spec_remaining() == old(self).spec_remaining() - amount,
    ;

    /// Get the number of remaining instructions allowed
    fn get_remaining(&self) -> (remaining: u64)
        ensures
            remaining == self.spec_remaining(),
    ;
}

/// Simple instruction meter for testing
#[derive(Debug, PartialEq, Eq)]
pub struct TestContextObject {
    /// Maximal amount of instructions which still can be executed
    pub remaining: u64,
}

impl ContextObject for TestContextObject {
    open spec fn spec_remaining(&self) -> u64 {
        self.remaining
    }

    fn consume(&mut self, amount: u64) {
        self.remaining = self.remaining.saturating_sub(amount);
    }

    fn get_remaining(&self) -> (remaining: u64) {
        self.remaining
    }
}

impl Default for TestContextObject {
    fn default() -> (context: Self)
        ensures
            context.remaining == 0,
    {
        TestContextObject { remaining: 0 }
    }
}

} // verus!
