//! What the application wants the loop to do after a turn.

use vstd::prelude::*;

use crate::time::Instant;

verus! {

/// Set by the application while it handles an event; read at the start of the next turn.
#[derive(Debug, Clone, Copy, PartialEq, Eq, Structural)]
pub enum ControlFlow {
    /// Take another turn at once.
    Poll,
    /// Wait until something arrives.
    Wait,
    /// Wait until something arrives, but not beyond this time.
    WaitUntil(Instant),
    /// Leave the loop with this exit code. Once set it cannot be taken back.
    ExitWithCode(i32),
}

impl ControlFlow {
    /// What is in force after the application left `proposed` behind: an exit stays.
    pub open spec fn sticky(self, proposed: ControlFlow) -> ControlFlow {
        if self is ExitWithCode {
            self
        } else {
            proposed
        }
    }

    /// What is in force after the application left `proposed` behind.
    pub fn keep_exit(self, proposed: ControlFlow) -> (flow: ControlFlow)
        ensures
            flow == self.sticky(proposed),
            self is ExitWithCode ==> flow == self,
            !(self is ExitWithCode) ==> flow == proposed,
    {
        match self {
            ControlFlow::ExitWithCode(_) => self,
            _ => proposed,
        }
    }
}

} // verus!
