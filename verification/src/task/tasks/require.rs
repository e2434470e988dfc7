//! A task that does nothing: a target made of it only gathers its dependencies.
use vstd::prelude::*;

use crate::task::Status;

verus! {

/// A task with nothing to do.
#[derive(Clone, Copy, Debug, PartialEq, Eq, Structural)]
pub struct RequireTask {}

impl RequireTask {
    /// The task succeeds at once: once a target's dependencies have run, it is built.
    pub fn run(&self) -> (status: Status)
        ensures
            status == Status::Built,
    {
        Status::Built
    }
}

/// A task with nothing to do.
pub fn new() -> (task: RequireTask)
    ensures
        task == (RequireTask {}),
{
    RequireTask {}
}

} // verus!
