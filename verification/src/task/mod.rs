pub mod tasks;

use vstd::prelude::*;

verus! {

/// How a task finished: it did work, or found its goal already reached.
#[derive(Clone, Copy, Debug, PartialEq, Eq, Structural)]
pub enum Status {
    Built,
    AlreadyBuilt,
}

} // verus!
