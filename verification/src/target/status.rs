//! Where a target stands, as the user sees it.
use vstd::prelude::*;

use crate::task::Status;

verus! {

/// The state of a target: not yet run, waiting for its dependencies, running its
/// task, failed with a message, or satisfied.
#[derive(Clone, Debug, PartialEq, Eq)]
pub enum TargetStatus {
    Unsatisfied,
    Running,
    Error(String),
    Satisfied(Status),
    RunningDependencies,
}

/// The icon shown beside a target for its status.
#[derive(Clone, Copy, Debug, PartialEq, Eq, Structural)]
pub enum StatusIcon {
    CircleDashed,
    CircleEllipsis,
    Loader,
    Hammer,
    CheckCircle,
    CircleX,
}

/// The label of a status.
pub open spec fn spec_label(status: TargetStatus) -> Seq<char> {
    match status {
        TargetStatus::Unsatisfied => "Unsatisfied"@,
        TargetStatus::RunningDependencies => "Running dependencies"@,
        TargetStatus::Running => "Running"@,
        TargetStatus::Satisfied(Status::Built) => "Built"@,
        TargetStatus::Satisfied(Status::AlreadyBuilt) => "Already built"@,
        TargetStatus::Error(_) => "Error"@,
    }
}

/// The icon of a status.
pub open spec fn spec_icon(status: TargetStatus) -> StatusIcon {
    match status {
        TargetStatus::Unsatisfied => StatusIcon::CircleDashed,
        TargetStatus::RunningDependencies => StatusIcon::CircleEllipsis,
        TargetStatus::Running => StatusIcon::Loader,
        TargetStatus::Satisfied(Status::Built) => StatusIcon::Hammer,
        TargetStatus::Satisfied(Status::AlreadyBuilt) => StatusIcon::CheckCircle,
        TargetStatus::Error(_) => StatusIcon::CircleX,
    }
}

impl TargetStatus {
    /// The label shown for the status.
    pub fn label(&self) -> (label: &'static str)
        ensures
            label@ == spec_label(*self),
    {
        proof {
            reveal_strlit("Unsatisfied");
            reveal_strlit("Running dependencies");
            reveal_strlit("Running");
            reveal_strlit("Built");
            reveal_strlit("Already built");
            reveal_strlit("Error");
        }
        match self {
            TargetStatus::Unsatisfied => "Unsatisfied",
            TargetStatus::RunningDependencies => "Running dependencies",
            TargetStatus::Running => "Running",
            TargetStatus::Satisfied(Status::Built) => "Built",
            TargetStatus::Satisfied(Status::AlreadyBuilt) => "Already built",
            TargetStatus::Error(_) => "Error",
        }
    }

    /// The icon shown for the status.
    pub fn get_icon(&self) -> (icon: StatusIcon)
        ensures
            icon == spec_icon(*self),
    {
        match self {
            TargetStatus::Unsatisfied => StatusIcon::CircleDashed,
            TargetStatus::RunningDependencies => StatusIcon::CircleEllipsis,
            TargetStatus::Running => StatusIcon::Loader,
            TargetStatus::Satisfied(status) => match status {
                Status::Built => StatusIcon::Hammer,
                Status::AlreadyBuilt => StatusIcon::CheckCircle,
            },
            TargetStatus::Error(_) => StatusIcon::CircleX,
        }
    }

    /// Whether the target's task has finished well.
    pub fn satisfied(&self) -> (satisfied: bool)
        ensures
            satisfied == (*self is Satisfied),
    {
        match self {
            TargetStatus::Satisfied(_) => true,
            _ => false,
        }
    }
}

/// Statuses with different labels are different; only error statuses share a label.
pub proof fn lemma_labels_tell_statuses_apart(a: TargetStatus, b: TargetStatus)
    requires
        spec_label(a) == spec_label(b),
    ensures
        a == b || (a is Error && b is Error),
{
    reveal_strlit("Unsatisfied");
    reveal_strlit("Running dependencies");
    reveal_strlit("Running");
    reveal_strlit("Built");
    reveal_strlit("Already built");
    reveal_strlit("Error");
    assert("Unsatisfied"@.len() == 11);
    assert("Running dependencies"@.len() == 20);
    assert("Running"@.len() == 7);
    assert("Built"@.len() == 5);
    assert("Already built"@.len() == 13);
    assert("Error"@.len() == 5);
    assert("Built"@[0] != "Error"@[0]);
}

} // verus!
