//! Cloning a repository, with the progress of the fetch shown as it goes.
pub mod progress;

use vstd::prelude::*;

use crate::paths::{join, spec_join};
use crate::task::Status;
use crate::task::tasks::clone::progress::{CloneProgress, ProgressView};

verus! {

/// Clones the repository at `remote_path` into `path`.
pub struct CloneTask {
    pub path: String,
    pub remote_path: String,
}

/// Clones the repository at `remote_path` into `path`.
pub fn new(path: String, remote_path: String) -> (task: CloneTask)
    ensures
        task.path == path,
        task.remote_path == remote_path,
{
    CloneTask { path, remote_path }
}

impl CloneTask {
    /// The directory whose presence shows that the repository is cloned already.
    pub fn git_directory(&self) -> (dir: String)
        ensures
            dir@ == spec_join(self.path@, ".git"@),
    {
        join(self.path.as_str(), ".git")
    }
}

/// Decides on whether the git directory exists as a directory: then the clone is
/// done already; otherwise it starts.
pub fn start(git_directory_is_dir: bool) -> (decision: (CloneProgress, Option<Status>))
    ensures
        git_directory_is_dir ==> decision.0@ == ProgressView::Complete && decision.1 == Some(Status::AlreadyBuilt),
        !git_directory_is_dir ==> decision.0@ == ProgressView::Starting && decision.1 is None,
{
    if git_directory_is_dir {
        (CloneProgress::Complete, Some(Status::AlreadyBuilt))
    } else {
        (CloneProgress::Starting, None)
    }
}

/// The progress to show after a fresh look at the progress tree: the new one
/// when it shows something else than the current one, none otherwise.
pub fn refresh(current: &CloneProgress, snapshot: CloneProgress) -> (update: Option<CloneProgress>)
    ensures
        current@ == snapshot@ <==> update is None,
        update matches Some(next) ==> next@ == snapshot@,
{
    if current.same_as(&snapshot) {
        None
    } else {
        Some(snapshot)
    }
}

/// The progress and the answer of the task once the clone has finished with `result`.
pub fn finish(result: Result<(), String>) -> (outcome: (CloneProgress, Result<Status, String>))
    ensures
        result is Ok ==> outcome.0@ == ProgressView::Complete && outcome.1 == Ok::<Status, String>(Status::Built),
        result matches Err(message) ==> outcome.0@ == ProgressView::Failed(message@) && outcome.1 == Err::<Status, String>(message),
{
    match result {
        Ok(()) => (CloneProgress::Complete, Ok(Status::Built)),
        Err(message) => (CloneProgress::Failed(message.clone()), Err(message)),
    }
}

} // verus!
