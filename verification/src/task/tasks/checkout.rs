//! Checking out a branch of a repository.
use vstd::prelude::*;

use crate::task::tasks::terminal;
use crate::text::{push_str, spec_trim, string_from_chars, trim};

verus! {

/// Checks out `branch` in the repository at `repo_path`.
pub struct CheckoutTask {
    pub repo_path: String,
    pub branch: String,
}

/// What to do once the repository's current branch is known.
pub enum CheckoutStep<T> {
    /// The branch is checked out already.
    AlreadyOnBranch,
    /// Run this checkout command.
    Checkout(terminal::Task<T>),
    /// Asking git for the current branch failed, with this message.
    Failed(String),
}

/// Checks out `branch` in the repository at `repo_path`.
pub fn new(repo_path: String, branch: String) -> (task: CheckoutTask)
    ensures
        task.repo_path == repo_path,
        task.branch == branch,
{
    CheckoutTask { repo_path, branch }
}

impl CheckoutTask {
    /// The target shows the repository's path.
    pub fn init_path(&self) -> (path: String)
        ensures
            path == self.repo_path,
    {
        self.repo_path.clone()
    }

    /// Decides on what `git branch --show-current`, run in the repository,
    /// answered: whether it succeeded, and what it wrote to its output and to its
    /// error stream.
    pub fn decide<T>(&self, succeeded: bool, stdout: &str, stderr: &str) -> (step: CheckoutStep<T>)
        ensures
            !succeeded ==> (step matches CheckoutStep::Failed(message)
                && message@ == "Git branch command failed: "@ + stderr@),
            succeeded && spec_trim(stdout@) == self.branch@ ==> step is AlreadyOnBranch,
            succeeded && spec_trim(stdout@) != self.branch@ ==> (step matches CheckoutStep::Checkout(task) && {
                &&& task.terminal is None
                &&& task.command@ == "git checkout "@ + self.branch@
                &&& task.working_dir == Some(self.repo_path)
            }),
    {
        if !succeeded {
            let mut message: Vec<char> = Vec::new();
            push_str("Git branch command failed: ", &mut message);
            push_str(stderr, &mut message);
            return CheckoutStep::Failed(string_from_chars(&message));
        }
        let current = trim(stdout);
        if current == self.branch {
            CheckoutStep::AlreadyOnBranch
        } else {
            let mut command: Vec<char> = Vec::new();
            push_str("git checkout ", &mut command);
            push_str(self.branch.as_str(), &mut command);
            CheckoutStep::Checkout(terminal::new_in_dir(string_from_chars(&command), self.repo_path.clone()))
        }
    }
}

} // verus!
