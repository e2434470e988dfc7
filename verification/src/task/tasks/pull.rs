//! Pulling the current branch of a repository.
use vstd::prelude::*;

use crate::task::tasks::terminal;

verus! {

/// Runs `git pull` in a new terminal, in the repository at `repo_path`.
pub fn new<T>(repo_path: String) -> (task: terminal::Task<T>)
    ensures
        task.terminal is None,
        task.command@ == "git pull"@,
        task.working_dir == Some(repo_path),
{
    terminal::new_in_dir("git pull".to_owned(), repo_path)
}

} // verus!
