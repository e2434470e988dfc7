//! Tasks that run a shell command in a terminal.
use vstd::prelude::*;

verus! {

/// A command to run, in a given directory or the current one, in a given
/// terminal or a new one.
pub struct Task<T> {
    pub terminal: Option<T>,
    pub command: String,
    pub working_dir: Option<String>,
}

impl<T> Task<T> {
    /// Runs `command` in a new terminal, in the current directory.
    pub fn new(command: String) -> (task: Self)
        ensures
            task.terminal is None,
            task.command == command,
            task.working_dir is None,
    {
        Task { terminal: None, command, working_dir: None }
    }

    /// Runs `command` in a new terminal, in `working_dir`.
    pub fn new_in_dir(command: String, working_dir: String) -> (task: Self)
        ensures
            task.terminal is None,
            task.command == command,
            task.working_dir == Some(working_dir),
    {
        Task { terminal: None, command, working_dir: Some(working_dir) }
    }

    /// Runs `command` in `terminal`, in the current directory.
    pub fn with_terminal(terminal: T, command: String) -> (task: Self)
        ensures
            task.terminal == Some(terminal),
            task.command == command,
            task.working_dir is None,
    {
        Task { terminal: Some(terminal), command, working_dir: None }
    }

    /// Runs `command` in `terminal`, in `working_dir`.
    pub fn with_terminal_in_dir(terminal: T, command: String, working_dir: String) -> (task: Self)
        ensures
            task.terminal == Some(terminal),
            task.command == command,
            task.working_dir == Some(working_dir),
    {
        Task { terminal: Some(terminal), command, working_dir: Some(working_dir) }
    }

    /// The terminal given to the task, if any.
    pub fn widget(&self) -> (terminal: Option<&T>)
        ensures
            match terminal {
                Some(t) => self.terminal == Some(*t),
                None => self.terminal is None,
            },
    {
        match &self.terminal {
            Some(t) => Some(t),
            None => None,
        }
    }

    /// The path that the target shows for the task: its working directory, if it has one;
    /// a task without one leaves the target's path as it is.
    pub fn init_path(&self) -> (path: Option<String>)
        ensures
            path == self.working_dir,
    {
        match &self.working_dir {
            Some(dir) => Some(dir.clone()),
            None => None,
        }
    }
}

/// Runs `command` in a new terminal, in the current directory.
pub fn new<T>(command: String) -> (task: Task<T>)
    ensures
        task.terminal is None,
        task.command == command,
        task.working_dir is None,
{
    Task::new(command)
}

/// Runs `command` in a new terminal, in `working_dir`.
pub fn new_in_dir<T>(command: String, working_dir: String) -> (task: Task<T>)
    ensures
        task.terminal is None,
        task.command == command,
        task.working_dir == Some(working_dir),
{
    Task::new_in_dir(command, working_dir)
}

/// Runs `command` in `terminal`, in the current directory.
pub fn with_terminal<T>(terminal: T, command: String) -> (task: Task<T>)
    ensures
        task.terminal == Some(terminal),
        task.command == command,
        task.working_dir is None,
{
    Task::with_terminal(terminal, command)
}

/// Runs `command` in `terminal`, in `working_dir`.
pub fn with_terminal_in_dir<T>(terminal: T, command: String, working_dir: String) -> (task: Task<T>)
    ensures
        task.terminal == Some(terminal),
        task.command == command,
        task.working_dir == Some(working_dir),
{
    Task::with_terminal_in_dir(terminal, command, working_dir)
}

} // verus!
