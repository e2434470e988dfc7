//! A target runs its task once its dependencies have run, and keeps the output.
pub mod status;

use vstd::prelude::*;

use crate::task::Status;
use crate::target::status::TargetStatus;

verus! {

/// What a target remembers between runs: its status, the task's output once the
/// task succeeded, and, while its dependencies run, how many of them are still to
/// report success (unknown until the list of dependencies has been read).
pub struct RunState<O> {
    pub status: TargetStatus,
    pub output: Option<O>,
    pub pending: Option<nat>,
}

/// What to do when a target is asked for its output.
#[derive(Clone, Copy, Debug, PartialEq, Eq, Structural)]
pub enum RunStep {
    /// The output is kept from an earlier run: hand out a copy of it.
    Cached,
    /// Make sure every dependency has run, in order, reporting each one back.
    RunDependencies,
}

/// What to do once a dependency has run.
#[derive(Clone, Debug, PartialEq, Eq)]
pub enum DependencyStep {
    /// Go on with the next dependency, or with the task once none is left.
    Continue,
    /// The dependency failed with this message: the run ends with it.
    Stop(String),
}

/// A target is asked for its output.
pub open spec fn spec_start<O>(s: RunState<O>) -> (RunState<O>, RunStep) {
    if s.output is Some {
        (s, RunStep::Cached)
    } else {
        (
            RunState { status: TargetStatus::RunningDependencies, output: s.output, pending: None },
            RunStep::RunDependencies,
        )
    }
}

/// The list of the target's dependencies has been read: `count` of them are to run.
pub open spec fn spec_expect_dependencies<O>(s: RunState<O>, count: nat) -> RunState<O> {
    RunState { status: s.status, output: s.output, pending: Some(count) }
}

/// A dependency has run with `result`: a success counts it off, a failure stops
/// the run and leaves the state as it was.
pub open spec fn spec_dependency_ran<O>(s: RunState<O>, result: Result<(), String>) -> (RunState<O>, DependencyStep) {
    match result {
        Ok(_) => match s.pending {
            Some(k) => if k > 0 {
                (RunState { status: s.status, output: s.output, pending: Some((k - 1) as nat) }, DependencyStep::Continue)
            } else {
                (s, DependencyStep::Continue)
            },
            None => (s, DependencyStep::Continue),
        },
        Err(message) => (s, DependencyStep::Stop(message)),
    }
}

/// Every dependency of the target has reported success: the task may run.
pub open spec fn dependencies_succeeded<O>(s: RunState<O>) -> bool {
    s.status == TargetStatus::RunningDependencies && s.pending == Some(0nat)
}

/// Reporting the results of the dependencies in order, up to the first failure.
pub open spec fn spec_report_dependencies<O>(s: RunState<O>, results: Seq<Result<(), String>>) -> RunState<O>
    decreases results.len(),
{
    if results.len() == 0 {
        s
    } else {
        match results[0] {
            Ok(_) => spec_report_dependencies(spec_dependency_ran(s, results[0]).0, results.drop_first()),
            Err(_) => s,
        }
    }
}

/// Every dependency has run: the task runs next.
pub open spec fn spec_dependencies_done<O>(s: RunState<O>) -> RunState<O> {
    RunState { status: TargetStatus::Running, output: s.output, pending: None }
}

/// The task has finished: a failure is recorded with its message, a success
/// with its status and output.
pub open spec fn spec_finish<O>(s: RunState<O>, result: Result<(O, Status), String>) -> RunState<O> {
    match result {
        Ok((output, status)) => RunState { status: TargetStatus::Satisfied(status), output: Some(output), pending: None },
        Err(message) => RunState { status: TargetStatus::Error(message), output: s.output, pending: None },
    }
}

/// A target keeps an output only once its task has succeeded.
pub open spec fn run_wf<O>(s: RunState<O>) -> bool {
    s.output is Some ==> s.status is Satisfied
}

/// The run of a target's task: asked for its output, a target hands out what it
/// kept, or has its dependencies run, then its task, and keeps what the task returns.
///
/// A failed dependency ends the run with that dependency's error and leaves the
/// status as it was; asking again starts over.
pub struct TargetRun<O> {
    status: TargetStatus,
    output: Option<O>,
    pending: Option<usize>,
}

impl<O> View for TargetRun<O> {
    type V = RunState<O>;

    closed spec fn view(&self) -> RunState<O> {
        RunState {
            status: self.status,
            output: self.output,
            pending: match self.pending {
                Some(k) => Some(k as nat),
                None => None,
            },
        }
    }
}

impl<O> TargetRun<O> {
    /// A target that has not run.
    pub fn new() -> (run: Self)
        ensures
            run@ == (RunState::<O> { status: TargetStatus::Unsatisfied, output: None, pending: None }),
    {
        TargetRun { status: TargetStatus::Unsatisfied, output: None, pending: None }
    }

    /// The target's status.
    pub fn status(&self) -> (status: &TargetStatus)
        ensures
            *status == self@.status,
    {
        &self.status
    }

    /// The output kept from the task's successful run, if any.
    pub fn output(&self) -> (output: Option<&O>)
        ensures
            match output {
                Some(o) => self@.output == Some(*o),
                None => self@.output is None,
            },
    {
        match &self.output {
            Some(o) => Some(o),
            None => None,
        }
    }

    /// The target is asked for its output.
    pub fn start(&mut self) -> (step: RunStep)
        ensures
            (final(self)@, step) == spec_start(old(self)@),
    {
        if self.output.is_some() {
            RunStep::Cached
        } else {
            self.status = TargetStatus::RunningDependencies;
            self.pending = None;
            RunStep::RunDependencies
        }
    }

    /// The list of dependencies has been read: `count` dependencies are to run.
    pub fn expect_dependencies(&mut self, count: usize)
        requires
            old(self)@.status == TargetStatus::RunningDependencies,
            old(self)@.pending is None,
        ensures
            final(self)@ == spec_expect_dependencies(old(self)@, count as nat),
    {
        self.pending = Some(count);
    }

    /// The next dependency has run with `result`.
    pub fn dependency_ran(&mut self, result: Result<(), String>) -> (step: DependencyStep)
        requires
            old(self)@.status == TargetStatus::RunningDependencies,
            old(self)@.pending matches Some(k) && k > 0,
        ensures
            (final(self)@, step) == spec_dependency_ran(old(self)@, result),
    {
        match result {
            Ok(()) => {
                match self.pending {
                    Some(k) => {
                        self.pending = Some(k - 1);
                    },
                    None => {},
                }
                DependencyStep::Continue
            },
            Err(message) => DependencyStep::Stop(message),
        }
    }

    /// Every dependency has run and succeeded.
    pub fn dependencies_done(&mut self)
        requires
            dependencies_succeeded(old(self)@),
        ensures
            final(self)@ == spec_dependencies_done(old(self)@),
    {
        self.status = TargetStatus::Running;
        self.pending = None;
    }

    /// The task has finished with `result`: its output and status, or the
    /// message of its failure. Answers the task's status, or that message.
    pub fn finish(&mut self, result: Result<(O, Status), String>) -> (answer: Result<Status, String>)
        requires
            old(self)@.status == TargetStatus::Running,
        ensures
            final(self)@ == spec_finish(old(self)@, result),
            answer == match result {
                Ok((_, status)) => Ok::<Status, String>(status),
                Err(message) => Err(message),
            },
    {
        match result {
            Ok((output, status)) => {
                self.status = TargetStatus::Satisfied(status);
                self.output = Some(output);
                self.pending = None;
                Ok(status)
            },
            Err(message) => {
                let answer = message.clone();
                self.status = TargetStatus::Error(message);
                self.pending = None;
                Err(answer)
            },
        }
    }
}

/// Every step of a run keeps a target from holding an output that no successful
/// run gave it.
pub proof fn lemma_run_steps_keep_wf<O>(s: RunState<O>, result: Result<(O, Status), String>)
    requires
        run_wf(s),
    ensures
        run_wf(spec_start(s).0),
        run_wf(spec_expect_dependencies(s, 0)),
        run_wf(spec_dependency_ran(s, Ok(())).0),
        s.output is None ==> run_wf(spec_dependencies_done(s)),
        s.output is None ==> run_wf(spec_finish(s, result)),
        run_wf(RunState::<O> { status: TargetStatus::Unsatisfied, output: None, pending: None }),
{
}

/// Once a run has succeeded, the target hands out that run's output whenever it
/// is asked again, without running anything and without changing its status.
pub proof fn lemma_success_is_kept<O>(s: RunState<O>, output: O, status: Status)
    ensures
        ({
            let done = spec_finish(s, Ok((output, status)));
            &&& done.output == Some(output)
            &&& done.status == TargetStatus::Satisfied(status)
            &&& spec_start(done) == (done, RunStep::Cached)
        }),
{
}

/// A failed run keeps no output, shows the failure's message in its status, and
/// the next request runs the dependencies and the task again.
pub proof fn lemma_failure_reruns<O>(s: RunState<O>, message: String)
    requires
        s.output is None,
    ensures
        ({
            let failed = spec_finish(s, Err(message));
            &&& failed.status == TargetStatus::Error(message)
            &&& failed.output is None
            &&& spec_start(failed).1 == RunStep::RunDependencies
            &&& spec_start(failed).0.status == TargetStatus::RunningDependencies
        }),
{
}

proof fn lemma_reports_from<O>(s: RunState<O>, k: nat, results: Seq<Result<(), String>>)
    requires
        s.status == TargetStatus::RunningDependencies,
        s.pending == Some(k),
    ensures
        dependencies_succeeded(spec_report_dependencies(s, results))
            <==> (results.len() >= k && forall|i: int| 0 <= i < k ==> #[trigger] results[i] is Ok),
    decreases results.len(),
{
    if results.len() > 0 {
        let rest = results.drop_first();
        match results[0] {
            Ok(_) => {
                let next = spec_dependency_ran(s, results[0]).0;
                let k2: nat = if k > 0 { (k - 1) as nat } else { 0 };
                lemma_reports_from(next, k2, rest);
                if k > 0 {
                    if rest.len() >= k2 && forall|i: int| 0 <= i < k2 ==> #[trigger] rest[i] is Ok {
                        assert forall|i: int| 0 <= i < k implies #[trigger] results[i] is Ok by {
                            if i > 0 {
                                assert(results[i] == rest[i - 1]);
                            }
                        }
                    }
                    if results.len() >= k && forall|i: int| 0 <= i < k ==> #[trigger] results[i] is Ok {
                        assert forall|i: int| 0 <= i < k2 implies #[trigger] rest[i] is Ok by {
                            assert(results[i + 1] == rest[i]);
                        }
                    }
                }
            },
            Err(_) => {
                if k > 0 {
                    assert(!(results[0] is Ok));
                }
            },
        }
    }
}

/// A target's task runs only once every one of its dependencies has run and
/// succeeded, in order: after the list of `count` dependencies is read and their
/// results are reported one by one up to the first failure, the task may run
/// exactly when the first `count` results are all successes.
pub proof fn lemma_task_runs_after_dependencies_succeed<O>(
    s: RunState<O>,
    count: nat,
    results: Seq<Result<(), String>>,
)
    requires
        s.output is None,
    ensures
        spec_start(s).1 == RunStep::RunDependencies,
        dependencies_succeeded(spec_report_dependencies(spec_expect_dependencies(spec_start(s).0, count), results))
            <==> (results.len() >= count && forall|i: int| 0 <= i < count ==> #[trigger] results[i] is Ok),
{
    lemma_reports_from(spec_expect_dependencies(spec_start(s).0, count), count, results);
}

/// A failed dependency ends the run with its message and changes nothing.
pub proof fn lemma_failed_dependency_stops<O>(s: RunState<O>, message: String)
    ensures
        spec_dependency_ran(s, Err(message)) == (s, DependencyStep::Stop(message)),
{
}

} // verus!
