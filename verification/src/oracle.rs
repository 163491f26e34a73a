//! Judging what the target did with an input, and what a worker does next.

use vstd::prelude::*;
use crate::naming::{crash_file_name, crash_name};
use crate::rng::draw_tag;

verus! {

/// How a run of the target ended.
#[derive(Clone, Copy, Debug, PartialEq, Eq, Structural)]
pub enum ExitOutcome {
    /// The target exited with this code; zero included.
    Code(i32),
    /// The target ended without an exit code, for instance killed by a signal.
    Fault,
}

/// What an outcome means for the input that was run.
#[derive(Clone, Copy, Debug, PartialEq, Eq, Structural)]
pub enum Verdict {
    /// The target accepted the input.
    Pass,
    /// The target failed with this nonzero code: the input is a crash.
    Crash(i32),
    /// No code can be attributed to the run. This is not a crash; the worker
    /// cannot go on.
    Fatal,
}

/// What to do when the scratch file cannot be opened for writing.
#[derive(Clone, Copy, Debug, PartialEq, Eq, Structural)]
pub enum OpenAction {
    /// The file is momentarily held by someone else: try again at once.
    Retry,
    /// Any other failure is passed on to the caller.
    Fail,
}

/// What a worker does after one run of the target.
#[derive(Debug)]
pub enum WorkerStep {
    /// Nothing to keep. Count the test and go on.
    Continue,
    /// Save the input under `name`, report `exit_code`, count the test and go on.
    Record { exit_code: i32, name: String },
    /// Stop this worker.
    Abort,
}

/// The operating system's error number for a file that is in use.
pub const BUSY: i32 = 32;

/// The verdict that belongs to an outcome.
pub open spec fn verdict_of(outcome: ExitOutcome) -> Verdict {
    match outcome {
        ExitOutcome::Code(code) => if code == 0 {
            Verdict::Pass
        } else {
            Verdict::Crash(code)
        },
        ExitOutcome::Fault => Verdict::Fatal,
    }
}

impl ExitOutcome {
    /// Reads the outcome off a child's status: its exit code, if it has one.
    pub fn from_code(code: Option<i32>) -> (outcome: ExitOutcome)
        ensures
            code matches Some(c) ==> outcome == ExitOutcome::Code(c),
            code is None ==> outcome == ExitOutcome::Fault,
    {
        match code {
            Some(c) => ExitOutcome::Code(c),
            None => ExitOutcome::Fault,
        }
    }
}

/// Classifies the outcome of a run.
pub fn judge(outcome: ExitOutcome) -> (verdict: Verdict)
    ensures
        verdict == verdict_of(outcome),
{
    match outcome {
        ExitOutcome::Code(code) => {
            if code == 0 {
                Verdict::Pass
            } else {
                Verdict::Crash(code)
            }
        },
        ExitOutcome::Fault => Verdict::Fatal,
    }
}

/// Decides between another attempt and failure when opening the scratch file
/// went wrong. `raw_os_error` is the operating system's error number, if the
/// error carries one.
pub fn on_open_error(raw_os_error: Option<i32>) -> (action: OpenAction)
    ensures
        action == OpenAction::Retry <==> raw_os_error == Some(BUSY),
        action == OpenAction::Fail <==> raw_os_error != Some(BUSY),
{
    match raw_os_error {
        Some(number) => {
            if number == BUSY {
                OpenAction::Retry
            } else {
                OpenAction::Fail
            }
        },
        None => OpenAction::Fail,
    }
}

/// The step a worker takes for an outcome, given the disambiguator to use
/// should the outcome be a crash.
pub fn step_for(outcome: ExitOutcome, tag: u32, suffix: &str) -> (step: WorkerStep)
    ensures
        verdict_of(outcome) == Verdict::Pass ==> step == WorkerStep::Continue,
        verdict_of(outcome) == Verdict::Fatal ==> step == WorkerStep::Abort,
        verdict_of(outcome) matches Verdict::Crash(code) ==> {
            &&& step matches WorkerStep::Record { exit_code, name }
            &&& exit_code == code
            &&& name@ == crash_name(code, tag, suffix@)
        },
{
    match judge(outcome) {
        Verdict::Pass => WorkerStep::Continue,
        Verdict::Crash(code) => WorkerStep::Record {
            exit_code: code,
            name: crash_file_name(code, tag, suffix),
        },
        Verdict::Fatal => WorkerStep::Abort,
    }
}

/// Decides a worker's next step after a run of the target. For a crash a
/// disambiguator is drawn at random, so the name is known only up to it.
pub fn after_run(outcome: ExitOutcome, rng: &mut rand::rngs::ThreadRng, suffix: &str) -> (step:
    WorkerStep)
    ensures
        verdict_of(outcome) == Verdict::Pass ==> step == WorkerStep::Continue,
        verdict_of(outcome) == Verdict::Fatal ==> step == WorkerStep::Abort,
        verdict_of(outcome) matches Verdict::Crash(code) ==> {
            &&& step matches WorkerStep::Record { exit_code, name }
            &&& exit_code == code
            &&& exists|tag: u32| name@ == #[trigger] crash_name(code, tag, suffix@)
        },
{
    match judge(outcome) {
        Verdict::Pass => WorkerStep::Continue,
        Verdict::Crash(_) => {
            let tag = draw_tag(rng);
            step_for(outcome, tag, suffix)
        },
        Verdict::Fatal => WorkerStep::Abort,
    }
}

} // verus!
