//! The decisions of the background worker that runs operations: how a run
//! ends for each exit code, launch failure or poll result, and where its
//! captured output is written.
use vstd::prelude::*;

use crate::exec::{exec_error_text, ExecError};

verus! {

broadcast use vstd::string::group_string_axioms;

/// How a run ended.
#[derive(Debug, Clone, PartialEq, Eq)]
pub enum Outcome {
    /// The command exited with status zero.
    Success,
    /// The command exited with a non-zero status.
    Failed(i32),
    /// The user dismissed the UAC prompt.
    Declined,
    /// The operation could not be launched or polled.
    Error(String),
}

/// What the worker does after polling a running elevated child.
#[derive(Debug, Clone, PartialEq, Eq)]
pub enum PollDecision {
    /// The child is still running: wait and poll again.
    KeepPolling,
    /// The child exited: read the output once more, then report the outcome.
    Exited(Outcome),
    /// Polling failed: report the outcome without reading again.
    Abandon(Outcome),
}

/// The outcome of a command that exited with `code`.
pub open spec fn exit_outcome_of(code: i32) -> Outcome {
    if code == 0 {
        Outcome::Success
    } else {
        Outcome::Failed(code)
    }
}

/// The outcome of a command that exited with `code`: success exactly when the
/// code is zero.
pub fn exit_outcome(code: i32) -> (outcome: Outcome)
    ensures
        outcome == Outcome::Success <==> code == 0,
        code != 0 ==> outcome == Outcome::Failed(code),
        outcome == exit_outcome_of(code),
{
    if code == 0 {
        Outcome::Success
    } else {
        Outcome::Failed(code)
    }
}

/// The outcome of a launch that failed: a declined elevation is reported as
/// such, any other error with its message.
pub fn launch_failure_outcome(err: &ExecError) -> (outcome: Outcome)
    ensures
        *err == ExecError::Declined ==> outcome == Outcome::Declined,
        *err != ExecError::Declined ==> (outcome matches Outcome::Error(text) && text@
            == exec_error_text(*err)),
{
    match err {
        ExecError::Declined => Outcome::Declined,
        _ => Outcome::Error(err.message()),
    }
}

/// What to do after polling the exit code of a running elevated child.
pub fn poll_decision(poll: &Result<Option<i32>, ExecError>) -> (decision: PollDecision)
    ensures
        *poll == Ok::<Option<i32>, ExecError>(None) ==> decision == PollDecision::KeepPolling,
        poll matches Ok(Some(code)) ==> decision == PollDecision::Exited(exit_outcome_of(*code)),
        poll matches Ok(Some(code)) ==> (decision == PollDecision::Exited(Outcome::Success)
            <==> code == 0),
        poll matches Ok(Some(code)) ==> (code != 0 ==> decision == PollDecision::Exited(
            Outcome::Failed(*code),
        )),
        poll matches Err(err) ==> (decision matches PollDecision::Abandon(Outcome::Error(text))
            && text@ == exec_error_text(*err)),
{
    match poll {
        Ok(None) => PollDecision::KeepPolling,
        Ok(Some(code)) => PollDecision::Exited(exit_outcome(*code)),
        Err(err) => PollDecision::Abandon(Outcome::Error(err.message())),
    }
}

/// The file name of a run's captured output: `<operation id>-<stamp>.log`.
pub open spec fn run_log_name_of(operation_id: Seq<char>, stamp: Seq<char>) -> Seq<char> {
    operation_id + "-"@ + stamp + ".log"@
}

/// The file name of a run's captured output: `<operation id>-<stamp>.log`.
pub fn run_log_file_name(operation_id: &str, stamp: &str) -> (name: String)
    ensures
        name@ == run_log_name_of(operation_id@, stamp@),
{
    let mut name = String::from_str(operation_id);
    name.append("-");
    name.append(stamp);
    name.append(".log");
    name
}

/// A run succeeds exactly when its exit code is zero; any other code, negative
/// ones (failure HRESULTs) included, is a failure carrying that code.
pub proof fn lemma_exit_outcome_success_iff_zero(code: i32)
    ensures
        exit_outcome_of(code) == Outcome::Success <==> code == 0,
        code != 0 ==> exit_outcome_of(code) == Outcome::Failed(code),
        code < 0 ==> exit_outcome_of(code) != Outcome::Success,
{
}

} // verus!
