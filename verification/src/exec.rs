//! Decisions around an elevated child process: how a failed launch is
//! classified, what a polled exit code means, and the text of each error.
use vstd::prelude::*;

verus! {

broadcast use vstd::string::group_string_axioms;

/// The Windows error code for an operation cancelled by the user, reported
/// when the UAC prompt is dismissed.
pub const ERROR_CANCELLED: u32 = 1223;

/// A failure while launching or polling an elevated child process.
#[derive(Debug, Clone, PartialEq, Eq)]
pub enum ExecError {
    /// The user dismissed the UAC prompt (declined elevation).
    Declined,
    /// Elevated execution was attempted on a non-Windows platform.
    Unsupported,
    /// A Windows API call failed.
    Api(String),
}

/// The text of an error.
pub open spec fn exec_error_text(err: ExecError) -> Seq<char> {
    match err {
        ExecError::Declined => "elevation was declined"@,
        ExecError::Unsupported => "elevated execution is only available on Windows"@,
        ExecError::Api(detail) => "Windows API error: "@ + detail@,
    }
}

/// The message for a launch that reported success but handed back no process.
pub open spec fn missing_handle_message() -> Seq<char> {
    "ShellExecuteEx returned no process handle"@
}

impl ExecError {
    /// The error's message, as shown to the user.
    pub fn message(&self) -> (text: String)
        ensures
            text@ == exec_error_text(*self),
    {
        match self {
            ExecError::Declined => String::from_str("elevation was declined"),
            ExecError::Unsupported => String::from_str(
                "elevated execution is only available on Windows",
            ),
            ExecError::Api(detail) => {
                let mut text = String::from_str("Windows API error: ");
                text.append(detail.as_str());
                text
            },
        }
    }
}

/// The result of polling a child: `None` while the process is still running,
/// else its exit code as the tool reported it (reinterpreted as `i32`). Whether
/// it has ended is an input, not guessed from the code, so a child that exits
/// with code 259 (which `GetExitCodeProcess` also reports for a running
/// process) is reported as finished.
pub fn exit_status(code: u32, finished: bool) -> (status: Option<i32>)
    ensures
        finished ==> status == Some(code as i32),
        !finished ==> status is None,
{
    if !finished {
        return None;
    }
    Some(code as i32)
}

/// The result of an elevated launch. `failure` holds the last Windows error
/// code and the API's message when the launch call failed; a failure whose
/// code is `ERROR_CANCELLED` means the user declined. A launch that succeeded
/// without a valid process handle is an API error too.
pub fn launch_result(failure: Option<(u32, String)>, handle_valid: bool) -> (r: Result<
    (),
    ExecError,
>)
    ensures
        failure matches Some((code, detail)) ==> r == (if code == ERROR_CANCELLED {
            Err::<(), ExecError>(ExecError::Declined)
        } else {
            Err(ExecError::Api(detail))
        }),
        failure is None && !handle_valid ==> (r matches Err(ExecError::Api(detail))
            && detail@ == missing_handle_message()),
        failure is None && handle_valid ==> r is Ok,
{
    match failure {
        Some((code, detail)) => {
            if code == ERROR_CANCELLED {
                Err(ExecError::Declined)
            } else {
                Err(ExecError::Api(detail))
            }
        },
        None => {
            if !handle_valid {
                Err(ExecError::Api(String::from_str("ShellExecuteEx returned no process handle")))
            } else {
                Ok(())
            }
        },
    }
}

} // verus!
