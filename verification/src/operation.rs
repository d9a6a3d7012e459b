//! The operation model: a single, described maintenance or diagnostic action
//! the toolkit can run.
use vstd::prelude::*;

use crate::command::CommandSpec;
use crate::{Elevation, Risk};

verus! {

/// A single maintenance or diagnostic action.
#[derive(Debug, Clone, PartialEq, Eq)]
pub struct Operation {
    /// Stable machine identifier, used for logging and UI state.
    pub id: &'static str,
    /// Short human-facing name.
    pub label: &'static str,
    /// What the operation does and its consequences, shown before it runs.
    pub description: &'static str,
    /// A rough duration expectation shown to the user.
    pub duration_hint: &'static str,
    /// How consequential the operation is.
    pub risk: Risk,
    /// Whether the operation must run elevated.
    pub elevation: Elevation,
    /// Whether the operation can be safely cancelled once started.
    pub cancelable: bool,
    /// The command to run.
    pub command: CommandSpec,
}

/// The System File Checker: scans protected system files and repairs corrupted
/// ones from the local component store. It runs elevated, is high-risk and
/// cannot be cancelled.
pub fn sfc_scannow() -> (op: Operation)
    ensures
        op.id@ == "sfc-scannow"@,
        op.label@ == "System File Checker (sfc /scannow)"@,
        op.description@ == "Scans all protected Windows system files and repairs corrupted ones from the \
                      local component store. Makes no other changes. Requires Administrator rights \
                      and cannot be safely interrupted once started."@,
        op.duration_hint@ == "Usually 5-15 minutes"@,
        op.risk == Risk::High,
        op.elevation == Elevation::Administrator,
        !op.cancelable,
        op.command.program@ == "sfc"@,
        op.command.args.deep_view() == seq!["/scannow"@],
{
    let args: [&str; 1] = ["/scannow"];
    let arg_slice = args.as_slice();
    assert(arg_slice.deep_view() =~= seq!["/scannow"@]);
    let command = CommandSpec::new("sfc", arg_slice);
    Operation {
        id: "sfc-scannow",
        label: "System File Checker (sfc /scannow)",
        description: "Scans all protected Windows system files and repairs corrupted ones from the \
                      local component store. Makes no other changes. Requires Administrator rights \
                      and cannot be safely interrupted once started.",
        duration_hint: "Usually 5-15 minutes",
        risk: Risk::High,
        elevation: Elevation::Administrator,
        cancelable: false,
        command,
    }
}

} // verus!
