//! Portable logic of the Windows toolkit: the operation catalog, command-line
//! building and console-output decoding, the system report, the sandbox
//! configuration, startup-entry rules, path layout, log rotation and the
//! decisions of the background worker.
use vstd::prelude::*;

pub mod command;
pub mod diagnostics;
pub mod exec;
pub mod icon;
pub mod operation;
pub mod overview;
pub mod paths;
pub mod sandbox;
pub mod startup;
pub mod sysinfo;
pub mod text;
pub mod worker;

pub use command::{
    CommandLine, CommandSpec, compact_lines, console_lines, decode_console_output,
    elevated_cmd_parameters,
};
pub use operation::{Operation, sfc_scannow};
pub use sysinfo::{DriveInfo, SystemInfo, format_bytes, format_uptime};

verus! {

/// The short, filesystem-safe application slug, used for the app-data
/// directory and log file names.
pub const APP_SLUG: &'static str = "win-toolkit";

/// The human-facing product name, shown in the window title.
pub const APP_TITLE: &'static str = "Windows Toolkit";

/// Whether an operation needs Administrator rights to run.
#[derive(Debug, Clone, Copy, PartialEq, Eq, Structural)]
pub enum Elevation {
    /// Runs in the current (unelevated) process.
    Unelevated,
    /// Must be launched with Administrator rights.
    Administrator,
}

/// How consequential an operation is, used to choose how prominently the UI
/// warns the user before running it.
#[derive(Debug, Clone, Copy, PartialEq, Eq, Structural)]
pub enum Risk {
    /// Read-only inspection with no system changes.
    ReadOnly,
    /// Changes state but is trivially and fully reversible.
    Low,
    /// Changes state in a way that is reversible but disruptive.
    Medium,
    /// Long-running or hard-to-interrupt system servicing operations.
    High,
}

} // verus!
