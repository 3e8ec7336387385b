//! Decisions of the launch loop.
//!
//! The loop has two states: scanning, and stopped after a failed process
//! replacement. While scanning, a found candidate is executed and an empty
//! scan is retried after a fixed pause, indefinitely. A process replacement
//! that returns has failed at the operating-system level; that is fatal:
//! the loop reports the filename and asks for a non-zero exit, rather than
//! retrying a permanently broken binary. The surrounding binary performs
//! the actions; the decisions stand here.

use vstd::prelude::*;

verus! {

/// The launch loop's state: scanning for a candidate, or stopped after a
/// failed process replacement.
pub enum LaunchState {
    Scanning,
    Failed,
}

/// What the surrounding binary reports: the scan found a candidate, the
/// scan found none, or a process replacement returned control, which only
/// happens when it failed.
pub enum LaunchEvent {
    Found { filename: String },
    NotFound,
    ExecReturned { filename: String },
}

/// What the loop asks the surrounding binary to do next.
pub enum LaunchAction {
    /// Replace the process image with the named executable, passing only
    /// its own name and the inherited environment.
    Exec { filename: String },
    /// Sleep for the fixed retry interval, then scan again.
    Sleep,
    /// Write the message to standard error and exit with the given status.
    ReportFailure { message: String, exit_code: i32 },
}

/// The diagnostic naming the executable that could not be run.
pub fn failure_message(filename: &str) -> (r: String)
    ensures
        r@ == "Failed to execute: "@ + filename@,
{
    let mut s = String::from_str("Failed to execute: ");
    s.append(filename);
    s
}

/// One transition of the launch loop. From the scanning state: a found
/// candidate is executed and the loop keeps scanning until the replacement
/// resolves; an empty scan sleeps and scans again, so the loop never ends
/// on its own; a replacement that returned is fatal, with a diagnostic
/// naming the executable and exit status 1.
pub fn launch_step(state: LaunchState, event: LaunchEvent) -> (r: (LaunchState, LaunchAction))
    requires
        state is Scanning,
    ensures
        match event {
            LaunchEvent::Found { filename } => r.0 is Scanning && (r.1 matches LaunchAction::Exec {
                filename: f,
            } && f@ == filename@),
            LaunchEvent::NotFound => r.0 is Scanning && r.1 is Sleep,
            LaunchEvent::ExecReturned { filename } => r.0 is Failed && (r.1 matches
            LaunchAction::ReportFailure {
                message,
                exit_code,
            } && message@ == "Failed to execute: "@ + filename@ && exit_code == 1),
        },
{
    match event {
        LaunchEvent::Found { filename } => (
            LaunchState::Scanning,
            LaunchAction::Exec { filename },
        ),
        LaunchEvent::NotFound => (LaunchState::Scanning, LaunchAction::Sleep),
        LaunchEvent::ExecReturned { filename } => {
            let message = failure_message(filename.as_str());
            (LaunchState::Failed, LaunchAction::ReportFailure { message, exit_code: 1 })
        },
    }
}

/// Serializes one environment pair in the `KEY=VALUE` form handed to the
/// replacement process.
pub fn env_entry(key: &str, value: &str) -> (r: String)
    ensures
        r@ == key@ + "="@ + value@,
{
    let mut s = String::from_str(key);
    s.append("=");
    s.append(value);
    s
}

} // verus!
