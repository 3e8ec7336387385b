use version_launcher::launcher::env_entry;
use version_launcher::launcher::failure_message;
use version_launcher::launcher::launch_step;
use version_launcher::launcher::LaunchAction;
use version_launcher::launcher::LaunchEvent;
use version_launcher::launcher::LaunchState;

#[test]
fn found_candidate_is_executed() {
    let (state, action) = launch_step(
        LaunchState::Scanning,
        LaunchEvent::Found { filename: String::from("v1.2.3") },
    );
    assert!(matches!(state, LaunchState::Scanning));
    match action {
        LaunchAction::Exec { filename } => assert_eq!(filename, "v1.2.3"),
        _ => panic!("expected an exec action"),
    }
}

#[test]
fn empty_scan_sleeps_and_rescans() {
    let (state, action) = launch_step(LaunchState::Scanning, LaunchEvent::NotFound);
    assert!(matches!(state, LaunchState::Scanning));
    assert!(matches!(action, LaunchAction::Sleep));
}

#[test]
fn empty_scan_keeps_retrying() {
    // The loop never leaves the scanning state while nothing is found.
    let mut state = LaunchState::Scanning;
    for _ in 0..5 {
        let (next, action) = launch_step(state, LaunchEvent::NotFound);
        assert!(matches!(next, LaunchState::Scanning));
        assert!(matches!(action, LaunchAction::Sleep));
        state = next;
    }
}

#[test]
fn failed_replacement_is_fatal() {
    let (state, action) = launch_step(
        LaunchState::Scanning,
        LaunchEvent::ExecReturned { filename: String::from("v3.1.4") },
    );
    assert!(matches!(state, LaunchState::Failed));
    match action {
        LaunchAction::ReportFailure { message, exit_code } => {
            assert_eq!(message, "Failed to execute: v3.1.4");
            assert_eq!(exit_code, 1);
        },
        _ => panic!("expected a failure report"),
    }
}

#[test]
fn failure_message_names_the_executable() {
    assert_eq!(failure_message("v2.0"), "Failed to execute: v2.0");
    assert_eq!(failure_message(""), "Failed to execute: ");
}

#[test]
fn env_entries_are_key_equals_value() {
    assert_eq!(env_entry("PATH", "/usr/bin"), "PATH=/usr/bin");
    assert_eq!(env_entry("EMPTY", ""), "EMPTY=");
    assert_eq!(env_entry("A", "b=c"), "A=b=c");
}
