use win_toolkit::diagnostics::{is_log_file_name, log_file_name, logs_to_prune, MAX_LOG_FILES};
use win_toolkit::exec::{exit_status, launch_result, ExecError, ERROR_CANCELLED};
use win_toolkit::paths::{app_data_dir, home_dir, join_path, logs_dir, runs_dir};
use win_toolkit::startup::{
    approved_blob, entry_enabled, startup_entry, toggle_permission, StartupScope,
};
use win_toolkit::worker::{
    exit_outcome, launch_failure_outcome, poll_decision, run_log_file_name, Outcome, PollDecision,
};

#[test]
fn subdirs_nest_under_the_app_data_dir() {
    let cases: [(Option<&str>, Option<&str>, char); 4] = [
        (Some(r"C:\Users\x\AppData\Local"), None, '\\'),
        (None, Some("/home/x"), '/'),
        (Some(""), Some("/home/x/"), '/'),
        (None, None, '/'),
    ];
    for (local, home, sep) in cases {
        if let Some(app_dir) = app_data_dir(local, home, sep) {
            assert_eq!(logs_dir(local, home, sep), Some(join_path(&app_dir, "logs", sep)));
            assert_eq!(runs_dir(local, home, sep), Some(join_path(&app_dir, "runs", sep)));
        } else {
            assert_eq!(logs_dir(local, home, sep), None);
            assert_eq!(runs_dir(local, home, sep), None);
        }
    }
}

#[test]
fn data_dir_prefers_local_app_data_then_home() {
    assert_eq!(
        app_data_dir(Some(r"C:\Users\x\AppData\Local"), Some(r"C:\Users\x"), '\\'),
        Some(r"C:\Users\x\AppData\Local\win-toolkit".to_owned())
    );
    assert_eq!(app_data_dir(None, Some("/home/x"), '/'), Some("/home/x/.win-toolkit".to_owned()));
    assert_eq!(app_data_dir(Some(""), Some("/home/x/"), '/'), Some("/home/x/.win-toolkit".to_owned()));
    assert_eq!(app_data_dir(Some(""), Some(""), '/'), None);
    assert_eq!(
        logs_dir(Some(r"D:\data\"), None, '\\'),
        Some(r"D:\data\win-toolkit\logs".to_owned())
    );
    assert_eq!(join_path("a/", "b", '\\'), "a/b");
    assert_eq!(join_path(r"\\?\C:\foo/", "b", '\\'), r"\\?\C:\foo/\b");
    assert_eq!(join_path(r"\\?\C:\foo\", "b", '\\'), r"\\?\C:\foo\b");
    assert_eq!(join_path(r"\\?\C:\foo/", "b", '/'), r"\\?\C:\foo/b");
    assert_eq!(join_path("", "b", '/'), "b");
}

#[test]
fn home_prefers_user_profile() {
    assert_eq!(home_dir(Some(r"C:\Users\x"), Some("/home/x")), Some(r"C:\Users\x".to_owned()));
    assert_eq!(home_dir(Some(""), Some("/home/x")), Some("/home/x".to_owned()));
    assert_eq!(home_dir(None, None), None);
}

#[test]
fn startup_labels_and_toggles() {
    assert_eq!(StartupScope::CurrentUser.label(), "Current user");
    assert_eq!(StartupScope::LocalMachine.label(), "All users");
    assert_eq!(toggle_permission(StartupScope::CurrentUser), Ok(()));
    assert_eq!(
        toggle_permission(StartupScope::LocalMachine),
        Err("machine-wide startup entries require Administrator".to_owned())
    );
}

#[test]
fn startup_enabled_unless_the_leading_byte_is_odd() {
    assert!(entry_enabled(None));
    assert!(entry_enabled(Some(&[])));
    assert!(entry_enabled(Some(&[2, 0, 0])));
    assert!(!entry_enabled(Some(&[3, 0, 0])));
    assert!(!entry_enabled(Some(&[7])));
    for enabled in [true, false] {
        let blob = approved_blob(enabled);
        assert_eq!(blob.len(), 12);
        assert_eq!(entry_enabled(Some(&blob)), enabled);
    }
    assert_eq!(approved_blob(true), [2, 0, 0, 0, 0, 0, 0, 0, 0, 0, 0, 0]);
    assert_eq!(approved_blob(false), [3, 0, 0, 0, 0, 0, 0, 0, 0, 0, 0, 0]);
}

#[test]
fn startup_entry_fields() {
    let entry = startup_entry("Tool".to_owned(), None, StartupScope::LocalMachine, Some(&[3]));
    assert_eq!(entry.name, "Tool");
    assert_eq!(entry.command, "");
    assert!(!entry.enabled);
    assert!(!entry.can_toggle);
    let entry = startup_entry(
        "App".to_owned(),
        Some("app.exe /min".to_owned()),
        StartupScope::CurrentUser,
        None,
    );
    assert_eq!(entry.command, "app.exe /min");
    assert!(entry.enabled && entry.can_toggle);
}

#[test]
fn exit_codes_and_launch_failures() {
    assert_eq!(exit_status(0, false), None);
    assert_eq!(exit_status(259, false), None);
    assert_eq!(exit_status(259, true), Some(259));
    assert_eq!(exit_status(0, true), Some(0));
    assert_eq!(exit_status(0xFFFF_FFFF, true), Some(-1));
    assert_eq!(launch_result(Some((ERROR_CANCELLED, "x".to_owned())), false), Err(ExecError::Declined));
    assert_eq!(
        launch_result(Some((5, "Access is denied.".to_owned())), true),
        Err(ExecError::Api("Access is denied.".to_owned()))
    );
    assert_eq!(
        launch_result(None, false),
        Err(ExecError::Api("ShellExecuteEx returned no process handle".to_owned()))
    );
    assert_eq!(launch_result(None, true), Ok(()));
}

#[test]
fn error_messages() {
    assert_eq!(ExecError::Declined.message(), "elevation was declined");
    assert_eq!(ExecError::Unsupported.message(), "elevated execution is only available on Windows");
    assert_eq!(ExecError::Api("boom".to_owned()).message(), "Windows API error: boom");
}

#[test]
fn worker_outcomes() {
    assert_eq!(exit_outcome(0), Outcome::Success);
    assert_eq!(exit_outcome(2), Outcome::Failed(2));
    assert_eq!(launch_failure_outcome(&ExecError::Declined), Outcome::Declined);
    assert_eq!(
        launch_failure_outcome(&ExecError::Unsupported),
        Outcome::Error("elevated execution is only available on Windows".to_owned())
    );
    assert_eq!(poll_decision(&Ok(None)), PollDecision::KeepPolling);
    assert_eq!(poll_decision(&Ok(Some(0))), PollDecision::Exited(Outcome::Success));
    assert_eq!(poll_decision(&Ok(Some(1))), PollDecision::Exited(Outcome::Failed(1)));
    assert_eq!(
        poll_decision(&Err(ExecError::Api("gone".to_owned()))),
        PollDecision::Abandon(Outcome::Error("Windows API error: gone".to_owned()))
    );
    assert_eq!(run_log_file_name("sfc-scannow", "20260710-120000"), "sfc-scannow-20260710-120000.log");
}

#[test]
fn log_names_are_recognised() {
    assert_eq!(log_file_name("2026-07-10"), "win-toolkit-2026-07-10.log");
    assert!(is_log_file_name("win-toolkit-2026-07-10.log"));
    assert!(is_log_file_name("win-toolkit-old.LOG"));
    assert!(!is_log_file_name("other.log"));
    assert!(!is_log_file_name("win-toolkit-2026-07-10.txt"));
    assert!(!is_log_file_name("win-toolkit-2026-07-10.log.bak"));
    assert!(!is_log_file_name("win-toolkit-log"));
}

#[test]
fn selects_dated_log_and_prunes_only_old_matching_files() {
    let mut names: Vec<String> = Vec::new();
    for day in (1..=9).rev() {
        names.push(format!("win-toolkit-2026-07-{day:02}.log"));
    }
    names.push("keep.txt".to_owned());
    names.push("other.log".to_owned());
    assert_eq!(log_file_name("2026-07-10"), "win-toolkit-2026-07-10.log");
    let doomed = logs_to_prune(&names);
    assert_eq!(
        doomed,
        vec![
            "win-toolkit-2026-07-01.log".to_owned(),
            "win-toolkit-2026-07-02.log".to_owned(),
            "win-toolkit-2026-07-03.log".to_owned(),
        ]
    );
    let retained: Vec<&String> = names
        .iter()
        .filter(|name| is_log_file_name(name) && !doomed.contains(name))
        .collect();
    assert_eq!(retained.len(), MAX_LOG_FILES - 1);
    assert!(retained.iter().all(|name| name.as_str() >= "win-toolkit-2026-07-04.log"));
}

#[test]
fn few_logs_are_all_kept() {
    let names: Vec<String> = (1..=6).map(|d| format!("win-toolkit-2026-07-{d:02}.log")).collect();
    assert!(logs_to_prune(&names).is_empty());
    let mut seven = names.clone();
    seven.push("win-toolkit-2026-06-30.log".to_owned());
    assert_eq!(logs_to_prune(&seven), vec!["win-toolkit-2026-06-30.log".to_owned()]);
}
