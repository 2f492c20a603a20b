use supaa::cli::{is_failure, parse_args, print_response, CliError, USAGE};
use supaa::modes::Mode;
use supaa::protocol::{Command, DaemonStatus, ProcessInfo, Response};

fn parsed(words: &[&str]) -> Result<Command, CliError> {
    parse_args(&words.iter().map(|s| s.to_string()).collect())
}

fn refused(words: &[&str]) -> String {
    parsed(words).unwrap_err().message()
}

#[test]
fn words_ask_for_commands() {
    assert!(matches!(parsed(&["supaa", "status"]), Ok(Command::GetStatus)));
    assert!(matches!(parsed(&["supaa", "clear-focus"]), Ok(Command::ClearFocusApp)));
    assert!(matches!(parsed(&["supaa", "ps"]), Ok(Command::GetProcessList)));
    assert!(matches!(parsed(&["supaa", "shutdown", "now"]), Ok(Command::Shutdown)));
    assert!(matches!(
        parsed(&["supaa", "restore", "--quit"]),
        Ok(Command::EmergencyRestore { quit_after: false })
    ));
    assert!(matches!(
        parsed(&["supaa", "emergency-restore"]),
        Ok(Command::EmergencyRestore { quit_after: false })
    ));
    assert!(matches!(
        parsed(&["supaa", "emergency-restore", "--quit"]),
        Ok(Command::EmergencyRestore { quit_after: true })
    ));
    assert!(matches!(
        parsed(&["supaa", "emergency-restore", "-q"]),
        Ok(Command::EmergencyRestore { quit_after: false })
    ));
}

#[test]
fn a_mode_is_asked_for_by_its_name() {
    for mode in [Mode::Normal, Mode::Supaa, Mode::SupaaPlus] {
        match parsed(&["supaa", "mode", mode.as_str()]) {
            Ok(Command::SetMode { mode: asked }) => assert_eq!(asked, mode),
            other => panic!("{other:?}"),
        }
    }
}

#[test]
fn a_focus_application_is_asked_for_by_its_number() {
    match parsed(&["supaa", "focus", "42", "game"]) {
        Ok(Command::SetFocusApp { pid, name }) => assert_eq!((pid, name.as_str()), (42, "game")),
        other => panic!("{other:?}"),
    }
    match parsed(&["supaa", "focus", "42"]) {
        Ok(Command::SetFocusApp { pid, name }) => assert_eq!((pid, name.as_str()), (42, "pid:42")),
        other => panic!("{other:?}"),
    }
}

#[test]
fn other_words_are_refused() {
    assert!(matches!(parsed(&["supaa"]), Err(CliError::NoCommand)));
    assert!(matches!(parsed(&[]), Err(CliError::NoCommand)));
    assert_eq!(refused(&["supaa"]), USAGE);
    assert_eq!(refused(&["supaa", "go"]), format!("Unknown command 'go'\n\n{USAGE}"));
    assert_eq!(refused(&["supaa", "mode"]), "Usage: supaa mode <normal|supaa|supaa++>\n");
    assert_eq!(
        refused(&["supaa", "mode", "fast"]),
        "Unknown mode 'fast'. Valid: normal, supaa, supaa++\n"
    );
    assert_eq!(refused(&["supaa", "focus"]), "Usage: supaa focus <PID> [name]\n");
    assert_eq!(refused(&["supaa", "focus", "x"]), "Usage: supaa focus <PID> [name]\n");
    assert_eq!(refused(&["supaa", "focus", "-1"]), "Usage: supaa focus <PID> [name]\n");
}

#[test]
fn usage_names_every_command() {
    for word in [
        "status", "mode <MODE>", "focus <PID> [NAME]", "clear-focus", "ps", "restore", "shutdown",
        "emergency-restore [--quit]",
    ] {
        assert!(USAGE.contains(&format!("  supaa {word} ")), "{word}");
    }
    assert!(USAGE.starts_with("supaa — Supaa Focus Resource Manager CLI\n\nUSAGE:\n"));
    assert!(USAGE.ends_with("workspace locked\n\n"));
}

#[test]
fn short_responses() {
    assert_eq!(print_response(&Response::Done), "OK\n");
    let error = Response::Error { message: "no".to_owned() };
    assert_eq!(print_response(&error), "Error: no\n");
    assert!(is_failure(&error));
    assert!(!is_failure(&Response::Done));
}

#[test]
fn a_status_is_shown_line_by_line() {
    let mut status = DaemonStatus {
        mode: Mode::SupaaPlus,
        focus_app_pid: Some(42),
        focus_app_name: Some("game".to_owned()),
        frozen_count: 12,
        workspace_locked: true,
        state_file_clean: false,
        uptime_secs: 61,
    };
    assert_eq!(
        print_response(&Response::Status(status.clone())),
        "Mode           : Supaa++\n\
         Focus app      : game\n\
         Focus PID      : 42\n\
         Frozen procs   : 12\n\
         Workspace lock : YES\n\
         State clean    : DIRTY (recovery pending)\n\
         Uptime         : 61s\n"
    );
    status.mode = Mode::Normal;
    status.focus_app_pid = None;
    status.focus_app_name = None;
    status.frozen_count = 0;
    status.workspace_locked = false;
    status.state_file_clean = true;
    assert_eq!(
        print_response(&Response::Status(status)),
        "Mode           : Normal\n\
         Focus app      : —\n\
         Focus PID      : —\n\
         Frozen procs   : 0\n\
         Workspace lock : no\n\
         State clean    : yes\n\
         Uptime         : 61s\n"
    );
}

#[test]
fn processes_are_shown_in_a_table() {
    let info = |pid: u32, name: &str, is_frozen: bool, is_focus: bool, is_whitelisted: bool| {
        ProcessInfo {
            pid,
            name: name.to_owned(),
            is_frozen,
            is_focus,
            is_whitelisted,
            cpu_weight: None,
        }
    };
    let list = vec![
        info(1, "systemd", false, false, true),
        info(123456789, "game", false, true, false),
        info(77, "browser", true, false, false),
    ];
    let mut expected =
        format!("{:<8} {:<6} {:<6} {:<12} {}\n", "PID", "FROZ", "FOCUS", "WLIST", "NAME");
    expected.push_str(&"─".repeat(50));
    expected.push('\n');
    expected.push_str(&format!("{:<8} {:<6} {:<6} {:<12} {}\n", 1, "", "", "protected", "systemd"));
    expected.push_str(&format!("{:<8} {:<6} {:<6} {:<12} {}\n", 123456789, "", "✓", "", "game"));
    expected.push_str(&format!("{:<8} {:<6} {:<6} {:<12} {}\n", 77, "✓", "", "", "browser"));
    assert_eq!(print_response(&Response::ProcessList(list)), expected);
}
