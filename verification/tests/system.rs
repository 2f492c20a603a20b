use supaa::modes::Mode;
use supaa::system::{log_file, state_tmp_file, write_log, LogEntry, SignalOutcome, SystemReply};
use supaa::whitelist::ProcTable;

#[test]
fn log_lines_carry_the_time() {
    assert_eq!(write_log(12, "Cgroup state reset"), "[12] Cgroup state reset\n");
    assert_eq!(log_file(), "/var/log/supaa/supaa.log");
    assert_eq!(state_tmp_file(), "/var/lib/supaa/state.json.tmp");
}

#[test]
fn log_messages() {
    for (entry, message) in [
        (LogEntry::RecoveryStarted, "Recovery started after dirty shutdown"),
        (LogEntry::Thawed(3), "Thawed 3 PIDs"),
        (LogEntry::WorkspaceUnlocked, "Workspace switching unlocked"),
        (LogEntry::CgroupReset, "Cgroup state reset"),
        (LogEntry::RecoveryComplete, "Recovery complete"),
        (LogEntry::ModeSet(Mode::SupaaPlus), "Mode set to Supaa++"),
        (LogEntry::EmergencyTriggered, "Emergency restore triggered"),
        (LogEntry::EmergencyComplete, "Emergency restore complete"),
        (LogEntry::ShutdownStarted, "Clean shutdown started"),
        (LogEntry::ShutdownComplete, "Clean shutdown complete"),
    ] {
        assert_eq!(entry.message(), message);
    }
}

#[test]
fn replies_tell_whether_a_call_succeeded() {
    assert!(SystemReply::Outcome(true).is_success());
    assert!(!SystemReply::Outcome(false).is_success());
    assert!(SystemReply::Text(Some(String::new())).is_success());
    assert!(!SystemReply::Text(None).is_success());
    let probe = |root_exists: bool, mounts: Option<&str>, writable: bool| SystemReply::Probe {
        root_exists,
        mounts: mounts.map(|s| s.to_owned()),
        writable,
    };
    assert!(probe(true, Some("cgroup2"), true).is_success());
    assert!(!probe(true, Some("cgroup2"), false).is_success());
    assert!(!probe(false, Some("cgroup2"), true).is_success());
    assert!(!probe(true, Some("cgroup"), true).is_success());
    assert!(!probe(true, None, true).is_success());
    assert!(SystemReply::Table(ProcTable { records: Vec::new() }).is_success());
    assert!(SystemReply::Signalled(SignalOutcome::Delivered).is_success());
    assert!(!SystemReply::Signalled(SignalOutcome::NoSuchProcess).is_success());
}

#[test]
fn the_compositor_accepts_with_ok_alone() {
    let answer = |text: &str| SystemReply::Answer(Some(text.to_owned()));
    assert!(answer("ok").is_success());
    assert!(answer(" ok\n").is_success());
    for text in ["", "okay", "OK", "submap supaa_lock does not exist", "ok\nok"] {
        assert!(!answer(text).is_success(), "{text:?}");
    }
    assert!(!SystemReply::Answer(None).is_success());
    assert_eq!(answer("ok").text(), None);
}

#[test]
fn replies_hand_out_what_they_hold() {
    assert_eq!(SystemReply::Text(Some("x".to_owned())).text(), Some("x"));
    assert_eq!(SystemReply::Outcome(true).text(), None);
    assert_eq!(
        SystemReply::Signalled(SignalOutcome::NoSuchProcess).signal_outcome(),
        SignalOutcome::NoSuchProcess
    );
    assert_eq!(SystemReply::Outcome(true).signal_outcome(), SignalOutcome::Failed);
}
