use std::collections::HashSet;

use supaa::modes::Mode;
use supaa::recovery::{mark_clean, mark_dirty, run_recovery, save_state, Recovery, RecoveryAction};
use supaa::script::Script;
use supaa::state::PersistedState;
use supaa::system::{SignalOutcome, SystemCall, SystemReply};

fn dirty(frozen: &[u32], locked: bool) -> PersistedState {
    let mut state = PersistedState::new();
    state.mode = Mode::SupaaPlus;
    state.frozen_pids = frozen.iter().copied().collect();
    state.workspace_locked = locked;
    state.clean_shutdown = false;
    state
}

fn finish(recovery: &mut Recovery, fail: &str) -> (Vec<String>, bool) {
    let mut calls = Vec::new();
    loop {
        match recovery.next() {
            RecoveryAction::Call(call) => {
                let shown = format!("{call:?}");
                let ok = shown != fail;
                if shown == "WriteStateTmp" {
                    assert!(recovery.state.clean_shutdown);
                    assert_eq!(recovery.state.mode, Mode::Normal);
                    assert!(recovery.state.frozen_pids.is_empty());
                }
                recovery.deliver(match call {
                    SystemCall::ProbeCgroup => SystemReply::Probe {
                        root_exists: true,
                        mounts: Some("cgroup2".to_owned()),
                        writable: true,
                    },
                    SystemCall::ReadProcs(_) => SystemReply::Text(Some("5\n".to_owned())),
                    SystemCall::Signal(_, _) => SystemReply::Signalled(SignalOutcome::Delivered),
                    _ => SystemReply::Outcome(ok),
                });
                calls.push(shown);
            }
            RecoveryAction::Finished(saved) => return (calls, saved),
        }
    }
}

#[test]
fn without_a_state_nothing_is_done() {
    assert_eq!(finish(&mut run_recovery(None), ""), (vec![], true));
}

#[test]
fn after_a_clean_end_nothing_is_done() {
    let mut state = dirty(&[3, 4], true);
    state.clean_shutdown = true;
    assert_eq!(finish(&mut run_recovery(Some(state)), ""), (vec![], true));
}

#[test]
fn everything_is_undone() {
    let mut recovery = run_recovery(Some(dirty(&[3, 4], true)));
    let (calls, saved) = finish(&mut recovery, "");
    assert!(saved);
    assert_eq!(calls[0], "AppendLog(RecoveryStarted)");
    let thawed: HashSet<&str> = calls[1..3].iter().map(|s| s.as_str()).collect();
    assert_eq!(thawed, HashSet::from(["Signal(3, Continue)", "Signal(4, Continue)"]));
    assert_eq!(calls[3], "AppendLog(Thawed(2))");
    assert_eq!(calls[4], "Hyprland(ResetSubmap)");
    for key in 0..14 {
        assert_eq!(calls[5 + key], format!("Hyprland(Unbind({key}))"));
    }
    assert_eq!(
        calls[19..],
        [
            "AppendLog(WorkspaceUnlocked)",
            "Write(Focus, CpuWeight(100))",
            "Write(Background, CpuWeight(100))",
            "Write(Focus, IoWeight(100))",
            "Write(Background, IoWeight(100))",
            "Write(Background, MemoryHigh(None))",
            "ReadProcs(Focus)",
            "Write(Root, Procs(5))",
            "ReadProcs(Background)",
            "Write(Root, Procs(5))",
            "RemoveDir(Focus)",
            "RemoveDir(Background)",
            "RemoveDir(Supaa)",
            "AppendLog(CgroupReset)",
            "ProbeCgroup",
            "CreateDir(Supaa)",
            "Write(Root, Controllers)",
            "Write(Supaa, Controllers)",
            "CreateDir(Focus)",
            "CreateDir(Background)",
            "CreateStateDir",
            "WriteStateTmp",
            "RenameState",
            "AppendLog(RecoveryComplete)",
        ]
    );
}

#[test]
fn what_was_neither_frozen_nor_locked_is_left_out() {
    let (calls, saved) = finish(&mut run_recovery(Some(dirty(&[], false))), "");
    assert!(saved);
    assert_eq!(calls[0], "AppendLog(RecoveryStarted)");
    assert_eq!(calls[1], "Write(Focus, CpuWeight(100))");
    assert!(!calls.iter().any(|c| c.contains("Signal") || c.contains("Hyprland")));
}

#[test]
fn a_state_that_cannot_be_saved_is_told() {
    for fail in ["CreateStateDir", "WriteStateTmp", "RenameState"] {
        let (calls, saved) = finish(&mut run_recovery(Some(dirty(&[3], false))), fail);
        assert!(!saved, "{fail}");
        assert_eq!(calls.last().map(|s| s.as_str()), Some(fail));
    }
}

#[test]
fn other_failures_do_not_stop_a_recovery() {
    for fail in ["RemoveDir(Supaa)", "CreateDir(Supaa)", "AppendLog(RecoveryStarted)"] {
        let (calls, saved) = finish(&mut run_recovery(Some(dirty(&[3], true))), fail);
        assert!(saved, "{fail}");
        assert_eq!(calls.last().map(|s| s.as_str()), Some("AppendLog(RecoveryComplete)"));
    }
}

#[test]
fn the_time_stays_until_the_state_is_clean() {
    let mut state = dirty(&[3], false);
    state.timestamp = 7;
    let mut recovery = run_recovery(Some(state));
    assert!(matches!(recovery.next(), RecoveryAction::Call(SystemCall::AppendLog(_))));
    recovery.deliver(SystemReply::Outcome(true));
    assert!(matches!(recovery.next(), RecoveryAction::Call(SystemCall::Signal(3, _))));
    assert_eq!(recovery.state.timestamp, 7);
    let _ = finish(&mut recovery, "");
    assert_ne!(recovery.state.timestamp, 7);
}

#[test]
fn marks_are_saved() {
    let mut state = PersistedState::new();
    assert_eq!(mark_dirty(&mut state).script, Script::SaveState);
    assert!(state.is_dirty());
    assert_eq!(mark_clean(&mut state).script, Script::SaveState);
    assert!(!state.is_dirty());
    assert_eq!(save_state().script, Script::SaveState);
}
