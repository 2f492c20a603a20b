use std::collections::HashSet;

use supaa::freezer::{
    freeze_all_background, freeze_pid, new_frozen_set, raw_pid, record_freeze, record_thaw,
    send_signal, thaw_all, thaw_pid, thaw_pid_list,
};
use supaa::system::{Signal, SignalOutcome, SystemCall, SystemReply};
use supaa::task::Task;
use supaa::whitelist::{ProcRecord, ProcTable};

fn record(pid: u32, ppid: u32, comm: &str) -> ProcRecord {
    ProcRecord {
        pid,
        has_exe: true,
        comm: Some(comm.to_owned()),
        cgroup: Some("0::/user.slice/x\n".to_owned()),
        status: Some(format!("PPid:\t{ppid}\n")),
    }
}

fn desktop() -> ProcTable {
    ProcTable {
        records: vec![
            record(10, 1, "game"),
            record(11, 10, "engine"),
            record(12, 1, "browser"),
            record(13, 12, "tab"),
            record(14, 1, "sway"),
            record(15, 14, "bar"),
        ],
    }
}

fn thawed(tasks: Vec<Task>) -> HashSet<u32> {
    let count = tasks.len();
    let pids: HashSet<u32> = tasks
        .into_iter()
        .map(|task| match task {
            Task::Thaw(pid) => pid,
            other => panic!("{other:?}"),
        })
        .collect();
    assert_eq!(pids.len(), count);
    pids
}

#[test]
fn what_is_protected_or_frozen_gets_no_signal() {
    let table = desktop();
    let none = HashSet::new();
    assert!(matches!(
        freeze_pid(12, &none, &none, &table),
        Some(SystemCall::Signal(12, Signal::Stop))
    ));
    assert!(freeze_pid(12, &HashSet::from([12]), &none, &table).is_none());
    assert!(freeze_pid(12, &none, &HashSet::from([12]), &table).is_none());
    assert!(freeze_pid(14, &none, &none, &table).is_none());
    assert!(freeze_pid(15, &none, &none, &table).is_none());
    assert!(freeze_pid(99, &none, &none, &table).is_none());
}

#[test]
fn a_delivered_stop_is_remembered() {
    let mut frozen = new_frozen_set();
    assert!(record_freeze(7, SignalOutcome::Delivered, &mut frozen).is_ok());
    assert_eq!(frozen, HashSet::from([7]));
    let failed = record_freeze(8, SignalOutcome::NoSuchProcess, &mut frozen).unwrap_err();
    assert_eq!((failed.pid, failed.signal), (8, Signal::Stop));
    assert!(record_freeze(9, SignalOutcome::Failed, &mut frozen).is_err());
    assert_eq!(frozen, HashSet::from([7]));
}

#[test]
fn what_is_gone_counts_as_thawed() {
    let mut frozen = HashSet::from([7, 8, 9]);
    assert!(matches!(thaw_pid(7), SystemCall::Signal(7, Signal::Continue)));
    assert!(record_thaw(7, SignalOutcome::Delivered, &mut frozen).is_ok());
    assert!(record_thaw(8, SignalOutcome::NoSuchProcess, &mut frozen).is_ok());
    let failed = record_thaw(9, SignalOutcome::Failed, &mut frozen).unwrap_err();
    assert_eq!((failed.pid, failed.signal), (9, Signal::Continue));
    assert_eq!(frozen, HashSet::from([9]));
}

#[test]
fn the_background_is_frozen_around_the_focus_tree() {
    let pids = |focus| -> Vec<u32> {
        freeze_all_background(focus, &HashSet::new(), &desktop())
            .into_iter()
            .map(|task| match task {
                Task::Freeze(pid) => pid,
                other => panic!("{other:?}"),
            })
            .collect()
    };
    assert_eq!(pids(Some(10)), vec![12, 13]);
    assert_eq!(pids(Some(12)), vec![10, 11]);
    assert_eq!(pids(None), vec![10, 11, 12, 13]);
}

#[test]
fn everything_frozen_is_thawed() {
    assert_eq!(thawed(thaw_all(&HashSet::from([3, 5, 8]))), HashSet::from([3, 5, 8]));
    assert!(thaw_all(&new_frozen_set()).is_empty());
    assert_eq!(thawed(thaw_pid_list(&vec![4, 2])), HashSet::from([2, 4]));
}

#[test]
fn numbers_reach_the_kernel_as_they_are() {
    assert_eq!(raw_pid(1), 1);
    assert_eq!(raw_pid(0x7fff_ffff), i32::MAX);
    assert_eq!(raw_pid(u32::MAX), -1);
    assert_eq!(raw_pid(0x8000_0000), i32::MIN);
}

#[test]
fn a_signal_to_nobody_finds_no_process() {
    assert!(matches!(
        send_signal(0x7fff_fffe, Signal::Continue),
        SystemReply::Signalled(SignalOutcome::NoSuchProcess)
    ));
}
