use std::collections::HashSet;

use supaa::cgroup::{CgroupDir, Setting};
use supaa::daemon::{Action, Daemon};
use supaa::modes::Mode;
use supaa::protocol::{Command, ProcessInfo, Response};
use supaa::state::PersistedState;
use supaa::system::{LogEntry, Signal, SignalOutcome, SystemCall, SystemReply};
use supaa::task::Marker;
use supaa::whitelist::{ProcRecord, ProcTable};

/// A machine that carries calls out in memory.
struct Machine {
    table: ProcTable,
    stopped: HashSet<u32>,
    dirs: Vec<CgroupDir>,
    locked: bool,
    /// Whether the saved state is clean, where there is one.
    saved_clean: Option<bool>,
    tmp_clean: bool,
    log: Vec<String>,
    calls: Vec<String>,
    unkillable: HashSet<u32>,
    /// The frozen processes in the temporary file, and in the state file.
    tmp_list: HashSet<u32>,
    saved_list: HashSet<u32>,
    /// Does the compositor lack the submap?
    no_submap: bool,
    bound: HashSet<String>,
}

fn record(pid: u32, ppid: u32, comm: &str) -> ProcRecord {
    ProcRecord {
        pid,
        has_exe: true,
        comm: Some(comm.to_owned()),
        cgroup: Some("0::/user.slice/x\n".to_owned()),
        status: Some(format!("PPid:\t{ppid}\n")),
    }
}

impl Machine {
    fn new() -> Self {
        Machine {
            table: ProcTable {
                records: vec![
                    record(10, 1, "game"),
                    record(11, 10, "engine"),
                    record(12, 1, "browser"),
                    record(13, 12, "tab"),
                    record(14, 1, "sway"),
                    record(15, 14, "bar"),
                    record(16, 1, "supaad"),
                ],
            },
            stopped: HashSet::new(),
            dirs: Vec::new(),
            locked: false,
            saved_clean: None,
            tmp_clean: false,
            log: Vec::new(),
            calls: Vec::new(),
            unkillable: HashSet::new(),
            tmp_list: HashSet::new(),
            saved_list: HashSet::new(),
            no_submap: false,
            bound: HashSet::new(),
        }
    }

    fn perform(&mut self, call: SystemCall, state: &PersistedState) -> SystemReply {
        self.calls.push(format!("{call:?}"));
        match call {
            SystemCall::ProbeCgroup => SystemReply::Probe {
                root_exists: true,
                mounts: Some("cgroup2 /sys/fs/cgroup cgroup2 rw\n".to_owned()),
                writable: true,
            },
            SystemCall::CreateDir(dir) => {
                if !self.dirs.contains(&dir) {
                    self.dirs.push(dir);
                }
                SystemReply::Outcome(true)
            }
            SystemCall::RemoveDir(dir) => {
                let there = self.dirs.contains(&dir);
                self.dirs.retain(|d| *d != dir);
                SystemReply::Outcome(there)
            }
            SystemCall::Write(dir, _) => {
                SystemReply::Outcome(dir == CgroupDir::Root || self.dirs.contains(&dir))
            }
            SystemCall::ReadProcs(dir) => SystemReply::Text(match dir {
                CgroupDir::Focus => Some("10\n11\n".to_owned()),
                CgroupDir::Background => Some("12\n".to_owned()),
                _ => None,
            }),
            SystemCall::ReadMeminfo => SystemReply::Text(Some("MemTotal: 1000 kB\n".to_owned())),
            SystemCall::ScanProcesses => SystemReply::Table(self.table.clone()),
            SystemCall::Signal(pid, signal) => {
                if !self.table.records.iter().any(|r| r.pid == pid) {
                    return SystemReply::Signalled(SignalOutcome::NoSuchProcess);
                }
                if self.unkillable.contains(&pid) {
                    return SystemReply::Signalled(SignalOutcome::Failed);
                }
                match signal {
                    Signal::Stop => {
                        assert_eq!(self.saved_clean, Some(false));
                        assert!(self.saved_list.contains(&pid));
                        self.stopped.insert(pid);
                    }
                    Signal::Continue => {
                        self.stopped.remove(&pid);
                    }
                }
                SystemReply::Signalled(SignalOutcome::Delivered)
            }
            SystemCall::Hyprland(request) => {
                let text = request.text();
                if let Some(key) = text.strip_prefix("keyword bind ") {
                    self.bound.insert(key.strip_suffix(",exec,true").unwrap().to_owned());
                } else if let Some(key) = text.strip_prefix("keyword unbind ") {
                    self.bound.remove(key);
                } else if text == "dispatch submap reset" {
                    self.locked = false;
                } else if self.no_submap {
                    return SystemReply::Answer(Some("no such submap".to_owned()));
                } else {
                    assert_eq!(text, "dispatch submap supaa_lock");
                    self.locked = true;
                }
                SystemReply::Answer(Some("ok\n".to_owned()))
            }
            SystemCall::CreateStateDir => SystemReply::Outcome(true),
            SystemCall::WriteStateTmp => {
                self.tmp_clean = state.clean_shutdown;
                self.tmp_list = state.frozen_pids.clone();
                SystemReply::Outcome(true)
            }
            SystemCall::RenameState => {
                self.saved_clean = Some(self.tmp_clean);
                self.saved_list = self.tmp_list.clone();
                SystemReply::Outcome(true)
            }
            SystemCall::AppendLog(entry) => {
                self.log.push(entry.message());
                SystemReply::Outcome(true)
            }
        }
    }

    fn finish(&mut self, daemon: &mut Daemon) -> Option<Response> {
        loop {
            match daemon.next() {
                Action::Call(call) => {
                    let reply = self.perform(call, &daemon.state);
                    daemon.deliver(reply);
                }
                Action::Finished(response) => return Some(response),
                Action::Exit => return None,
            }
        }
    }

    fn run(&mut self, daemon: &mut Daemon, command: Command) -> Option<Response> {
        self.calls.clear();
        assert!(daemon.is_idle());
        daemon.dispatch(command);
        self.finish(daemon)
    }

    fn set_mode(&mut self, daemon: &mut Daemon, mode: Mode) {
        assert!(matches!(self.run(daemon, Command::SetMode { mode }), Some(Response::Done)));
    }

    fn focus(&mut self, daemon: &mut Daemon, pid: u32) {
        let name = "game".to_owned();
        assert!(matches!(self.run(daemon, Command::SetFocusApp { pid, name }), Some(Response::Done)));
    }
}

fn started() -> (Machine, Daemon) {
    let mut machine = Machine::new();
    let mut daemon = Daemon::new(16);
    assert!(matches!(machine.finish(&mut daemon), Some(Response::Done)));
    (machine, daemon)
}

#[test]
fn a_daemon_sets_its_directories_up() {
    let (machine, daemon) = started();
    assert_eq!(machine.dirs, vec![CgroupDir::Supaa, CgroupDir::Focus, CgroupDir::Background]);
    assert_eq!(daemon.mode, Mode::Normal);
    assert_eq!(daemon.our_pids, HashSet::from([16]));
    assert!(daemon.is_idle());
}

#[test]
fn a_daemon_starts_without_the_unified_hierarchy() {
    let mut daemon = Daemon::new(16);
    assert!(matches!(daemon.next(), Action::Call(SystemCall::ProbeCgroup)));
    daemon.deliver(SystemReply::Probe { root_exists: false, mounts: None, writable: false });
    assert!(matches!(daemon.next(), Action::Finished(Response::Done)));
}

#[test]
fn a_daemon_starts_where_nothing_can_be_written() {
    let mut daemon = Daemon::new(16);
    assert!(matches!(daemon.next(), Action::Call(SystemCall::ProbeCgroup)));
    daemon.deliver(SystemReply::Probe {
        root_exists: true,
        mounts: Some("cgroup2".to_owned()),
        writable: false,
    });
    assert!(matches!(daemon.next(), Action::Finished(Response::Done)));
}

#[test]
fn supaa_throttles_without_freezing() {
    let (mut machine, mut daemon) = started();
    machine.focus(&mut daemon, 10);
    machine.set_mode(&mut daemon, Mode::Supaa);
    assert!(machine.stopped.is_empty());
    assert!(!machine.locked);
    assert_eq!(machine.saved_clean, Some(false));
    assert_eq!(daemon.mode, Mode::Supaa);
    let expect = |call: SystemCall| {
        assert!(machine.calls.contains(&format!("{call:?}")), "{call:?}");
    };
    expect(SystemCall::Write(CgroupDir::Focus, Setting::CpuWeight(800)));
    expect(SystemCall::Write(CgroupDir::Background, Setting::CpuWeight(20)));
    expect(SystemCall::Write(CgroupDir::Background, Setting::MemoryHigh(Some(768_000))));
    expect(SystemCall::Write(CgroupDir::Focus, Setting::Procs(11)));
    expect(SystemCall::Write(CgroupDir::Background, Setting::Procs(12)));
    expect(SystemCall::AppendLog(LogEntry::ModeSet(Mode::Supaa)));
}

#[test]
fn supaa_plus_freezes_the_background_and_locks() {
    let (mut machine, mut daemon) = started();
    machine.focus(&mut daemon, 10);
    machine.set_mode(&mut daemon, Mode::SupaaPlus);
    assert_eq!(machine.stopped, HashSet::from([12, 13]));
    assert_eq!(daemon.frozen, machine.stopped);
    assert_eq!(daemon.state.frozen_pids, machine.stopped);
    assert!(machine.locked && daemon.workspace_locked && daemon.state.workspace_locked);
    assert_eq!(machine.saved_clean, Some(false));
}

#[test]
fn normal_undoes_everything() {
    let (mut machine, mut daemon) = started();
    machine.focus(&mut daemon, 10);
    for mode in [Mode::Supaa, Mode::SupaaPlus] {
        machine.set_mode(&mut daemon, mode);
        machine.set_mode(&mut daemon, Mode::Normal);
        assert!(machine.stopped.is_empty());
        assert!(daemon.frozen.is_empty() && daemon.state.frozen_pids.is_empty());
        assert!(machine.dirs.is_empty());
        assert!(!machine.locked && !daemon.workspace_locked);
        assert_eq!(machine.saved_clean, Some(true));
        assert_eq!(daemon.mode, Mode::Normal);
        assert_eq!(daemon.focus_pid, Some(10));
    }
}

#[test]
fn a_change_between_modes_keeps_the_directories() {
    let (mut machine, mut daemon) = started();
    machine.set_mode(&mut daemon, Mode::SupaaPlus);
    machine.set_mode(&mut daemon, Mode::Supaa);
    assert!(machine.stopped.is_empty());
    assert!(!machine.calls.iter().any(|call| call.starts_with("RemoveDir")));
    assert_eq!(machine.dirs.len(), 3);
    assert_eq!(daemon.mode, Mode::Supaa);
}

#[test]
fn the_same_mode_takes_nothing() {
    let (mut machine, mut daemon) = started();
    machine.set_mode(&mut daemon, Mode::Normal);
    assert!(machine.calls.is_empty());
    machine.set_mode(&mut daemon, Mode::Supaa);
    machine.set_mode(&mut daemon, Mode::Supaa);
    assert!(machine.calls.is_empty());
}

#[test]
fn the_time_stays_where_nothing_is_written() {
    let (mut machine, mut daemon) = started();
    daemon.state.timestamp = 7;
    machine.set_mode(&mut daemon, Mode::Normal);
    machine.focus(&mut daemon, 12);
    machine.run(&mut daemon, Command::ClearFocusApp);
    machine.run(&mut daemon, Command::GetStatus);
    machine.run(&mut daemon, Command::GetProcessList);
    assert_eq!(daemon.state.timestamp, 7);
}

#[test]
fn every_write_carries_its_time() {
    let (mut machine, mut daemon) = started();
    daemon.dispatch(Command::SetMode { mode: Mode::Supaa });
    let mut writes = 0;
    while let Action::Call(call) = daemon.next() {
        if let SystemCall::WriteStateTmp = call {
            assert_ne!(daemon.state.timestamp, 7);
            writes += 1;
        }
        let reply = machine.perform(call, &daemon.state);
        daemon.deliver(reply);
        if let SystemCall::RenameState = call {
            daemon.state.timestamp = 7;
        }
    }
    assert_eq!(writes, 2);
}

#[test]
fn a_marker_is_reached_at_its_time() {
    let mut daemon = Daemon::new(16);
    daemon.state.mark_at(false, 1);
    daemon.reach_at(Marker::EnterMode(Mode::Supaa), 2);
    assert_eq!((daemon.mode, daemon.state.timestamp), (Mode::Supaa, 1));
    daemon.reach_at(Marker::FinishMode(Mode::Supaa), 3);
    assert_eq!((daemon.state.timestamp, daemon.state.clean_shutdown), (3, false));
    daemon.reach_at(Marker::FinishMode(Mode::Normal), 4);
    assert_eq!((daemon.state.timestamp, daemon.state.clean_shutdown), (4, true));
    daemon.reach_at(Marker::Restored, 5);
    assert_eq!((daemon.mode, daemon.state.timestamp), (Mode::Normal, 5));
    daemon.reach_at(Marker::ShutDown, 6);
    assert_eq!(daemon.state.timestamp, 6);
    daemon.reach_at(Marker::Recovered, 7);
    assert_eq!(daemon.state.timestamp, 6);
}

#[test]
fn the_state_is_dirty_before_anything_is_touched() {
    let (mut machine, mut daemon) = started();
    machine.set_mode(&mut daemon, Mode::Supaa);
    assert_eq!(machine.calls[..3], ["CreateStateDir", "WriteStateTmp", "RenameState"]);
    machine.run(&mut daemon, Command::EmergencyRestore { quit_after: false });
    assert_eq!(
        machine.calls[..4],
        ["AppendLog(EmergencyTriggered)", "CreateStateDir", "WriteStateTmp", "RenameState"]
    );
    let last = machine.calls.len() - 4;
    assert_eq!(
        machine.calls[last..],
        ["CreateStateDir", "WriteStateTmp", "RenameState", "AppendLog(EmergencyComplete)"]
    );
}

#[test]
fn an_interrupted_change_leaves_a_dirty_state() {
    let (mut machine, mut daemon) = started();
    daemon.dispatch(Command::SetMode { mode: Mode::SupaaPlus });
    let mut seen = 0;
    while seen < 30 {
        match daemon.next() {
            Action::Call(call) => {
                let reply = machine.perform(call, &daemon.state);
                daemon.deliver(reply);
            }
            _ => break,
        }
        seen += 1;
        if seen >= 3 {
            assert_eq!(machine.saved_clean, Some(false));
        }
    }
    assert!(seen > 10);
}

#[test]
fn what_is_stopped_is_in_the_file_at_every_point() {
    let (mut machine, mut daemon) = started();
    machine.focus(&mut daemon, 10);
    for mode in [Mode::SupaaPlus, Mode::Supaa, Mode::SupaaPlus, Mode::Normal] {
        daemon.dispatch(Command::SetMode { mode });
        while let Action::Call(call) = daemon.next() {
            let reply = machine.perform(call, &daemon.state);
            daemon.deliver(reply);
            assert!(machine.stopped.is_subset(&machine.saved_list));
            assert!(machine.stopped.is_empty() || machine.saved_clean == Some(false));
        }
    }
    assert!(machine.saved_list.is_empty());
}

#[test]
fn a_scan_is_listed_at_its_time() {
    let (machine, mut daemon) = started();
    daemon.dispatch(Command::SetMode { mode: Mode::SupaaPlus });
    let mut scans = 0;
    while let Action::Call(call) = daemon.next() {
        if let SystemCall::ScanProcesses = call {
            scans += 1;
            daemon.deliver_at(SystemReply::Table(machine.table.clone()), scans);
        } else {
            daemon.deliver(SystemReply::Outcome(true));
        }
        if scans == 2 {
            break;
        }
    }
    assert_eq!(daemon.state.timestamp, 2);
    assert_eq!(daemon.state.frozen_pids, HashSet::from([10, 11, 12, 13]));
    assert!(daemon.frozen.is_empty());
    assert!(matches!(daemon.next(), Action::Call(SystemCall::CreateStateDir)));
}

#[test]
fn bindings_do_not_outlast_the_lock() {
    for command in [
        Command::SetMode { mode: Mode::Normal },
        Command::SetMode { mode: Mode::Supaa },
        Command::EmergencyRestore { quit_after: false },
        Command::Shutdown,
    ] {
        let (mut machine, mut daemon) = started();
        machine.no_submap = true;
        machine.set_mode(&mut daemon, Mode::SupaaPlus);
        assert_eq!(machine.bound.len(), 14);
        machine.run(&mut daemon, command);
        assert!(machine.bound.is_empty());
    }
}

#[test]
fn without_bindings_none_is_taken_back() {
    let (mut machine, mut daemon) = started();
    machine.set_mode(&mut daemon, Mode::SupaaPlus);
    machine.set_mode(&mut daemon, Mode::Normal);
    assert!(!machine.calls.iter().any(|call| call.contains("Unbind")));
}

#[test]
fn a_process_that_cannot_be_signalled_is_not_remembered_as_frozen() {
    let (mut machine, mut daemon) = started();
    machine.unkillable.insert(13);
    machine.set_mode(&mut daemon, Mode::SupaaPlus);
    assert_eq!(daemon.frozen, HashSet::from([10, 11, 12]));
}

#[test]
fn what_cannot_be_thawed_stays_frozen() {
    let (mut machine, mut daemon) = started();
    machine.set_mode(&mut daemon, Mode::SupaaPlus);
    machine.unkillable.insert(13);
    machine.table.records.retain(|r| r.pid != 12);
    machine.set_mode(&mut daemon, Mode::Normal);
    assert_eq!(daemon.frozen, HashSet::from([13]));
    assert_eq!(daemon.state.frozen_pids, HashSet::from([13]));
}

#[test]
fn a_focus_application_is_moved_and_released_with_its_tree() {
    let (mut machine, mut daemon) = started();
    machine.focus(&mut daemon, 12);
    assert_eq!(daemon.focus_pid, Some(12));
    assert_eq!(daemon.state.focus_app_name.as_deref(), Some("game"));
    let mut moved = machine.calls[1..].to_vec();
    moved.sort();
    assert_eq!(moved, ["Write(Focus, Procs(12))", "Write(Focus, Procs(13))"]);
    machine.run(&mut daemon, Command::ClearFocusApp);
    assert_eq!(daemon.focus_pid, None);
    assert_eq!(daemon.focus_name, None);
    assert_eq!(daemon.state.focus_app_pid, None);
    let mut released = machine.calls[1..].to_vec();
    released.sort();
    assert_eq!(released, ["Write(Root, Procs(12))", "Write(Root, Procs(13))"]);
    machine.run(&mut daemon, Command::ClearFocusApp);
    assert!(machine.calls.is_empty());
}

#[test]
fn the_status_says_how_things_stand() {
    let (mut machine, mut daemon) = started();
    machine.focus(&mut daemon, 10);
    machine.set_mode(&mut daemon, Mode::SupaaPlus);
    match machine.run(&mut daemon, Command::GetStatus) {
        Some(Response::Status(status)) => {
            assert_eq!(status.mode, Mode::SupaaPlus);
            assert_eq!(status.focus_app_pid, Some(10));
            assert_eq!(status.focus_app_name.as_deref(), Some("game"));
            assert_eq!(status.frozen_count, 2);
            assert!(status.workspace_locked);
            assert!(!status.state_file_clean);
            assert!(status.uptime_secs < 60);
        }
        other => panic!("{other:?}"),
    }
    assert!(machine.calls.is_empty());
    assert_eq!(daemon.status_at(77).uptime_secs, 77);
}

#[test]
fn the_list_tells_processes_apart() {
    let (mut machine, mut daemon) = started();
    machine.table.records.push(ProcRecord {
        pid: 17,
        has_exe: true,
        comm: None,
        cgroup: None,
        status: None,
    });
    machine.focus(&mut daemon, 10);
    machine.set_mode(&mut daemon, Mode::SupaaPlus);
    let list = match machine.run(&mut daemon, Command::GetProcessList) {
        Some(Response::ProcessList(list)) => list,
        other => panic!("{other:?}"),
    };
    assert_eq!(machine.calls, ["ScanProcesses"]);
    let pids: Vec<u32> = list.iter().map(|p| p.pid).collect();
    assert_eq!(pids, vec![10, 11, 12, 13, 14, 15, 16]);
    let of = |test: fn(&ProcessInfo) -> bool| -> Vec<u32> {
        list.iter().filter(|p| test(p)).map(|p| p.pid).collect()
    };
    assert_eq!(of(|p| p.is_frozen), vec![12, 13]);
    assert_eq!(of(|p| p.is_focus), vec![10]);
    assert_eq!(of(|p| p.is_whitelisted), vec![14, 15, 16]);
    assert_eq!(list[0].name, "game");
}

#[test]
fn an_emergency_starts_over() {
    let (mut machine, mut daemon) = started();
    machine.focus(&mut daemon, 10);
    machine.set_mode(&mut daemon, Mode::SupaaPlus);
    let response = machine.run(&mut daemon, Command::EmergencyRestore { quit_after: false });
    assert!(matches!(response, Some(Response::Done)));
    assert!(machine.stopped.is_empty() && machine.dirs.is_empty() && !machine.locked);
    assert_eq!(machine.saved_clean, Some(true));
    assert_eq!(daemon.mode, Mode::Normal);
    assert_eq!(daemon.focus_pid, None);
    assert!(daemon.state.frozen_pids.is_empty());
    assert!(machine.log.contains(&"Emergency restore complete".to_owned()));
    machine.set_mode(&mut daemon, Mode::Supaa);
    assert_eq!(machine.dirs.len(), 3);
}

#[test]
fn an_emergency_may_end_the_daemon() {
    let (mut machine, mut daemon) = started();
    machine.set_mode(&mut daemon, Mode::SupaaPlus);
    assert!(machine.run(&mut daemon, Command::EmergencyRestore { quit_after: true }).is_none());
    assert!(machine.stopped.is_empty());
    assert_eq!(machine.saved_clean, Some(true));
}

#[test]
fn a_shutdown_leaves_a_clean_state() {
    let (mut machine, mut daemon) = started();
    machine.set_mode(&mut daemon, Mode::SupaaPlus);
    assert!(machine.run(&mut daemon, Command::Shutdown).is_none());
    assert!(machine.stopped.is_empty() && machine.dirs.is_empty() && !machine.locked);
    assert_eq!(machine.saved_clean, Some(true));
    assert_eq!(daemon.state.mode, Mode::Normal);
    assert_eq!(machine.log.last().map(|s| s.as_str()), Some("Clean shutdown complete"));
}

#[test]
fn the_daemon_itself_is_never_stopped() {
    let (mut machine, mut daemon) = started();
    machine.table.records.push(record(30, 1, "renamed"));
    daemon.our_pids.insert(30);
    machine.set_mode(&mut daemon, Mode::SupaaPlus);
    assert!(!machine.stopped.contains(&30));
    assert!(!machine.stopped.contains(&16));
    assert_eq!(machine.stopped, HashSet::from([10, 11, 12, 13]));
}
