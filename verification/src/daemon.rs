//! The daemon: a state machine from commands and replies to calls and responses.
//!
//! [`Daemon::dispatch`] takes a command.  After that, a driver asks [`Daemon::next`] what to do: it
//! carries each call out and hands the reply to [`Daemon::deliver`], until the response is there.
use std::collections::HashSet;
use std::time::Instant;
use vstd::prelude::*;

use crate::cgroup::{init_cgroups, teardown_cgroups};
use crate::disk::{
    all_filed, all_listed, blank, disk_after, lemma_commands_stay_filed, lemma_commands_stay_listed,
    lemma_replies_stay_filed, lemma_replies_stay_listed, lemma_steps_stay_filed,
    lemma_steps_stay_listed, safe_on, saved_before, state_after, Disk,
};
use crate::freezer::{
    freezable, freezable_pids, freezes, law_every_other_process_is_chosen, new_frozen_set,
    FrozenSet,
};
use crate::modes::Mode;
use crate::pids::{copy_of, with_all};
use crate::plan::{
    begun, effect, emergency_tasks, exits, fresh, law_commands_scan_before_freezing,
    lemma_marked_all_push, lemma_plan_has_effect, lemma_stamps_push, marked, marked_all, plan,
    saved_frozen, saved_frozen_all, set_mode_tasks, shutdown_tasks, stamps, stamps_any,
    stamps_at_once, Standing,
};
use crate::policy::{apply_mode, restore_all, restore_on_transition};
use crate::protocol::{
    infos, Answer, Command, DaemonStatus, Info, ProcessInfo, Request, Response, Status,
};
use crate::recovery::{mark_dirty, save_state};
use crate::script::{Script, ScriptRun};
use crate::state::{now_unix, pristine, seconds_since, PersistedState, Saved};
use crate::system::{LogEntry, Signal, SignalOutcome, SystemCall, SystemReply};
use crate::task::{
    bulk, call_of, frozen_after, law_stopped_is_remembered, lemma_engine_keeps_markers,
    lemma_replies_stay_vetted, lemma_reply_keeps_markers, lemma_runs_go_on, lemma_steps_shrink,
    lemma_steps_stay_vetted, lemma_unmarked_has_no_markers, markers_of, marks_in, pauses, pending,
    runs, stopped_after, unmarked, vetted, vetting_after, well_vetted, Engine, Marker, Progress,
    Task, Vetting,
};
use crate::text::{copy_text, opt_text};
use crate::whitelist::{
    comm_of, is_whitelisted, pids_of, proc_comm, process_tree, whitelisted, Proc, ProcTable,
};

verus! {

broadcast use vstd::std_specs::hash::group_hash_axioms;

/// The daemon.
pub struct Daemon {
    pub mode: Mode,
    pub focus_pid: Option<u32>,
    pub focus_name: Option<String>,
    /// The processes that are frozen.
    pub frozen: FrozenSet,
    /// The processes of the daemon itself.
    pub our_pids: HashSet<u32>,
    /// What goes to the state file.
    pub state: PersistedState,
    pub workspace_locked: bool,
    /// When the daemon was started.
    pub start: Instant,
    /// What has yet to be done for the present command.
    pub engine: Engine,
    /// The response to the present command.
    pub response: Response,
    /// Is the daemon to exit after the present command?
    pub exiting: bool,
    /// From what the processes to freeze were chosen last.
    pub vetting: Ghost<Vetting>,
    /// What the daemon has put on the disk.
    pub disk: Ghost<Disk>,
}

/// What a driver has to do next.
#[derive(Debug)]
pub enum Action {
    /// Make this call and deliver the reply.
    Call(SystemCall),
    /// Send this response.
    Finished(Response),
    /// Exit.
    Exit,
}

// ---------------------------------------------------------------------------------------------
//  The list of processes
// ---------------------------------------------------------------------------------------------

/// What the list says of a process with a name.
pub open spec fn info_of(
    table: Seq<Proc>,
    frozen: Set<u32>,
    focus_pid: Option<u32>,
    our_pids: Set<u32>,
    pid: u32,
    name: Seq<char>,
) -> Info {
    Info {
        pid,
        name,
        is_frozen: frozen.contains(pid),
        is_focus: focus_pid == Some(pid),
        is_whitelisted: whitelisted(table, our_pids, pid),
        cpu_weight: None,
    }
}

/// The list of those of some processes that have a name.
pub open spec fn listing(
    table: Seq<Proc>,
    frozen: Set<u32>,
    focus_pid: Option<u32>,
    our_pids: Set<u32>,
    pids: Seq<u32>,
) -> Seq<Info>
    decreases pids.len(),
{
    if pids.len() == 0 {
        seq![]
    } else {
        let earlier = listing(table, frozen, focus_pid, our_pids, pids.drop_last());
        match comm_of(table, pids.last()) {
            Some(name) => earlier.push(
                info_of(table, frozen, focus_pid, our_pids, pids.last(), name),
            ),
            None => earlier,
        }
    }
}

// ---------------------------------------------------------------------------------------------
//  The daemon
// ---------------------------------------------------------------------------------------------

impl Daemon {
    /// What commands change in the daemon.
    pub open spec fn standing(self) -> Standing {
        Standing {
            mode: self.mode,
            focus_pid: self.focus_pid,
            focus_name: opt_text(self.focus_name),
            workspace_locked: self.workspace_locked,
            saved: Saved { frozen_pids: Set::empty(), ..self.state@ },
        }
    }

    /// The standing as it will be when the present command is finished.
    pub open spec fn outlook(self) -> Standing {
        marked_all(self.standing(), markers_of(self.engine.queue@))
    }

    /// Was everything that is about to be frozen vetted, and is it not frozen yet?
    pub open spec fn careful(self) -> bool {
        &&& well_vetted(pending(self.engine), self.vetting@, self.our_pids@)
        &&& self.engine.current matches Some(Task::Freeze(pid)) ==> !self.frozen@.contains(pid)
    }

    /// Is everything but the standing, the engine and the state's frozen processes the same?
    pub open spec fn same_surroundings(self, other: Daemon) -> bool {
        &&& self.frozen@ == other.frozen@
        &&& self.our_pids@ == other.our_pids@
        &&& self.start == other.start
        &&& self.vetting == other.vetting
        &&& self.disk == other.disk
    }

    /// Is every process that is frozen, or about to be, listed in the state?
    pub open spec fn listed(self) -> bool {
        all_listed(pending(self.engine), self.state@, self.frozen@)
    }

    /// Is every process that is frozen, or about to be, listed in the state file, as long as the state
    /// could be saved?
    pub open spec fn filed(self) -> bool {
        &&& all_filed(pending(self.engine), self.state@, self.frozen@, self.disk@)
        &&& self.engine.current matches Some(task) ==> call_of(task) is Some
    }

    /// A daemon that has yet to set its directories up.
    pub fn new(own_pid: u32) -> (r: Self)
        ensures
            r.standing() == fresh(),
            r.state@ == pristine(),
            r.frozen@ == Set::<u32>::empty(),
            r.our_pids@ == Set::<u32>::empty().insert(own_pid),
            r.engine.queue@ == seq![Task::Script(ScriptRun::begin(Script::InitCgroups))],
            r.engine.current is None,
            r.response@ == Answer::Done,
            !r.exiting,
            !r.engine.bound,
            r.disk@ == blank(),
            r.careful(),
            r.listed(),
            r.filed(),
            r.outlook() == fresh(),
    {
        let mut our_pids: HashSet<u32> = HashSet::new();
        our_pids.insert(own_pid);
        let mut engine = Engine::new();
        engine.queue.push(Task::Script(init_cgroups()));
        let state = PersistedState::new();
        let r = Daemon {
            mode: Mode::Normal,
            focus_pid: None,
            focus_name: None,
            frozen: new_frozen_set(),
            our_pids,
            state,
            workspace_locked: false,
            start: Instant::now(),
            engine,
            response: Response::Done,
            exiting: false,
            vetting: Ghost(Vetting { scan: seq![], focus_pid: None }),
            disk: Ghost(blank()),
        };
        proof {
            let queue = seq![Task::Script(ScriptRun::begin(Script::InitCgroups))];
            assert(r.engine.queue@ =~= queue);
            assert(unmarked(queue));
            lemma_unmarked_has_no_markers(queue);
            assert(r.state@.frozen_pids =~= Set::empty());
        }
        r
    }

    /// Is the daemon ready for a command?
    pub fn is_idle(&self) -> (r: bool)
        ensures
            r == self.engine.is_idle(),
    {
        self.engine.idle()
    }

    // -- Commands -----------------------------------------------------------------------------

    /// Has the command been begun, and nothing more?
    pub open spec fn begins(self, request: Request, next: Daemon) -> bool {
        &&& next.standing() == begun(self.standing(), request)
        &&& next.state@.frozen_pids == if stamps_at_once(self.standing(), request) {
            self.frozen@
        } else {
            self.state@.frozen_pids
        }
        &&& !stamps_at_once(self.standing(), request) ==> next.state.timestamp
            == self.state.timestamp
        &&& next.engine.queue@ == plan(self.standing(), request)
        &&& next.engine.current is None
        &&& next.engine.last_run == self.engine.last_run
        &&& next.engine.bound == self.engine.bound
        &&& next.same_surroundings(self)
    }

    /// Change the mode.  The mode that the daemon is in already takes nothing.
    pub fn handle_set_mode(&mut self, mode: Mode)
        requires
            old(self).engine.is_idle(),
        ensures
            old(self).begins(Request::SetMode { mode }, *final(self)),
            final(self).response@ == Answer::Done,
            final(self).exiting == old(self).exiting,
    {
        self.response = Response::Done;
        if self.mode == mode {
            return;
        }
        self.state.frozen_pids = copy_of(&self.frozen);
        let mut tasks: Vec<Task> = Vec::new();
        tasks.push(Task::Script(mark_dirty(&mut self.state)));
        if self.mode != Mode::Normal {
            tasks.append(&mut restore_on_transition());
            if mode == Mode::Normal {
                tasks.append(&mut teardown_cgroups());
            }
        }
        tasks.push(Task::Mark(Marker::EnterMode(mode)));
        tasks.append(&mut apply_mode(mode, self.focus_pid));
        tasks.push(Task::Mark(Marker::FinishMode(mode)));
        tasks.push(Task::Script(save_state()));
        tasks.push(Task::Call(SystemCall::AppendLog(LogEntry::ModeSet(mode))));
        proof {
            assert(tasks@ =~= set_mode_tasks(old(self).mode, mode, old(self).focus_pid));
        }
        self.engine.push_all(tasks);
        proof {
            assert(self.engine.queue@ =~= set_mode_tasks(
                old(self).mode,
                mode,
                old(self).focus_pid,
            ));
        }
    }

    /// Make a process the focus application, and move its entire tree to the focus directory.
    pub fn handle_set_focus(&mut self, pid: u32, name: String)
        requires
            old(self).engine.is_idle(),
        ensures
            old(self).begins(Request::SetFocusApp { pid, name: name@ }, *final(self)),
            final(self).response@ == Answer::Done,
            final(self).exiting == old(self).exiting,
    {
        self.response = Response::Done;
        self.focus_pid = Some(pid);
        self.focus_name = Some(name.clone());
        self.state.focus_app_pid = Some(pid);
        self.state.focus_app_name = Some(name);
        self.engine.queue.push(Task::MoveTree(pid));
        proof {
            assert(self.engine.queue@ =~= seq![Task::MoveTree(pid)]);
        }
    }

    /// Have no focus application, and move the entire tree of the last one back to the root of the
    /// hierarchy.
    pub fn handle_clear_focus(&mut self)
        requires
            old(self).engine.is_idle(),
        ensures
            old(self).begins(Request::ClearFocusApp, *final(self)),
            final(self).response@ == Answer::Done,
            final(self).exiting == old(self).exiting,
    {
        self.response = Response::Done;
        if let Some(pid) = self.focus_pid {
            self.engine.queue.push(Task::ReleaseTree(pid));
            proof {
                assert(self.engine.queue@ =~= seq![Task::ReleaseTree(pid)]);
            }
        }
        self.focus_pid = None;
        self.focus_name = None;
        self.state.focus_app_pid = None;
        self.state.focus_app_name = None;
    }

    /// The status of the daemon after so many seconds.
    pub open spec fn status_after(self, uptime_secs: u64) -> Status {
        Status {
            mode: self.mode,
            focus_app_pid: self.focus_pid,
            focus_app_name: opt_text(self.focus_name),
            frozen_count: self.frozen@.len(),
            workspace_locked: self.workspace_locked,
            state_file_clean: self.state@.clean_shutdown,
            uptime_secs,
        }
    }

    /// The status of the daemon after so many seconds.
    pub fn status_at(&self, uptime_secs: u64) -> (r: DaemonStatus)
        ensures
            r@ == self.status_after(uptime_secs),
    {
        DaemonStatus {
            mode: self.mode,
            focus_app_pid: self.focus_pid,
            focus_app_name: copy_text(&self.focus_name),
            frozen_count: self.frozen.len(),
            workspace_locked: self.workspace_locked,
            state_file_clean: !self.state.is_dirty(),
            uptime_secs,
        }
    }

    /// The status of the daemon.  Only the clock decides for how many seconds it has run.
    pub fn handle_get_status(&self) -> (r: Response)
        ensures
            r@ matches Answer::Status(status) && status == self.status_after(status.uptime_secs),
    {
        Response::Status(self.status_at(seconds_since(&self.start)))
    }

    /// The list of the processes of a scan that have a name.
    pub fn handle_get_process_list(&self, table: &ProcTable) -> (r: Response)
        ensures
            r@ == Answer::ProcessList(
                listing(
                    table@,
                    self.frozen@,
                    self.focus_pid,
                    self.our_pids@,
                    pids_of(table@),
                ),
            ),
    {
        let mut list: Vec<ProcessInfo> = Vec::new();
        let ghost pids = pids_of(table@);
        let mut i: usize = 0;
        while i < table.records.len()
            invariant
                i <= table.records@.len(),
                pids == pids_of(table@),
                infos(list@) == listing(
                    table@,
                    self.frozen@,
                    self.focus_pid,
                    self.our_pids@,
                    pids.take(i as int),
                ),
            decreases table.records@.len() - i,
        {
            let pid = table.records[i].pid;
            proof {
                assert(pids.take(i + 1).drop_last() =~= pids.take(i as int));
                assert(pids.take(i + 1).last() == pid);
            }
            if let Some(name) = proc_comm(pid, table) {
                let is_focus = match self.focus_pid {
                    Some(focus) => focus == pid,
                    None => false,
                };
                let info = ProcessInfo {
                    pid,
                    name,
                    is_frozen: self.frozen.contains(&pid),
                    is_focus,
                    is_whitelisted: is_whitelisted(pid, &self.our_pids, table),
                    cpu_weight: None,
                };
                let ghost before = list@;
                list.push(info);
                proof {
                    assert(infos(list@) =~= infos(before).push(info@));
                }
            }
            i = i + 1;
        }
        proof {
            assert(pids.take(i as int) =~= pids);
        }
        Response::ProcessList(list)
    }

    /// Restore everything.
    pub fn handle_emergency_restore(&mut self, quit_after: bool)
        requires
            old(self).engine.is_idle(),
        ensures
            old(self).begins(Request::EmergencyRestore { quit_after }, *final(self)),
            final(self).response@ == Answer::Done,
            final(self).exiting == (old(self).exiting || quit_after),
    {
        self.response = Response::Done;
        self.exiting = self.exiting || quit_after;
        self.state.frozen_pids = copy_of(&self.frozen);
        let mut tasks: Vec<Task> = Vec::new();
        tasks.push(Task::Call(SystemCall::AppendLog(LogEntry::EmergencyTriggered)));
        tasks.push(Task::Script(mark_dirty(&mut self.state)));
        tasks.append(&mut restore_all());
        tasks.push(Task::Mark(Marker::Restored));
        tasks.push(Task::Script(save_state()));
        tasks.push(Task::Call(SystemCall::AppendLog(LogEntry::EmergencyComplete)));
        self.engine.push_all(tasks);
        proof {
            assert(self.engine.queue@ =~= emergency_tasks());
        }
    }

    /// Restore everything, and mark the state as clean, before the daemon exits.
    pub fn shutdown(&mut self)
        requires
            old(self).engine.is_idle(),
        ensures
            old(self).begins(Request::Shutdown, *final(self)),
            final(self).response@ == Answer::Done,
            final(self).exiting,
    {
        self.response = Response::Done;
        self.exiting = true;
        self.state.frozen_pids = copy_of(&self.frozen);
        let mut tasks: Vec<Task> = Vec::new();
        tasks.push(Task::Call(SystemCall::AppendLog(LogEntry::ShutdownStarted)));
        tasks.push(Task::Script(mark_dirty(&mut self.state)));
        tasks.append(&mut restore_all());
        tasks.push(Task::Mark(Marker::ShutDown));
        tasks.push(Task::Script(save_state()));
        tasks.push(Task::Call(SystemCall::AppendLog(LogEntry::ShutdownComplete)));
        self.engine.push_all(tasks);
        proof {
            assert(self.engine.queue@ =~= shutdown_tasks());
        }
    }

    /// Begin a command.
    pub fn dispatch(&mut self, cmd: Command)
        requires
            old(self).engine.is_idle(),
        ensures
            old(self).begins(cmd@, *final(self)),
            final(self).outlook() == effect(old(self).standing(), cmd@),
            final(self).exiting == (old(self).exiting || exits(cmd@)),
            final(self).careful(),
            old(self).listed() ==> final(self).listed(),
            old(self).filed() ==> final(self).filed(),
            match cmd@ {
                Request::GetStatus => final(self).response@ matches Answer::Status(status) && status
                    == old(self).status_after(status.uptime_secs),
                _ => final(self).response@ == Answer::Done,
            },
    {
        let ghost request = cmd@;
        match cmd {
            Command::SetMode { mode } => self.handle_set_mode(mode),
            Command::SetFocusApp { pid, name } => self.handle_set_focus(pid, name),
            Command::ClearFocusApp => self.handle_clear_focus(),
            Command::GetStatus => {
                self.response = self.handle_get_status();
            },
            Command::GetProcessList => {
                self.response = Response::Done;
                self.engine.queue.push(Task::ListProcesses);
                proof {
                    assert(self.engine.queue@ =~= seq![Task::ListProcesses]);
                }
            },
            Command::Shutdown => self.shutdown(),
            Command::EmergencyRestore { quit_after } => self.handle_emergency_restore(quit_after),
        }
        proof {
            lemma_plan_has_effect(old(self).standing(), request);
            law_commands_scan_before_freezing(old(self).standing(), request);
            let standing = old(self).standing();
            assert(pending(old(self).engine) =~= seq![]);
            if old(self).listed() {
                lemma_commands_stay_listed(
                    standing,
                    request,
                    old(self).state@,
                    self.state@,
                    self.frozen@,
                );
            }
            if old(self).filed() {
                lemma_commands_stay_filed(
                    standing,
                    request,
                    old(self).state@,
                    self.state@,
                    self.frozen@,
                    self.disk@,
                );
            }
        }
    }

    // -- Progress -----------------------------------------------------------------------------

    /// Reach a marker at a given time.
    pub fn reach_at(&mut self, marker: Marker, now: u64)
        ensures
            final(self).state.timestamp == if stamps(marker) {
                now
            } else {
                old(self).state.timestamp
            },
            final(self).standing() == marked(old(self).standing(), marker),
            final(self).state@.frozen_pids == saved_frozen(
                marker,
                old(self).frozen@,
                old(self).state@.frozen_pids,
            ),
            final(self).same_surroundings(*old(self)),
            final(self).engine == old(self).engine,
            final(self).response == old(self).response,
            final(self).exiting == old(self).exiting,
    {
        match marker {
            Marker::EnterMode(mode) => {
                self.mode = mode;
                self.state.mode = mode;
            },
            Marker::FinishMode(mode) => {
                self.workspace_locked = mode.should_lock_workspace();
                self.state.workspace_locked = self.workspace_locked;
                self.state.frozen_pids = copy_of(&self.frozen);
                self.state.mark_at(mode == Mode::Normal || self.state.clean_shutdown, now);
            },
            Marker::Restored => {
                self.mode = Mode::Normal;
                self.state.mode = Mode::Normal;
                self.workspace_locked = false;
                self.state.workspace_locked = false;
                self.focus_pid = None;
                self.focus_name = None;
                self.state.focus_app_pid = None;
                self.state.focus_app_name = None;
                self.state.frozen_pids.clear();
                self.state.mark_at(true, now);
            },
            Marker::ShutDown => {
                self.state.mode = Mode::Normal;
                self.state.workspace_locked = false;
                self.state.frozen_pids.clear();
                self.state.mark_at(true, now);
            },
            Marker::Recovered => {},
        }
    }

    /// Take one step of the present command.
    ///
    /// The step keeps what the command will have changed in the end, and freezes nothing that was
    /// not vetted.
    pub fn advance(&mut self) -> (r: Progress)
        ensures
            old(self).engine.advances(old(self).frozen@, final(self).engine, r),
            final(self).same_surroundings(*old(self)),
            final(self).response@ == old(self).response@,
            final(self).exiting == old(self).exiting,
            match r {
                Progress::Mark(marker) => {
                    &&& final(self).standing() == marked(old(self).standing(), marker)
                    &&& final(self).state@.frozen_pids == saved_frozen(
                        marker,
                        old(self).frozen@,
                        old(self).state@.frozen_pids,
                    )
                    &&& !stamps(marker) ==> final(self).state.timestamp == old(
                        self,
                    ).state.timestamp
                },
                _ => {
                    &&& final(self).standing() == old(self).standing()
                    &&& final(self).state@ == old(self).state@
                    &&& final(self).state.timestamp == old(self).state.timestamp
                },
            },
            final(self).outlook() == old(self).outlook(),
            old(self).careful() ==> final(self).careful(),
            old(self).listed() ==> final(self).listed(),
            old(self).filed() ==> final(self).filed(),
            old(self).careful() ==> (r matches Progress::Call(
                SystemCall::Signal(pid, Signal::Stop),
            ) ==> vetted(old(self).vetting@, old(self).our_pids@, pid) && !old(
                self,
            ).frozen@.contains(pid)),
    {
        let r = self.engine.advance(&self.frozen);
        if let Progress::Mark(marker) = r {
            self.reach_at(marker, now_unix());
        }
        proof {
            lemma_engine_keeps_markers(old(self).engine, old(self).frozen@, self.engine, r);
            if let Progress::Mark(marker) = r {
                let ahead = markers_of(self.engine.queue@);
                assert((seq![marker] + ahead).skip(1) =~= ahead);
            }
            if old(self).listed() {
                lemma_steps_stay_listed(
                    old(self).engine,
                    old(self).frozen@,
                    self.engine,
                    r,
                    old(self).state@,
                    self.state@,
                );
            }
            if old(self).filed() {
                lemma_steps_stay_filed(
                    old(self).engine,
                    old(self).frozen@,
                    self.engine,
                    r,
                    old(self).state@,
                    self.state@,
                    self.disk@,
                );
            }
            if old(self).careful() {
                lemma_steps_stay_vetted(
                    old(self).engine,
                    old(self).frozen@,
                    self.engine,
                    r,
                    old(self).vetting@,
                    old(self).our_pids@,
                );
            }
        }
        r
    }

    /// May a run with these reports lead from `self` to `next`?
    pub open spec fn goes_on(self, reports: Seq<Progress>, next: Daemon) -> bool {
        &&& runs(self.engine, self.frozen@, reports, next.engine)
        &&& next.standing() == marked_all(self.standing(), marks_in(reports))
        &&& next.state@.frozen_pids == saved_frozen_all(
            marks_in(reports),
            self.frozen@,
            self.state@.frozen_pids,
        )
        &&& !stamps_any(marks_in(reports)) ==> next.state.timestamp == self.state.timestamp
    }

    /// Go on with the present command, up to the next call, or to its end.
    pub fn next(&mut self) -> (r: Action)
        ensures
            exists|reports: Seq<Progress>| #[trigger]
                old(self).goes_on(reports, *final(self)) && pauses(reports) && reports.last()
                    == match r {
                    Action::Call(call) => Progress::Call(call),
                    _ => Progress::Idle,
                },
            final(self).same_surroundings(*old(self)),
            final(self).exiting == old(self).exiting,
            final(self).outlook() == old(self).outlook(),
            old(self).careful() ==> final(self).careful(),
            old(self).listed() ==> final(self).listed(),
            old(self).filed() ==> final(self).filed(),
            match r {
                Action::Call(call) => {
                    &&& final(self).engine.current matches Some(task) && call_of(task) == Some(call)
                    &&& final(self).response@ == old(self).response@
                    &&& old(self).careful() ==> (call matches SystemCall::Signal(
                        pid,
                        Signal::Stop,
                    ) ==> vetted(old(self).vetting@, old(self).our_pids@, pid) && !old(
                        self,
                    ).frozen@.contains(pid))
                    &&& old(self).careful() && old(self).filed() && !old(self).disk@.missed ==> (
                    call matches SystemCall::Signal(pid, Signal::Stop) ==> safe_on(
                        old(self).disk@,
                        pid,
                    ))
                },
                Action::Finished(response) => {
                    &&& response@ == old(self).response@
                    &&& final(self).engine.is_idle()
                    &&& final(self).standing() == old(self).outlook()
                    &&& !old(self).exiting
                },
                Action::Exit => {
                    &&& final(self).engine.is_idle()
                    &&& final(self).standing() == old(self).outlook()
                    &&& old(self).exiting
                },
            },
    {
        let ghost mut reports: Seq<Progress> = seq![];
        loop
            invariant
                old(self).goes_on(reports, *self),
                forall|i: int|
                    0 <= i < reports.len() ==> #[trigger] reports[i] is Busy || reports[i] is Mark,
                self.same_surroundings(*old(self)),
                self.exiting == old(self).exiting,
                self.outlook() == old(self).outlook(),
                self.response@ == old(self).response@,
                old(self).careful() ==> self.careful(),
                old(self).listed() ==> self.listed(),
                old(self).filed() ==> self.filed(),
            decreases
                bulk(self.engine.queue@),
                self.engine.queue@.len(),
                (if self.engine.current is Some {
                    1nat
                } else {
                    0nat
                }),
        {
            let ghost before = *self;
            let progress = self.advance();
            proof {
                let marks = marks_in(reports);
                lemma_runs_go_on(
                    old(self).engine,
                    old(self).frozen@,
                    reports,
                    before.engine,
                    progress,
                    self.engine,
                );
                if let Progress::Mark(marker) = progress {
                    lemma_marked_all_push(old(self).standing(), marks, marker);
                    assert(marks.push(marker).drop_last() =~= marks);
                    lemma_stamps_push(marks, marker);
                }
                reports = reports.push(progress);
                assert(old(self).goes_on(reports, *self));
            }
            match progress {
                Progress::Call(call) => {
                    proof {
                        if old(self).careful() && old(self).filed() {
                            if let SystemCall::Signal(pid, Signal::Stop) = call {
                                assert(pending(self.engine)[0] == Task::Freeze(pid));
                                assert(!saved_before(pending(self.engine), 0));
                            }
                        }
                    }
                    return Action::Call(call);
                },
                Progress::Idle => {
                    proof {
                        assert(self.engine.queue@ =~= seq![]);
                    }
                    if self.exiting {
                        return Action::Exit;
                    }
                    let mut response = Response::Done;
                    std::mem::swap(&mut response, &mut self.response);
                    proof {
                        assert(old(self).goes_on(reports, *self));
                    }
                    return Action::Finished(response);
                },
                _ => {
                    proof {
                        lemma_steps_shrink(before.engine, before.frozen@, self.engine, progress);
                    }
                },
            }
        }
    }

    /// If every process that the daemon had stopped was in its set, does that hold in `next` too,
    /// after the reply to the last call?
    pub open spec fn remembers(self, reply: SystemReply, next: Daemon) -> bool {
        self.engine.current matches Some(task) ==> call_of(task) matches Some(call) ==> forall|
            stopped: Set<u32>,
        |
            stopped.subset_of(self.frozen@) ==> #[trigger] stopped_after(
                stopped,
                call,
                reply,
            ).subset_of(next.frozen@)
    }

    /// Is `next` what the reply to the last call makes of `self`, but for the timestamp?
    pub open spec fn takes(self, reply: SystemReply, next: Daemon) -> bool {
        &&& self.engine.delivers(reply, self.our_pids@, next.engine)
        &&& next.standing() == self.standing()
        &&& next.state@ == state_after(
            self.engine,
            reply,
            self.our_pids@,
            self.frozen@,
            self.state@,
        )
        &&& next.our_pids@ == self.our_pids@
        &&& next.start == self.start
        &&& next.exiting == self.exiting
        &&& next.frozen@ == match self.engine.current {
            Some(task) => frozen_after(task, reply, self.frozen@),
            None => self.frozen@,
        }
        &&& next.vetting@ == vetting_after(self.engine, reply, self.vetting@)
        &&& next.disk@ == match self.engine.current {
            Some(task) => match call_of(task) {
                Some(call) => disk_after(call, reply, self.state@, self.disk@),
                None => self.disk@,
            },
            None => self.disk@,
        }
        &&& next.response@ == match self.engine.current {
            Some(Task::ListProcesses) => Answer::ProcessList(
                listing(
                    reply.scan(),
                    self.frozen@,
                    self.focus_pid,
                    self.our_pids@,
                    pids_of(reply.scan()),
                ),
            ),
            _ => self.response@,
        }
    }

    /// Take the reply to the last call, at a given time.
    ///
    /// The reply keeps what the command will have changed in the end.  What a scan chose to be frozen
    /// is listed in the state, which is then saved before anything is frozen.
    pub fn deliver_at(&mut self, reply: SystemReply, now: u64)
        ensures
            old(self).takes(reply, *final(self)),
            final(self).state.timestamp == match old(self).engine.current {
                Some(Task::FreezeBackground(_)) => now,
                _ => old(self).state.timestamp,
            },
            final(self).outlook() == old(self).outlook(),
            old(self).careful() ==> final(self).careful(),
            old(self).careful() ==> old(self).remembers(reply, *final(self)),
            old(self).careful() && old(self).listed() ==> final(self).listed(),
            old(self).listed() && old(self).filed() ==> final(self).filed(),
    {
        let empty = ProcTable { records: Vec::new() };
        proof {
            assert(empty@ =~= seq![]);
        }
        let table: &ProcTable = match &reply {
            SystemReply::Table(table) => table,
            _ => &empty,
        };
        match self.engine.current {
            Some(Task::ListProcesses) => {
                self.response = self.handle_get_process_list(table);
            },
            Some(Task::FreezeBackground(focus_pid)) => {
                self.state.frozen_pids = with_all(
                    &self.frozen,
                    &freezable(focus_pid, &self.our_pids, table),
                );
                self.state.mark_at(self.state.clean_shutdown, now);
            },
            _ => {},
        }
        self.disk = Ghost(
            match self.engine.current {
                Some(task) => match call_of(task) {
                    Some(call) => disk_after(call, reply, old(self).state@, self.disk@),
                    None => self.disk@,
                },
                None => self.disk@,
            },
        );
        self.vetting = Ghost(vetting_after(self.engine, reply, self.vetting@));
        self.engine.deliver(&reply, &mut self.frozen, &self.our_pids);
        proof {
            lemma_reply_keeps_markers(old(self).engine, reply, old(self).our_pids@, self.engine);
            if old(self).careful() {
                if let Some(task) = old(self).engine.current {
                    assert(pending(old(self).engine)[0] == task);
                    if let Some(call) = call_of(task) {
                        assert forall|stopped: Set<u32>|
                            stopped.subset_of(old(self).frozen@) implies #[trigger] stopped_after(
                            stopped,
                            call,
                            reply,
                        ).subset_of(self.frozen@) by {
                            law_stopped_is_remembered(task, reply, stopped, old(self).frozen@);
                        }
                    }
                    if old(self).listed() {
                        lemma_replies_stay_listed(
                            old(self).engine,
                            reply,
                            old(self).our_pids@,
                            self.engine,
                            old(self).state@,
                            old(self).frozen@,
                            old(self).vetting@,
                        );
                    }
                }
                lemma_replies_stay_vetted(
                    old(self).engine,
                    reply,
                    self.engine,
                    old(self).vetting@,
                    old(self).our_pids@,
                );
            }
            if old(self).listed() && old(self).filed() {
                if old(self).engine.current is Some {
                    lemma_replies_stay_filed(
                        old(self).engine,
                        reply,
                        old(self).our_pids@,
                        self.engine,
                        old(self).state@,
                        old(self).frozen@,
                        old(self).disk@,
                    );
                }
            }
        }
    }

    /// Take the reply to the last call.
    ///
    /// The reply keeps what the command will have changed in the end.  What a scan chose to be frozen
    /// is listed in the state, which is then saved before anything is frozen.
    pub fn deliver(&mut self, reply: SystemReply)
        ensures
            old(self).takes(reply, *final(self)),
            !(old(self).engine.current matches Some(Task::FreezeBackground(_)))
                ==> final(self).state.timestamp == old(self).state.timestamp,
            final(self).outlook() == old(self).outlook(),
            old(self).careful() ==> final(self).careful(),
            old(self).careful() ==> old(self).remembers(reply, *final(self)),
            old(self).careful() && old(self).listed() ==> final(self).listed(),
            old(self).listed() && old(self).filed() ==> final(self).filed(),
    {
        self.deliver_at(reply, now_unix());
    }
}

// ---------------------------------------------------------------------------------------------
//  Laws of what the daemon reports
// ---------------------------------------------------------------------------------------------

/// The list of processes has an entry for each process with a name, in the same order, and none for the
/// others.  It says which are frozen, which one is in focus and which are protected.
pub proof fn law_list_tells_of_named_processes(
    table: Seq<Proc>,
    frozen: Set<u32>,
    focus_pid: Option<u32>,
    our_pids: Set<u32>,
    pids: Seq<u32>,
    pid: u32,
)
    ensures
        listing(table, frozen, focus_pid, our_pids, Seq::<u32>::empty()).len() == 0,
        comm_of(table, pid) is None ==> listing(
            table,
            frozen,
            focus_pid,
            our_pids,
            pids.push(pid),
        ) == listing(table, frozen, focus_pid, our_pids, pids),
        comm_of(table, pid) matches Some(name) ==> {
            let list = listing(table, frozen, focus_pid, our_pids, pids.push(pid));
            &&& list.len() > 0
            &&& list.drop_last() == listing(table, frozen, focus_pid, our_pids, pids)
            &&& list.last().pid == pid
            &&& list.last().name == name
            &&& list.last().is_frozen <==> frozen.contains(pid)
            &&& list.last().is_focus <==> focus_pid == Some(pid)
            &&& list.last().is_whitelisted <==> whitelisted(table, our_pids, pid)
            &&& list.last().cpu_weight is None
        },
{
    assert(pids.push(pid).drop_last() =~= pids);
    if comm_of(table, pid) is Some {
        assert(listing(table, frozen, focus_pid, our_pids, pids.push(pid)).drop_last()
            =~= listing(table, frozen, focus_pid, our_pids, pids));
    }
}

/// The status tells what the daemon holds: its mode, its focus application, how many processes are
/// frozen, the lock, whether the state is clean, and the time it has run.
pub proof fn law_status_tells_what_is_held(daemon: Daemon, uptime_secs: u64)
    ensures
        daemon.status_after(uptime_secs).mode == daemon.mode,
        daemon.status_after(uptime_secs).focus_app_pid == daemon.focus_pid,
        daemon.focus_name matches Some(name) ==> daemon.status_after(uptime_secs).focus_app_name
            == Some(name@),
        daemon.focus_name is None ==> daemon.status_after(uptime_secs).focus_app_name is None,
        daemon.status_after(uptime_secs).frozen_count == daemon.frozen@.len(),
        daemon.status_after(uptime_secs).workspace_locked == daemon.workspace_locked,
        daemon.status_after(uptime_secs).state_file_clean == daemon.state.clean_shutdown,
        daemon.status_after(uptime_secs).uptime_secs == uptime_secs,
{
}

proof fn lemma_listing_holds(
    table: Seq<Proc>,
    frozen: Set<u32>,
    focus_pid: Option<u32>,
    our_pids: Set<u32>,
    pids: Seq<u32>,
    info: Info,
)
    ensures
        listing(table, frozen, focus_pid, our_pids, pids).contains(info) <==> {
            &&& pids.contains(info.pid)
            &&& comm_of(table, info.pid) == Some(info.name)
            &&& info == info_of(table, frozen, focus_pid, our_pids, info.pid, info.name)
        },
    decreases pids.len(),
{
    let list = listing(table, frozen, focus_pid, our_pids, pids);
    if pids.len() > 0 {
        let fewer = pids.drop_last();
        let earlier = listing(table, frozen, focus_pid, our_pids, fewer);
        lemma_listing_holds(table, frozen, focus_pid, our_pids, fewer, info);
        assert(pids =~= fewer.push(pids.last()));
        if earlier.contains(info) {
            let i = earlier.index_of(info);
            assert(list[i] == info);
        }
        if list.contains(info) {
            let i = list.index_of(info);
            if i < earlier.len() {
                assert(earlier[i] == info);
            } else {
                assert(pids[pids.len() - 1] == info.pid);
            }
        }
        if fewer.contains(info.pid) {
            let i = fewer.index_of(info.pid);
            assert(pids[i] == info.pid);
        }
        if pids.contains(info.pid) {
            let i = pids.index_of(info.pid);
            if i < fewer.len() {
                assert(fewer[i] == info.pid);
            }
        }
        if comm_of(table, pids.last()) is Some {
            assert(list[list.len() - 1] == list.last());
        }
    }
}

/// A question for the processes is answered, after a scan, with every scanned process that has a name and
/// with no other.  Each is told to be frozen, in focus or protected exactly if it is.
pub proof fn law_question_is_answered(d: Daemon, table: ProcTable, next: Daemon, info: Info)
    requires
        d.takes(SystemReply::Table(table), next),
        d.engine.current == Some(Task::ListProcesses),
    ensures
        next.response@ matches Answer::ProcessList(list) && (list.contains(info) <==> {
            &&& pids_of(table@).contains(info.pid)
            &&& comm_of(table@, info.pid) == Some(info.name)
            &&& info.is_frozen <==> d.frozen@.contains(info.pid)
            &&& info.is_focus <==> d.focus_pid == Some(info.pid)
            &&& info.is_whitelisted <==> whitelisted(table@, d.our_pids@, info.pid)
            &&& info.cpu_weight is None
        }),
{
    lemma_listing_holds(
        table@,
        d.frozen@,
        d.focus_pid,
        d.our_pids@,
        pids_of(table@),
        info,
    );
}

/// A reply changes what is frozen by the signal that it answers, and by nothing else.  What the daemon
/// holds, and the processes that are its own, stay.
pub proof fn law_replies_tell_of_signals(
    d: Daemon,
    outcome: SignalOutcome,
    next: Daemon,
    pid: u32,
    other: u32,
)
    requires
        d.takes(SystemReply::Signalled(outcome), next),
        d.engine.current == Some(Task::Freeze(pid)) || d.engine.current == Some(Task::Thaw(pid)),
    ensures
        d.engine.current == Some(Task::Freeze(pid)) ==> (next.frozen@.contains(pid)
            <==> d.frozen@.contains(pid) || outcome == SignalOutcome::Delivered),
        d.engine.current == Some(Task::Thaw(pid)) ==> (next.frozen@.contains(pid)
            <==> d.frozen@.contains(pid) && outcome == SignalOutcome::Failed),
        other != pid ==> next.frozen@.contains(other) == d.frozen@.contains(other),
        next.mode == d.mode,
        next.focus_pid == d.focus_pid,
        next.workspace_locked == d.workspace_locked,
        next.our_pids@ == d.our_pids@,
        next.response@ == d.response@,
        next.state@ == d.state@,
        next.exiting == d.exiting,
{
    assert(next.standing() == d.standing());
    assert(d.standing().mode == d.mode && next.standing().mode == next.mode);
}

/// Before the background is frozen, the state lists each process that a scan chose, and each that is
/// frozen already, and no other.
pub proof fn law_chosen_are_listed_in_the_state(
    d: Daemon,
    table: ProcTable,
    focus_pid: Option<u32>,
    next: Daemon,
    pid: u32,
)
    requires
        d.takes(SystemReply::Table(table), next),
        d.engine.current == Some(Task::FreezeBackground(focus_pid)),
    ensures
        next.state@.frozen_pids.contains(pid) <==> {
            ||| d.frozen@.contains(pid)
            ||| {
                &&& pids_of(table@).contains(pid)
                &&& focus_pid matches Some(root) ==> !process_tree(table@, root).contains(pid)
                &&& !whitelisted(table@, d.our_pids@, pid)
            }
        },
        next.frozen@ == d.frozen@,
{
    let chosen = freezable_pids(table@, focus_pid, d.our_pids@);
    law_every_other_process_is_chosen(table@, focus_pid, d.our_pids@, pid);
    let tasks = freezes(chosen);
    if tasks.contains(Task::Freeze(pid)) {
        let i = choose|i: int| 0 <= i < tasks.len() && tasks[i] == Task::Freeze(pid);
        assert(chosen[i] == pid);
        assert(chosen.to_set().contains(pid));
    }
    if chosen.to_set().contains(pid) {
        let i = chosen.index_of(pid);
        assert(tasks[i] == Task::Freeze(pid));
    }
}

/// A command is begun with its whole plan queued and nothing else; what is frozen and which processes are
/// the daemon's own stays.
pub proof fn law_commands_begin_with_their_plan(d: Daemon, request: Request, next: Daemon)
    requires
        d.begins(request, next),
    ensures
        next.engine.queue@ == plan(d.standing(), request),
        next.engine.current is None,
        next.engine.bound == d.engine.bound,
        next.frozen@ == d.frozen@,
        next.our_pids@ == d.our_pids@,
        next.mode == d.mode,
        next.workspace_locked == d.workspace_locked,
        next.state@.mode == d.state@.mode,
        request matches Request::SetFocusApp { pid, name } ==> next.focus_pid == Some(pid)
            && next.state@.focus_app_pid == Some(pid) && next.state@.focus_app_name == Some(name),
        request is ClearFocusApp ==> next.focus_pid is None && next.state@.focus_app_pid is None
            && next.state@.focus_app_name is None,
        request is Shutdown || request is EmergencyRestore || (request matches Request::SetMode {
            mode,
        } && mode != d.mode) ==> !next.state@.clean_shutdown && next.state@.frozen_pids == d.frozen@,
{
    assert(next.standing() == begun(d.standing(), request));
    assert(next.standing().mode == next.mode && d.standing().mode == d.mode);
    assert(next.standing().saved.mode == next.state@.mode);
    assert(next.standing().saved.clean_shutdown == next.state@.clean_shutdown);
    assert(next.standing().saved.focus_app_pid == next.state@.focus_app_pid);
    assert(next.standing().saved.focus_app_name == next.state@.focus_app_name);
    assert(d.standing().saved.mode == d.state@.mode);
}

} // verus!
