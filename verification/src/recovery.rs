//! Recovery after a run that did not end cleanly, and what keeps the state file up to date.
//!
//! The state file is replaced whole, so that an interrupted write leaves the last state in place.
//! When the daemon starts, it reads the file.  If the state in it is dirty, everything that the last
//! run may have left behind is undone before commands are accepted.
use std::collections::HashSet;
use vstd::prelude::*;

use crate::cgroup::{init_cgroups, teardown_cgroups, teardown_tasks};
use crate::daemon::Daemon;
use crate::disk::{safe_on, saved_before};
use crate::freezer::{new_frozen_set, thaw_pid_list, thaws, FrozenSet};
use crate::hyprland::unlock_workspace_keys;
use crate::pids::{lists, members};
use crate::plan::{effect, log_task, save_task, Standing};
use crate::protocol::Request;
use crate::script::{Script, ScriptRun};
use crate::state::{pristine, PersistedState, Saved};
use crate::system::{LogEntry, Signal, SystemCall, SystemReply};
use crate::task::{
    bulk, call_of, frozen_after, gentle, lemma_engine_keeps_markers, lemma_markers_add,
    lemma_replies_stay_gentle, lemma_reply_keeps_markers, lemma_runs_go_on, lemma_steps_shrink,
    lemma_steps_stay_gentle, lemma_unmarked_has_no_markers, markers_of, marks_in, pauses, pending,
    runs, unmarked, Engine, Marker, Progress, Task,
};

verus! {

broadcast use vstd::std_specs::hash::group_hash_axioms;

// ---------------------------------------------------------------------------------------------
//  The state file
// ---------------------------------------------------------------------------------------------

/// Replace the state file.
pub fn save_state() -> (r: ScriptRun)
    ensures
        r == ScriptRun::begin(Script::SaveState),
{
    ScriptRun::start(Script::SaveState)
}

/// Mark the state as dirty, and replace the state file.
pub fn mark_dirty(state: &mut PersistedState) -> (r: ScriptRun)
    ensures
        final(state)@ == (Saved { clean_shutdown: false, ..old(state)@ }),
        r == ScriptRun::begin(Script::SaveState),
{
    state.mark_dirty();
    save_state()
}

/// Mark the state as clean, and replace the state file.
pub fn mark_clean(state: &mut PersistedState) -> (r: ScriptRun)
    ensures
        final(state)@ == (Saved { clean_shutdown: true, ..old(state)@ }),
        r == ScriptRun::begin(Script::SaveState),
{
    state.mark_clean();
    save_state()
}

// ---------------------------------------------------------------------------------------------
//  What recovery takes
// ---------------------------------------------------------------------------------------------

/// Has the last run left something to recover from?
pub open spec fn needs_recovery(state: Option<Saved>) -> bool {
    state matches Some(saved) && !saved.clean_shutdown
}

/// Thaw what the last run left frozen.
pub open spec fn thaw_tasks(order: Seq<u32>) -> Seq<Task> {
    if order.len() == 0 {
        seq![]
    } else {
        thaws(order) + seq![log_task(LogEntry::Thawed(order.len() as u64))]
    }
}

/// Unlock what the last run left locked.  By which way it was locked is not known, so both are
/// undone.
pub open spec fn unlock_tasks(locked: bool) -> Seq<Task> {
    if locked {
        seq![
            Task::Script(ScriptRun::begin(Script::UnlockKeys)),
            log_task(LogEntry::WorkspaceUnlocked),
        ]
    } else {
        seq![]
    }
}

/// What recovery takes, with the frozen processes in some order.  The state is clean, and goes to
/// the file, only at the end.
pub open spec fn recovery_tasks(saved: Saved, order: Seq<u32>) -> Seq<Task> {
    seq![log_task(LogEntry::RecoveryStarted)] + thaw_tasks(order) + unlock_tasks(
        saved.workspace_locked,
    ) + teardown_tasks() + seq![
        log_task(LogEntry::CgroupReset),
        Task::Script(ScriptRun::begin(Script::InitCgroups)),
        Task::Mark(Marker::Recovered),
        Task::Script(ScriptRun::begin(Script::SaveRecovered)),
    ]
}

// ---------------------------------------------------------------------------------------------
//  Recovery
// ---------------------------------------------------------------------------------------------

/// A recovery under way.
#[derive(Debug)]
pub struct Recovery {
    /// What has yet to be done.
    pub engine: Engine,
    /// What goes to the state file.
    pub state: PersistedState,
    /// The processes that recovery itself has frozen: none.
    pub frozen: FrozenSet,
    /// The processes that are the daemon's own: recovery asks for none.
    pub our_pids: HashSet<u32>,
}

/// What a driver of a recovery has to do next.
#[derive(Debug)]
pub enum RecoveryAction {
    /// Make this call and deliver the reply.
    Call(SystemCall),
    /// Recovery is over.  Was the state saved, if there was something to recover from?
    Finished(bool),
}

/// The state as it will be when the markers have been reached.
pub open spec fn settled(state: Saved, markers: Seq<Marker>) -> Saved {
    if markers.contains(Marker::Recovered) {
        pristine()
    } else {
        state
    }
}

impl Recovery {
    /// The state as it will be when recovery is over.
    pub open spec fn outlook(self) -> Saved {
        settled(self.state@, markers_of(self.engine.queue@))
    }

    /// Has the state not been saved at the end of a recovery?
    pub open spec fn unsaved(self) -> bool {
        self.engine.last_run matches Some(run) && run.script == Script::SaveRecovered && run.failed
    }

    /// May a run with these reports lead from `self` to `next`?
    pub open spec fn goes_on(self, reports: Seq<Progress>, next: Recovery) -> bool {
        &&& runs(self.engine, self.frozen@, reports, next.engine)
        &&& next.state@ == settled(self.state@, marks_in(reports))
        &&& !marks_in(reports).contains(Marker::Recovered) ==> next.state.timestamp
            == self.state.timestamp
    }

    /// Go on, up to the next call, or to the end.  No process is ever stopped.
    pub fn next(&mut self) -> (r: RecoveryAction)
        ensures
            exists|reports: Seq<Progress>| #[trigger]
                old(self).goes_on(reports, *final(self)) && pauses(reports) && reports.last()
                    == match r {
                    RecoveryAction::Call(call) => Progress::Call(call),
                    _ => Progress::Idle,
                },
            final(self).outlook() == old(self).outlook(),
            final(self).engine.last_run == old(self).engine.last_run,
            final(self).frozen@ == old(self).frozen@,
            final(self).our_pids@ == old(self).our_pids@,
            gentle(pending(old(self).engine)) ==> gentle(pending(final(self).engine)),
            match r {
                RecoveryAction::Call(call) => {
                    &&& final(self).engine.current matches Some(task) && call_of(task) == Some(call)
                    &&& gentle(pending(old(self).engine)) ==> !(call matches SystemCall::Signal(
                        _,
                        Signal::Stop,
                    ))
                },
                RecoveryAction::Finished(saved) => {
                    &&& final(self).engine.is_idle()
                    &&& final(self).state@ == old(self).outlook()
                    &&& saved == !final(self).unsaved()
                },
            },
    {
        let ghost mut reports: Seq<Progress> = seq![];
        loop
            invariant
                old(self).goes_on(reports, *self),
                forall|i: int|
                    0 <= i < reports.len() ==> #[trigger] reports[i] is Busy || reports[i] is Mark,
                self.outlook() == old(self).outlook(),
                self.engine.last_run == old(self).engine.last_run,
                self.frozen@ == old(self).frozen@,
                self.our_pids@ == old(self).our_pids@,
                gentle(pending(old(self).engine)) ==> gentle(pending(self.engine)),
            decreases
                bulk(self.engine.queue@),
                self.engine.queue@.len(),
                (if self.engine.current is Some {
                    1nat
                } else {
                    0nat
                }),
        {
            let ghost before = *self;
            let progress = self.engine.advance(&self.frozen);
            let ghost marks = marks_in(reports);
            proof {
                lemma_runs_go_on(
                    old(self).engine,
                    old(self).frozen@,
                    reports,
                    before.engine,
                    progress,
                    self.engine,
                );
                reports = reports.push(progress);
                lemma_engine_keeps_markers(before.engine, before.frozen@, self.engine, progress);
                if gentle(pending(before.engine)) {
                    lemma_steps_stay_gentle(before.engine, before.frozen@, self.engine, progress);
                }
            }
            match progress {
                Progress::Call(call) => {
                    proof {
                        assert(old(self).goes_on(reports, *self));
                    }
                    return RecoveryAction::Call(call);
                },
                Progress::Idle => {
                    let saved = match self.engine.last_run {
                        Some(run) => !(run.script == Script::SaveRecovered && run.failed),
                        None => true,
                    };
                    proof {
                        assert(self.engine.queue@ =~= seq![]);
                        assert(old(self).goes_on(reports, *self));
                    }
                    return RecoveryAction::Finished(saved);
                },
                Progress::Mark(marker) => {
                    if let Marker::Recovered = marker {
                        self.state = PersistedState::new();
                        self.state.mark_clean();
                    }
                    proof {
                        let ahead = markers_of(self.engine.queue@);
                        let all = markers_of(before.engine.queue@);
                        assert(all[0] == marker);
                        assert forall|m: Marker| all.contains(m) <==> m == marker || ahead.contains(
                            m,
                        ) by {
                            if ahead.contains(m) {
                                let i = ahead.index_of(m);
                                assert(all[i + 1] == m);
                            }
                        }
                        lemma_push_contains(marks, marker);
                    }
                },
                Progress::Busy => {},
            }
            proof {
                lemma_steps_shrink(before.engine, before.frozen@, self.engine, progress);
            }
        }
    }

    /// Take the reply to the last call.
    pub fn deliver(&mut self, reply: SystemReply)
        ensures
            old(self).engine.delivers(reply, old(self).our_pids@, final(self).engine),
            final(self).frozen@ == match old(self).engine.current {
                Some(task) => frozen_after(task, reply, old(self).frozen@),
                None => old(self).frozen@,
            },
            final(self).our_pids@ == old(self).our_pids@,
            final(self).state@ == old(self).state@,
            final(self).state.timestamp == old(self).state.timestamp,
            final(self).outlook() == old(self).outlook(),
            gentle(pending(old(self).engine)) ==> gentle(pending(final(self).engine)),
    {
        self.engine.deliver(&reply, &mut self.frozen, &self.our_pids);
        proof {
            let ours = old(self).our_pids@;
            lemma_reply_keeps_markers(old(self).engine, reply, ours, self.engine);
            if gentle(pending(old(self).engine)) {
                lemma_replies_stay_gentle(old(self).engine, reply, ours, self.engine);
            }
        }
    }
}

proof fn lemma_push_contains(markers: Seq<Marker>, marker: Marker)
    ensures
        forall|m: Marker| #[trigger]
            markers.push(marker).contains(m) <==> m == marker || markers.contains(m),
{
    assert forall|m: Marker| #[trigger]
        markers.push(marker).contains(m) <==> m == marker || markers.contains(m) by {
        if markers.contains(m) {
            let i = markers.index_of(m);
            assert(markers.push(marker)[i] == m);
        }
        assert(markers.push(marker)[markers.len() as int] == marker);
    }
}

/// The model of the state that was found in the state file, if any was.
pub open spec fn found(state: Option<PersistedState>) -> Option<Saved> {
    match state {
        Some(state) => Some(state@),
        None => None,
    }
}

/// Begin to recover from what the last run left, given what it left in the state file.
///
/// Without a state file, or after a clean end, nothing is done.
pub fn run_recovery(state: Option<PersistedState>) -> (r: Recovery)
    ensures
        !needs_recovery(found(state)) ==> r.engine.is_idle(),
        needs_recovery(found(state)) ==> {
            &&& exists|order: Seq<u32>|
                #[trigger] lists(order, found(state)->Some_0.frozen_pids) && r.engine.queue@
                    == recovery_tasks(found(state)->Some_0, order)
            &&& r.outlook() == pristine()
        },
        state matches Some(s) ==> r.state@ == s@ && r.state.timestamp == s.timestamp,
        r.engine.current is None,
        r.engine.last_run is None,
        r.frozen@ == Set::<u32>::empty(),
        r.our_pids@ == Set::<u32>::empty(),
        gentle(pending(r.engine)),
{
    let mut engine = Engine::new();
    let kept = match state {
        None => PersistedState::new(),
        Some(state) => {
            if state.is_dirty() {
                let order = members(&state.frozen_pids);
                let mut tasks: Vec<Task> = Vec::new();
                tasks.push(Task::Call(SystemCall::AppendLog(LogEntry::RecoveryStarted)));
                if order.len() > 0 {
                    tasks.append(&mut thaw_pid_list(&order));
                    tasks.push(
                        Task::Call(SystemCall::AppendLog(LogEntry::Thawed(order.len() as u64))),
                    );
                }
                if state.workspace_locked {
                    tasks.push(Task::Script(unlock_workspace_keys()));
                    tasks.push(Task::Call(SystemCall::AppendLog(LogEntry::WorkspaceUnlocked)));
                }
                tasks.append(&mut teardown_cgroups());
                tasks.push(Task::Call(SystemCall::AppendLog(LogEntry::CgroupReset)));
                tasks.push(Task::Script(init_cgroups()));
                tasks.push(Task::Mark(Marker::Recovered));
                tasks.push(Task::Script(ScriptRun::start(Script::SaveRecovered)));
                engine.push_all(tasks);
                proof {
                    assert(lists(order@, state@.frozen_pids));
                    assert(engine.queue@ =~= recovery_tasks(state@, order@));
                    lemma_recovery_markers(state@, order@);
                    assert(markers_of(engine.queue@)[0] == Marker::Recovered);
                }
            }
            state
        },
    };
    Recovery { engine, state: kept, frozen: new_frozen_set(), our_pids: HashSet::new() }
}

proof fn lemma_recovery_markers(saved: Saved, order: Seq<u32>)
    ensures
        markers_of(recovery_tasks(saved, order)) == seq![Marker::Recovered],
        gentle(recovery_tasks(saved, order)),
{
    let first = seq![log_task(LogEntry::RecoveryStarted)] + thaw_tasks(order) + unlock_tasks(
        saved.workspace_locked,
    ) + teardown_tasks() + seq![
        log_task(LogEntry::CgroupReset),
        Task::Script(ScriptRun::begin(Script::InitCgroups)),
    ];
    let one = seq![Task::Mark(Marker::Recovered)];
    let last = seq![Task::Script(ScriptRun::begin(Script::SaveRecovered))];
    assert(unmarked(thaw_tasks(order)));
    assert(unmarked(teardown_tasks()));
    assert(unmarked(first));
    assert(unmarked(last));
    assert(recovery_tasks(saved, order) =~= first + one + last);
    lemma_unmarked_has_no_markers(first);
    lemma_unmarked_has_no_markers(last);
    lemma_markers_add(first, one);
    lemma_markers_add(first + one, last);
    reveal_with_fuel(markers_of, 2);
    assert(one.skip(1) =~= seq![]);
    assert(markers_of(one) =~= seq![Marker::Recovered]);
    assert(gentle(thaw_tasks(order)));
    assert(gentle(teardown_tasks()));
}

// ---------------------------------------------------------------------------------------------
//  Laws
// ---------------------------------------------------------------------------------------------

/// Recovery thaws every process that the state file lists as frozen.
pub proof fn law_recovery_thaws_everything(saved: Saved, order: Seq<u32>, pid: u32)
    requires
        lists(order, saved.frozen_pids),
        saved.frozen_pids.contains(pid),
    ensures
        recovery_tasks(saved, order).contains(Task::Thaw(pid)),
{
    assert(order.contains(pid));
    let i = order.index_of(pid);
    assert(thaws(order)[i] == Task::Thaw(pid));
    assert(recovery_tasks(saved, order)[i + 1] == Task::Thaw(pid));
}

/// Should the daemon crash while its state is dirty, and that state be found, recovery thaws every
/// process that the daemon has frozen.
pub proof fn law_stopped_is_thawed_after_a_crash(d: Daemon, order: Seq<u32>, pid: u32)
    requires
        d.listed(),
        needs_recovery(Some(d.state@)),
        lists(order, d.state@.frozen_pids),
        d.frozen@.contains(pid),
    ensures
        recovery_tasks(d.state@, order).contains(Task::Thaw(pid)),
{
    law_recovery_thaws_everything(d.state@, order, pid);
}

/// Should the daemon crash at any point at which the state file is dirty, recovery finds there, and
/// thaws, every process that the daemon has frozen, also one that it has frozen a moment ago, unless
/// the last attempt to save the state failed.
pub proof fn law_crash_is_undone_from_the_file(
    d: Daemon,
    file: Saved,
    order: Seq<u32>,
    pid: u32,
)
    requires
        d.filed(),
        !d.disk@.missed,
        d.disk@.file == Some(file),
        needs_recovery(Some(file)),
        lists(order, file.frozen_pids),
        d.frozen@.contains(pid),
    ensures
        recovery_tasks(file, order).contains(Task::Thaw(pid)),
{
    law_recovery_thaws_everything(file, order, pid);
}

/// The same of a process that the daemon is about to stop: the signal is sent only when the file that
/// a crash would leave has the process thawed, unless the last attempt to save the state failed.
pub proof fn law_stop_is_filed_first(d: Daemon, order: Seq<u32>, pid: u32)
    requires
        d.filed(),
        !d.disk@.missed,
        d.engine.current == Some(Task::Freeze(pid)),
        d.disk@.file is Some ==> lists(order, d.disk@.file->0.frozen_pids),
    ensures
        needs_recovery(d.disk@.file),
        recovery_tasks(d.disk@.file->0, order).contains(Task::Thaw(pid)),
{
    assert(pending(d.engine)[0] == Task::Freeze(pid));
    assert(!saved_before(pending(d.engine), 0));
    assert(safe_on(d.disk@, pid));
    law_recovery_thaws_everything(d.disk@.file->0, order, pid);
}

/// Recovery unlocks what the last run left locked.
pub proof fn law_recovery_unlocks(saved: Saved, order: Seq<u32>)
    requires
        saved.workspace_locked,
    ensures
        recovery_tasks(saved, order).contains(
            Task::Script(ScriptRun::begin(Script::UnlockKeys)),
        ),
{
    assert(recovery_tasks(saved, order)[1 + thaw_tasks(order).len() as int] == Task::Script(
        ScriptRun::begin(Script::UnlockKeys),
    ));
}

/// Recovery takes the directories down, with everything in them, before it sets them up anew, and
/// saves nothing before it has done so.
pub proof fn law_recovery_saves_last(saved: Saved, order: Seq<u32>)
    ensures
        ({
            let tasks = recovery_tasks(saved, order);
            let down = 1 + thaw_tasks(order).len() + unlock_tasks(saved.workspace_locked).len();
            let up = down + teardown_tasks().len();
            &&& tasks.subrange(down as int, up as int) == teardown_tasks()
            &&& tasks[up as int + 1] == Task::Script(ScriptRun::begin(Script::InitCgroups))
            &&& tasks[up as int + 2] == Task::Mark(Marker::Recovered)
            &&& tasks[up as int + 3] == Task::Script(ScriptRun::begin(Script::SaveRecovered))
            &&& tasks.len() == up + 4
            &&& forall|i: int| 0 <= i < up + 3 ==> #[trigger] tasks[i] != save_task()
        }),
{
    let tasks = recovery_tasks(saved, order);
    let down = 1 + thaw_tasks(order).len() + unlock_tasks(saved.workspace_locked).len();
    let up = down + teardown_tasks().len();
    assert(tasks.subrange(down as int, up as int) =~= teardown_tasks());
}

/// After a shutdown or an emergency restoration there is nothing to recover from, whichever
/// processes are still in the state file.  After a recovery there is nothing to recover from either.
pub proof fn law_clean_end_needs_no_recovery(standing: Standing, quit_after: bool)
    ensures
        !needs_recovery(Some(effect(standing, Request::Shutdown).saved)),
        !needs_recovery(Some(effect(standing, Request::EmergencyRestore { quit_after }).saved)),
        !needs_recovery(Some(pristine())),
{
}

/// Recovery thaws what the state file lists, and no other process; it unlocks workspace switching only if
/// that was left locked; it neither freezes nor moves anything but out of the directories.
pub proof fn law_recovery_does_no_more(saved: Saved, order: Seq<u32>, pid: u32)
    requires
        lists(order, saved.frozen_pids),
    ensures
        recovery_tasks(saved, order).contains(Task::Thaw(pid)) <==> saved.frozen_pids.contains(pid),
        recovery_tasks(saved, order).contains(
            Task::Script(ScriptRun::begin(Script::UnlockKeys)),
        ) <==> saved.workspace_locked,
        forall|i: int|
            0 <= i < recovery_tasks(saved, order).len() ==> {
                &&& #[trigger] recovery_tasks(saved, order)[i] !is Freeze
                &&& recovery_tasks(saved, order)[i] !is FreezeBackground
                &&& recovery_tasks(saved, order)[i] !is PopulateBackground
                &&& recovery_tasks(saved, order)[i] !is MoveTree
            },
{
    let tasks = recovery_tasks(saved, order);
    if saved.frozen_pids.contains(pid) {
        law_recovery_thaws_everything(saved, order, pid);
    }
    if saved.workspace_locked {
        law_recovery_unlocks(saved, order);
    }
    if tasks.contains(Task::Thaw(pid)) {
        let i = choose|i: int| 0 <= i < tasks.len() && tasks[i] == Task::Thaw(pid);
        assert(order[i - 1] == pid);
        assert(order.to_set().contains(pid));
    }
}

/// Recovery logs its begin first.  Where something was frozen, the thawing comes next, and the number of
/// processes is logged after it.
pub proof fn law_recovery_thaws_first(saved: Saved, order: Seq<u32>)
    requires
        0 < order.len() <= u64::MAX,
    ensures
        recovery_tasks(saved, order)[0] == Task::Call(
            SystemCall::AppendLog(LogEntry::RecoveryStarted),
        ),
        forall|i: int|
            0 <= i < order.len() ==> recovery_tasks(saved, order)[i + 1] == Task::Thaw(
                #[trigger] order[i],
            ),
        recovery_tasks(saved, order)[order.len() as int + 1] == Task::Call(
            SystemCall::AppendLog(LogEntry::Thawed(order.len() as u64)),
        ),
{
}

/// There is something to recover from exactly if there is a state file, and it is dirty.
pub proof fn law_only_a_dirty_file_is_recovered_from(saved: Saved)
    ensures
        !needs_recovery(None),
        needs_recovery(Some(saved)) <==> !saved.clean_shutdown,
{
}

/// Recovery logs its begin, thaws, unlocks, takes the directories down, sets them up again and saves a
/// clean state, in this order.  What was thawed, unlocked and reset is logged after it was done; what was
/// not needed is left out.
pub proof fn law_recovery_goes_in_order(saved: Saved, order: Seq<u32>)
    requires
        order.len() < u64::MAX,
    ensures
        ({
            let tasks = recovery_tasks(saved, order);
            let thawed = if order.len() == 0 {
                1int
            } else {
                order.len() as int + 2
            };
            let unlocked = if saved.workspace_locked {
                thawed + 2
            } else {
                thawed
            };
            &&& tasks.len() == unlocked + 14
            &&& tasks[0] == Task::Call(SystemCall::AppendLog(LogEntry::RecoveryStarted))
            &&& saved.workspace_locked ==> tasks[thawed] == Task::Script(
                ScriptRun::begin(Script::UnlockKeys),
            )
            &&& saved.workspace_locked ==> tasks[thawed + 1] == Task::Call(
                SystemCall::AppendLog(LogEntry::WorkspaceUnlocked),
            )
            &&& tasks.subrange(unlocked, unlocked + 10) == teardown_tasks()
            &&& tasks[unlocked + 10] == Task::Call(SystemCall::AppendLog(LogEntry::CgroupReset))
            &&& tasks[unlocked + 11] == Task::Script(ScriptRun::begin(Script::InitCgroups))
            &&& tasks[unlocked + 12] == Task::Mark(Marker::Recovered)
            &&& tasks[unlocked + 13] == Task::Script(ScriptRun::begin(Script::SaveRecovered))
        }),
{
    let tasks = recovery_tasks(saved, order);
    let unlocked = (1 + thaw_tasks(order).len() + unlock_tasks(saved.workspace_locked).len())
        as int;
    assert(teardown_tasks().len() == 10);
    assert(tasks.subrange(unlocked, unlocked + 10) =~= teardown_tasks());
}

/// The state becomes clean when recovery has come to its end, and stays as it was found until then.
pub proof fn law_state_settles_at_the_end(state: Saved, before: Seq<Marker>, after: Seq<Marker>)
    requires
        !before.contains(Marker::Recovered),
    ensures
        settled(state, before) == state,
        settled(state, before + seq![Marker::Recovered] + after) == pristine(),
{
    let all = before + seq![Marker::Recovered] + after;
    assert(all[before.len() as int] == Marker::Recovered);
}

/// The state has not been saved exactly if the script that saves it after a recovery came to its end last,
/// and failed.
pub proof fn law_failed_saving_is_told(recovery: Recovery, run: ScriptRun)
    requires
        recovery.engine.last_run == Some(run),
    ensures
        recovery.unsaved() <==> run.script == Script::SaveRecovered && run.failed,
{
}

} // verus!
