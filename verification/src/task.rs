//! Tasks: what the daemon has yet to do, and how the replies of the system turn one task into
//! others.
//!
//! The handlers of the daemon do not act.  They put tasks in the queue of an [`Engine`].  The engine
//! takes one task after the other, says which call it needs, and lets the reply decide what comes
//! of it.
use std::collections::HashSet;
use vstd::prelude::*;

use crate::cgroup::{
    background_pids, drain_cgroup, focus_tree, law_background_takes_user_processes,
    law_installed_memory_is_read_from_its_line, law_tree_is_moved_whole, memory_limit, memory_share,
    move_tree_to_focus, moves, moves_tree, pids_listed, populate_background, release_tree,
    set_bg_memory_high, CgroupDir, Setting,
};
use crate::freezer::{
    freezable_pids, freeze_all_background, freezes, law_every_other_process_is_chosen,
    record_freeze, record_thaw, thaw_all, thaw_pid, thaws, FrozenSet,
};
use crate::hyprland::{unlock_workspace_keys, unlock_workspace_switching};
use crate::modes::Mode;
use crate::pids::{law_lists_hold_the_members, lists};
use crate::script::{binds_after, bound_after, steps_of, unlock_script, Script, ScriptRun};
use crate::system::{Signal, SignalOutcome, SystemCall, SystemReply};
use crate::text::{blank, decimal, is_space, lines_of};
use crate::whitelist::{cgroup_of, pids_of, process_tree, whitelisted, Proc, ProcTable};

verus! {

broadcast use vstd::std_specs::hash::group_hash_axioms;

/// A point in the queue at which the owner of the engine changes its own state.
#[derive(Debug, Clone, Copy)]
pub enum Marker {
    /// The old mode has been left: the new one begins.
    EnterMode(Mode),
    /// The new mode has been applied.
    FinishMode(Mode),
    /// Everything has been restored.
    Restored,
    /// Everything has been restored, and the daemon is about to exit.
    ShutDown,
    /// Everything that a crash left behind has been restored.
    Recovered,
}

/// Something that has yet to be done.
#[derive(Debug, Clone, Copy)]
pub enum Task {
    /// Make a call, whatever comes of it.
    Call(SystemCall),
    /// Make the remaining calls of a script.
    Script(ScriptRun),
    /// Thaw every frozen process.
    ThawAll,
    /// Unlock workspace switching, and take the bindings of workspace keys back if some are bound.
    Unlock,
    /// Thaw one process.
    Thaw(u32),
    /// Freeze one process, unless it is frozen.
    Freeze(u32),
    /// Move a process tree to the focus directory.
    MoveTree(u32),
    /// Move a process tree back to the root of the hierarchy.
    ReleaseTree(u32),
    /// Move everything that belongs there to the background directory, given the focus application.
    PopulateBackground(Option<u32>),
    /// Freeze everything that may be frozen, given the focus application.  The state is saved first,
    /// so that what is to be frozen can be listed in it.
    FreezeBackground(Option<u32>),
    /// List all processes.
    ListProcesses,
    /// Move the processes of a directory back to the root of the hierarchy.
    Drain(CgroupDir),
    /// Limit the memory of the background to a share of what is installed, in percent.
    LimitMemory(u64),
    /// Tell the owner of the engine that this point is reached.
    Mark(Marker),
}

/// The call that a task needs.
pub open spec fn call_of(task: Task) -> Option<SystemCall> {
    match task {
        Task::Call(call) => Some(call),
        Task::Script(run) => if run.done() {
            None
        } else {
            Some(run.next_step().call)
        },
        Task::ThawAll => None,
        Task::Unlock => None,
        Task::Thaw(pid) => Some(SystemCall::Signal(pid, Signal::Continue)),
        Task::Freeze(pid) => Some(SystemCall::Signal(pid, Signal::Stop)),
        Task::MoveTree(_) => Some(SystemCall::ScanProcesses),
        Task::ReleaseTree(_) => Some(SystemCall::ScanProcesses),
        Task::PopulateBackground(_) => Some(SystemCall::ScanProcesses),
        Task::FreezeBackground(_) => Some(SystemCall::ScanProcesses),
        Task::ListProcesses => Some(SystemCall::ScanProcesses),
        Task::Drain(dir) => Some(SystemCall::ReadProcs(dir)),
        Task::LimitMemory(_) => Some(SystemCall::ReadMeminfo),
        Task::Mark(_) => None,
    }
}

/// May `rest` be what is left of `task` after the system's reply to its call?
///
/// The order in which the processes of a tree are moved is not fixed; everything else is.
pub open spec fn leaves(
    task: Task,
    reply: SystemReply,
    our_pids: Set<u32>,
    rest: Seq<Task>,
) -> bool {
    match task {
        Task::Script(run) => if run.fed(reply.succeeded()).done() {
            rest == Seq::<Task>::empty()
        } else {
            rest == seq![Task::Script(run.fed(reply.succeeded()))]
        },
        Task::MoveTree(root) => moves_tree(reply.scan(), root, CgroupDir::Focus, rest),
        Task::ReleaseTree(root) => moves_tree(reply.scan(), root, CgroupDir::Root, rest),
        Task::PopulateBackground(focus) => rest == moves(
            CgroupDir::Background,
            background_pids(reply.scan(), focus, our_pids),
        ),
        Task::FreezeBackground(focus) => rest == seq![
            Task::Script(ScriptRun::begin(Script::SaveState)),
        ] + freezes(freezable_pids(reply.scan(), focus, our_pids)),
        Task::Drain(_) => rest == moves(CgroupDir::Root, pids_listed(reply.text_read())),
        Task::LimitMemory(percent) => rest == seq![
            Task::Call(
                SystemCall::Write(
                    CgroupDir::Background,
                    Setting::MemoryHigh(Some(memory_share(reply.text_read(), percent) as u64)),
                ),
            ),
        ],
        _ => rest == Seq::<Task>::empty(),
    }
}

/// The frozen processes after the system's reply to the call of `task`.
pub open spec fn frozen_after(task: Task, reply: SystemReply, frozen: Set<u32>) -> Set<u32> {
    match task {
        Task::Thaw(pid) => if reply.signalled() == SignalOutcome::Failed {
            frozen
        } else {
            frozen.remove(pid)
        },
        Task::Freeze(pid) => if reply.signalled() == SignalOutcome::Delivered {
            frozen.insert(pid)
        } else {
            frozen
        },
        _ => frozen,
    }
}

/// What the engine has come to.
#[derive(Debug, Clone, Copy)]
pub enum Progress {
    /// This call is to be made, and its reply delivered.
    Call(SystemCall),
    /// This point is reached.
    Mark(Marker),
    /// Something was done that needs no call.
    Busy,
    /// There is nothing left to do.
    Idle,
}

/// Carries out tasks in their order.
#[derive(Debug)]
pub struct Engine {
    /// What has yet to be done.
    pub queue: Vec<Task>,
    /// The task whose call has been asked for and not been answered.
    pub current: Option<Task>,
    /// The last script that came to its end.
    pub last_run: Option<ScriptRun>,
    /// Have workspace keys been bound, and not been asked back?
    pub bound: bool,
}

/// Can the first task of a queue be taken off without a call?
pub open spec fn needs_no_call(task: Task, frozen: Set<u32>) -> bool {
    match task {
        Task::Freeze(pid) => frozen.contains(pid),
        _ => call_of(task) is None,
    }
}

fn call_for(task: &Task) -> (r: Option<SystemCall>)
    ensures
        r == call_of(*task),
{
    match task {
        Task::Call(call) => Some(*call),
        Task::Script(run) => match run.current() {
            Some(step) => Some(step.call),
            None => None,
        },
        Task::ThawAll => None,
        Task::Unlock => None,
        Task::Thaw(pid) => Some(thaw_pid(*pid)),
        Task::Freeze(pid) => Some(SystemCall::Signal(*pid, Signal::Stop)),
        Task::MoveTree(_) => Some(SystemCall::ScanProcesses),
        Task::ReleaseTree(_) => Some(SystemCall::ScanProcesses),
        Task::PopulateBackground(_) => Some(SystemCall::ScanProcesses),
        Task::FreezeBackground(_) => Some(SystemCall::ScanProcesses),
        Task::ListProcesses => Some(SystemCall::ScanProcesses),
        Task::Drain(dir) => Some(SystemCall::ReadProcs(*dir)),
        Task::LimitMemory(_) => Some(SystemCall::ReadMeminfo),
        Task::Mark(_) => None,
    }
}

impl Engine {
    /// An engine with nothing to do.
    pub fn new() -> (r: Self)
        ensures
            r.is_idle(),
            r.last_run is None,
            !r.bound,
    {
        Engine { queue: Vec::new(), current: None, last_run: None, bound: false }
    }

    /// Is there nothing left to do?
    pub open spec fn is_idle(self) -> bool {
        self.queue@ == Seq::<Task>::empty() && self.current is None
    }

    pub fn idle(&self) -> (r: bool)
        ensures
            r == self.is_idle(),
    {
        proof {
            if self.queue@.len() == 0 {
                assert(self.queue@ =~= Seq::<Task>::empty());
            }
        }
        self.queue.len() == 0 && self.current.is_none()
    }

    /// Add tasks at the end of the queue.
    pub fn push_all(&mut self, tasks: Vec<Task>)
        ensures
            final(self).queue@ == old(self).queue@ + tasks@,
            final(self).current == old(self).current,
            final(self).last_run == old(self).last_run,
            final(self).bound == old(self).bound,
    {
        let mut more = tasks;
        self.queue.append(&mut more);
    }

    /// May one step lead from `self` to `next`, with the result `r`?
    ///
    /// A call that is waited for stays; else the first task is taken off the queue.  The order in
    /// which the frozen processes are thawed is not fixed; everything else is.
    pub open spec fn advances(self, frozen: Set<u32>, next: Engine, r: Progress) -> bool {
        &&& next.last_run == self.last_run
        &&& next.bound == self.bound
        &&& match self.current {
            Some(task) => {
                &&& next.queue@ == self.queue@
                &&& match call_of(task) {
                    Some(call) => next.current == self.current && r == Progress::Call(call),
                    None => next.current is None && r == Progress::Busy,
                }
            },
            None => if self.queue@.len() == 0 {
                &&& next.queue@ == self.queue@
                &&& next.current is None
                &&& r == Progress::Idle
            } else {
                let task = self.queue@[0];
                let rest = self.queue@.skip(1);
                if needs_no_call(task, frozen) {
                    &&& next.current is None
                    &&& match task {
                        Task::Mark(marker) => r == Progress::Mark(marker) && next.queue@ == rest,
                        Task::ThawAll => r == Progress::Busy && exists|order: Seq<u32>|
                            #[trigger] lists(order, frozen) && next.queue@ == thaws(order) + rest,
                        Task::Unlock => r == Progress::Busy && next.queue@ == seq![
                            Task::Script(ScriptRun::begin(unlock_script(self.bound))),
                        ] + rest,
                        _ => r == Progress::Busy && next.queue@ == rest,
                    }
                } else {
                    &&& next.current == Some(task)
                    &&& next.queue@ == rest
                    &&& call_of(task) matches Some(call) && r == Progress::Call(call)
                }
            },
        }
    }

    /// May the reply to the call that is waited for lead from `self` to `next`?
    pub open spec fn delivers(self, reply: SystemReply, our_pids: Set<u32>, next: Engine) -> bool {
        &&& next.current is None
        &&& next.bound == match self.current {
            Some(task) => match call_of(task) {
                Some(call) => bound_after(call, self.bound),
                None => self.bound,
            },
            None => self.bound,
        }
        &&& match self.current {
            Some(task) => {
                &&& exists|rest: Seq<Task>|
                    #[trigger] leaves(task, reply, our_pids, rest) && next.queue@ == rest
                        + self.queue@
                &&& next.last_run == match task {
                    Task::Script(run) => if run.fed(reply.succeeded()).done() {
                        Some(run.fed(reply.succeeded()))
                    } else {
                        self.last_run
                    },
                    _ => self.last_run,
                }
            },
            None => next.queue@ == self.queue@ && next.last_run == self.last_run,
        }
    }

    /// Take one step.
    pub fn advance(&mut self, frozen: &FrozenSet) -> (r: Progress)
        ensures
            old(self).advances(frozen@, *final(self), r),
    {
        if let Some(task) = &self.current {
            match call_for(task) {
                Some(call) => {
                    return Progress::Call(call);
                },
                None => {
                    self.current = None;
                    return Progress::Busy;
                },
            }
        }
        if self.queue.len() == 0 {
            return Progress::Idle;
        }
        let task = self.queue.remove(0);
        proof {
            assert(self.queue@ =~= old(self).queue@.skip(1));
        }
        match task {
            Task::Mark(marker) => {
                return Progress::Mark(marker);
            },
            Task::ThawAll => {
                let mut more = thaw_all(frozen);
                let ghost order = choose|order: Seq<u32>|
                    #[trigger] lists(order, frozen@) && more@ == thaws(order);
                more.append(&mut self.queue);
                self.queue = more;
                proof {
                    assert(lists(order, frozen@));
                }
                return Progress::Busy;
            },
            Task::Unlock => {
                let run = if self.bound {
                    unlock_workspace_keys()
                } else {
                    unlock_workspace_switching()
                };
                self.queue.insert(0, Task::Script(run));
                proof {
                    assert(self.queue@ =~= seq![Task::Script(run)] + old(self).queue@.skip(1));
                }
                return Progress::Busy;
            },
            Task::Freeze(pid) => {
                if frozen.contains(&pid) {
                    return Progress::Busy;
                }
            },
            _ => {},
        }
        match call_for(&task) {
            Some(call) => {
                self.current = Some(task);
                Progress::Call(call)
            },
            None => Progress::Busy,
        }
    }

    /// Take the reply to the call that is waited for.
    pub fn deliver(
        &mut self,
        reply: &SystemReply,
        frozen: &mut FrozenSet,
        our_pids: &HashSet<u32>,
    )
        ensures
            old(self).delivers(*reply, our_pids@, *final(self)),
            final(frozen)@ == match old(self).current {
                Some(task) => frozen_after(task, *reply, old(frozen)@),
                None => old(frozen)@,
            },
    {
        let task = match self.current {
            Some(task) => task,
            None => {
                return;
            },
        };
        self.current = None;
        if let Some(call) = call_for(&task) {
            self.bound = binds_after(call, self.bound);
        }
        let empty = ProcTable { records: Vec::new() };
        proof {
            assert(empty@ =~= seq![]);
        }
        let table: &ProcTable = match reply {
            SystemReply::Table(table) => table,
            _ => &empty,
        };
        let mut rest: Vec<Task> = Vec::new();
        match task {
            Task::Script(run) => {
                let next = run.feed(reply.is_success());
                if next.current().is_none() {
                    self.last_run = Some(next);
                } else {
                    rest.push(Task::Script(next));
                }
            },
            Task::Thaw(pid) => {
                let _ = record_thaw(pid, reply.signal_outcome(), frozen);
            },
            Task::Freeze(pid) => {
                let _ = record_freeze(pid, reply.signal_outcome(), frozen);
            },
            Task::MoveTree(root) => {
                rest = move_tree_to_focus(root, table);
            },
            Task::ReleaseTree(root) => {
                rest = release_tree(root, table);
            },
            Task::PopulateBackground(focus) => {
                rest = populate_background(focus, our_pids, table);
            },
            Task::FreezeBackground(focus) => {
                rest.push(Task::Script(ScriptRun::start(Script::SaveState)));
                rest.append(&mut freeze_all_background(focus, our_pids, table));
            },
            Task::Drain(_) => {
                rest = drain_cgroup(reply.text());
            },
            Task::LimitMemory(percent) => {
                let limit = memory_limit(reply.text(), percent);
                rest.push(Task::Call(set_bg_memory_high(Some(limit))));
            },
            _ => {},
        }
        let ghost left = rest@;
        proof {
            assert(leaves(task, *reply, our_pids@, left));
        }
        rest.append(&mut self.queue);
        self.queue = rest;
    }
}

// ---------------------------------------------------------------------------------------------
//  Markers
// ---------------------------------------------------------------------------------------------

/// The markers among some tasks, in their order.
pub open spec fn markers_of(tasks: Seq<Task>) -> Seq<Marker>
    decreases tasks.len(),
{
    if tasks.len() == 0 {
        seq![]
    } else {
        match tasks[0] {
            Task::Mark(marker) => seq![marker] + markers_of(tasks.skip(1)),
            _ => markers_of(tasks.skip(1)),
        }
    }
}

/// Is there no marker among the tasks?
pub open spec fn unmarked(tasks: Seq<Task>) -> bool {
    forall|i: int| 0 <= i < tasks.len() ==> #[trigger] tasks[i] !is Mark
}

pub proof fn lemma_markers_add(a: Seq<Task>, b: Seq<Task>)
    ensures
        markers_of(a + b) == markers_of(a) + markers_of(b),
    decreases a.len(),
{
    if a.len() == 0 {
        assert(a + b =~= b);
        assert(markers_of(a) + markers_of(b) =~= markers_of(b));
    } else {
        assert((a + b).skip(1) =~= a.skip(1) + b);
        lemma_markers_add(a.skip(1), b);
        assert(markers_of(a + b) =~= markers_of(a) + markers_of(b));
    }
}

pub proof fn lemma_unmarked_has_no_markers(tasks: Seq<Task>)
    requires
        unmarked(tasks),
    ensures
        markers_of(tasks) == Seq::<Marker>::empty(),
    decreases tasks.len(),
{
    if tasks.len() > 0 {
        assert forall|i: int| 0 <= i < tasks.skip(1).len() implies #[trigger] tasks.skip(1)[i]
            !is Mark by {
            assert(tasks.skip(1)[i] == tasks[i + 1]);
        }
        lemma_unmarked_has_no_markers(tasks.skip(1));
    }
}

/// What is left of a task never holds a marker.
pub proof fn lemma_leaves_unmarked(
    task: Task,
    reply: SystemReply,
    our_pids: Set<u32>,
    rest: Seq<Task>,
)
    requires
        leaves(task, reply, our_pids, rest),
    ensures
        unmarked(rest),
{
}

/// Neither a step, except past a marker, nor a reply changes which markers lie ahead.
pub proof fn lemma_engine_keeps_markers(
    before: Engine,
    frozen: Set<u32>,
    after: Engine,
    r: Progress,
)
    requires
        before.advances(frozen, after, r),
    ensures
        r matches Progress::Mark(marker) ==> markers_of(before.queue@) == seq![marker]
            + markers_of(after.queue@),
        !(r is Mark) ==> markers_of(after.queue@) == markers_of(before.queue@),
{
    if before.current is None && before.queue@.len() > 0 {
        let task = before.queue@[0];
        let rest = before.queue@.skip(1);
        if task is ThawAll {
            let order = choose|order: Seq<u32>|
                #[trigger] lists(order, frozen) && after.queue@ == thaws(order) + rest;
            assert(unmarked(thaws(order)));
            lemma_unmarked_has_no_markers(thaws(order));
            lemma_markers_add(thaws(order), rest);
            assert(markers_of(after.queue@) =~= markers_of(rest));
        } else if task is Unlock {
            assert(after.queue@.skip(1) =~= rest);
        }
    }
}

pub proof fn lemma_reply_keeps_markers(
    before: Engine,
    reply: SystemReply,
    our_pids: Set<u32>,
    after: Engine,
)
    requires
        before.delivers(reply, our_pids, after),
    ensures
        markers_of(after.queue@) == markers_of(before.queue@),
{
    if let Some(task) = before.current {
        let rest = choose|rest: Seq<Task>|
            #[trigger] leaves(task, reply, our_pids, rest) && after.queue@ == rest + before.queue@;
        lemma_leaves_unmarked(task, reply, our_pids, rest);
        lemma_unmarked_has_no_markers(rest);
        lemma_markers_add(rest, before.queue@);
        assert(markers_of(after.queue@) =~= markers_of(before.queue@));
    }
}

// ---------------------------------------------------------------------------------------------
//  What may be frozen
// ---------------------------------------------------------------------------------------------

/// The scan, and the focus application, from which the processes to freeze were chosen last.
pub ghost struct Vetting {
    pub scan: Seq<Proc>,
    pub focus_pid: Option<u32>,
}

/// Was the process found neither protected nor part of the focus tree?
pub open spec fn vetted(vetting: Vetting, our_pids: Set<u32>, pid: u32) -> bool {
    &&& !whitelisted(vetting.scan, our_pids, pid)
    &&& !focus_tree(vetting.scan, vetting.focus_pid).contains(pid)
}

/// The tasks that an engine has yet to carry out, with the one that waits for a reply.
pub open spec fn pending(engine: Engine) -> Seq<Task> {
    match engine.current {
        Some(task) => seq![task] + engine.queue@,
        None => engine.queue@,
    }
}

/// Is the task a bare call that freezes a process?
pub open spec fn bare_freeze(task: Task) -> bool {
    task matches Task::Call(SystemCall::Signal(_, Signal::Stop))
}

/// Do all tasks that freeze come first, but for scripts, and are all of them vetted?
pub open spec fn well_vetted(tasks: Seq<Task>, vetting: Vetting, our_pids: Set<u32>) -> bool {
    &&& forall|i: int| 0 <= i < tasks.len() ==> !bare_freeze(#[trigger] tasks[i])
    &&& forall|i: int, j: int|
        0 <= i < j < tasks.len() && #[trigger] tasks[j] is Freeze ==> #[trigger] tasks[i] is Freeze
            || tasks[i] is Script
    &&& forall|i: int|
        0 <= i < tasks.len() ==> (#[trigger] tasks[i] matches Task::Freeze(pid) ==> vetted(
            vetting,
            our_pids,
            pid,
        ))
}

/// The vetting after a reply: a scan for what to freeze replaces it.
pub open spec fn vetting_after(
    engine: Engine,
    reply: SystemReply,
    vetting: Vetting,
) -> Vetting {
    match engine.current {
        Some(Task::FreezeBackground(focus_pid)) => Vetting { scan: reply.scan(), focus_pid },
        _ => vetting,
    }
}

/// No script sends a signal.
proof fn lemma_scripts_send_no_signal()
    ensures
        forall|run: ScriptRun| !run.done() ==> #[trigger] run.next_step().call !is Signal,
{
    assert forall|run: ScriptRun| !run.done() implies #[trigger] run.next_step().call
        !is Signal by {
        let steps = steps_of(run.script);
        assert(run.next_step() == steps[run.at as int]);
    }
}

/// Steps keep the queue well vetted.
pub proof fn lemma_steps_stay_vetted(
    before: Engine,
    frozen: Set<u32>,
    after: Engine,
    r: Progress,
    vetting: Vetting,
    our_pids: Set<u32>,
)
    requires
        before.advances(frozen, after, r),
        well_vetted(pending(before), vetting, our_pids),
    ensures
        well_vetted(pending(after), vetting, our_pids),
        r matches Progress::Call(SystemCall::Signal(pid, Signal::Stop)) ==> after.current == Some(
            Task::Freeze(pid),
        ) && vetted(vetting, our_pids, pid),
{
    lemma_scripts_send_no_signal();
    let old_tasks = pending(before);
    let new_tasks = pending(after);
    match before.current {
        Some(task) => {
            match call_of(task) {
                Some(_) => {
                    assert(new_tasks =~= old_tasks);
                    assert(old_tasks[0] == task);
                },
                None => {
                    assert(forall|i: int|
                        0 <= i < new_tasks.len() ==> #[trigger] new_tasks[i] == old_tasks[i + 1]);
                },
            }
        },
        None => {
            if before.queue@.len() > 0 {
                let task = before.queue@[0];
                let rest = before.queue@.skip(1);
                assert(forall|i: int| 0 <= i < rest.len() ==> #[trigger] rest[i] == old_tasks[i + 1]);
                if needs_no_call(task, frozen) {
                    if task is ThawAll {
                        let order = choose|order: Seq<u32>|
                            #[trigger] lists(order, frozen) && after.queue@ == thaws(order) + rest;
                        assert forall|i: int| 0 <= i < new_tasks.len() implies #[trigger] new_tasks[i]
                            !is Freeze by {
                            if i >= order.len() {
                                assert(new_tasks[i] == rest[i - order.len()]);
                                assert(old_tasks[i - order.len() + 1] !is Freeze);
                            }
                        }
                    }
                } else {
                    assert(new_tasks =~= old_tasks);
                    assert(new_tasks[0] == task);
                }
            }
        },
    }
}

/// Replies keep the queue well vetted.
pub proof fn lemma_replies_stay_vetted(
    before: Engine,
    reply: SystemReply,
    after: Engine,
    vetting: Vetting,
    our_pids: Set<u32>,
)
    requires
        before.delivers(reply, our_pids, after),
        well_vetted(pending(before), vetting, our_pids),
    ensures
        well_vetted(pending(after), vetting_after(before, reply, vetting), our_pids),
{
    if let Some(task) = before.current {
        let old_tasks = pending(before);
        assert(old_tasks[0] == task);
        assert(forall|i: int|
            0 <= i < before.queue@.len() ==> #[trigger] before.queue@[i] == old_tasks[i + 1]);
        let rest = choose|rest: Seq<Task>|
            #[trigger] leaves(task, reply, our_pids, rest) && after.queue@ == rest + before.queue@;
        let new_tasks = pending(after);
        if let Task::FreezeBackground(focus_pid) = task {
            let scan = reply.scan();
            let pids = freezable_pids(scan, focus_pid, our_pids);
            let n = 1 + pids.len() as int;
            lemma_freezable_are_vetted(scan, focus_pid, our_pids);
            assert forall|i: int| n <= i < new_tasks.len() implies #[trigger] new_tasks[i]
                !is Freeze by {
                assert(new_tasks[i] == before.queue@[i - n]);
                assert(old_tasks[i - n + 1] !is Freeze);
            }
            assert forall|i: int| 0 <= i < new_tasks.len() implies (#[trigger] new_tasks[i]
                matches Task::Freeze(pid) ==> vetted(
                Vetting { scan, focus_pid },
                our_pids,
                pid,
            )) by {
                if 1 <= i < n {
                    assert(new_tasks[i] == Task::Freeze(pids[i - 1]));
                }
            }
        } else if task is Freeze {
            assert(rest =~= seq![]);
            assert(new_tasks =~= before.queue@);
        } else if task is Script {
            if rest.len() == 0 {
                assert(new_tasks =~= before.queue@);
            } else {
                assert(new_tasks =~= old_tasks.update(0, rest[0]));
            }
        } else {
            assert forall|i: int| 0 <= i < new_tasks.len() implies #[trigger] new_tasks[i]
                !is Freeze by {
                if i >= rest.len() {
                    assert(new_tasks[i] == before.queue@[i - rest.len()]);
                    assert(old_tasks[i - rest.len() + 1] !is Freeze);
                }
            }
        }
    }
}

/// What is chosen from a scan to be frozen is neither protected nor in the focus tree.
pub proof fn lemma_freezable_are_vetted(
    scan: Seq<Proc>,
    focus_pid: Option<u32>,
    our_pids: Set<u32>,
)
    ensures
        forall|i: int|
            0 <= i < freezable_pids(scan, focus_pid, our_pids).len() ==> vetted(
                Vetting { scan, focus_pid },
                our_pids,
                #[trigger] freezable_pids(scan, focus_pid, our_pids)[i],
            ),
{
    let keep = |pid: u32|
        !focus_tree(scan, focus_pid).contains(pid) && !whitelisted(scan, our_pids, pid);
    assert forall|i: int|
        0 <= i < freezable_pids(scan, focus_pid, our_pids).len() implies vetted(
        Vetting { scan, focus_pid },
        our_pids,
        #[trigger] freezable_pids(scan, focus_pid, our_pids)[i],
    ) by {
        pids_of(scan).lemma_filter_pred(keep, i);
    }
}

/// What a step does to the pending tasks: nothing, or the first is replaced by others.
pub proof fn lemma_step_shape(before: Engine, frozen: Set<u32>, after: Engine, r: Progress) -> (more:
    Option<Seq<Task>>)
    requires
        before.advances(frozen, after, r),
    ensures
        more is None ==> pending(after) == pending(before) && !(r is Mark),
        more matches Some(tasks) ==> {
            &&& pending(before).len() > 0
            &&& if before.current is None && pending(before)[0] is Unlock {
                tasks == seq![Task::Script(ScriptRun::begin(unlock_script(before.bound)))]
            } else {
                forall|i: int| 0 <= i < tasks.len() ==> #[trigger] tasks[i] is Thaw
            }
            &&& pending(after) == tasks + pending(before).skip(1)
            &&& call_of(pending(before)[0]) is None || pending(before)[0] is Freeze
            &&& r matches Progress::Mark(marker) ==> pending(before)[0] == Task::Mark(marker)
        },
{
    let old_tasks = pending(before);
    match before.current {
        Some(task) => {
            if call_of(task) is Some {
                assert(pending(after) =~= old_tasks);
                None
            } else {
                assert(pending(after) =~= Seq::<Task>::empty() + old_tasks.skip(1));
                Some(seq![])
            }
        },
        None => {
            if old_tasks.len() == 0 {
                assert(pending(after) =~= old_tasks);
                None
            } else {
                let task = old_tasks[0];
                let rest = old_tasks.skip(1);
                if !needs_no_call(task, frozen) {
                    assert(pending(after) =~= old_tasks);
                    None
                } else if task is ThawAll {
                    let order = choose|order: Seq<u32>|
                        #[trigger] lists(order, frozen) && after.queue@
                            == thaws(order) + rest;
                    Some(thaws(order))
                } else if task is Unlock {
                    Some(seq![Task::Script(ScriptRun::begin(unlock_script(before.bound)))])
                } else {
                    assert(pending(after) =~= Seq::<Task>::empty() + rest);
                    Some(seq![])
                }
            }
        },
    }
}

// ---------------------------------------------------------------------------------------------
//  What freezes nothing
// ---------------------------------------------------------------------------------------------

/// Can no task of the list lead to a process being frozen?
pub open spec fn gentle(tasks: Seq<Task>) -> bool {
    forall|i: int|
        0 <= i < tasks.len() ==> !(#[trigger] tasks[i] is Freeze) && !(
        tasks[i] is FreezeBackground) && !bare_freeze(tasks[i])
}

/// A step of an engine that can freeze nothing freezes nothing and keeps it so.
pub proof fn lemma_steps_stay_gentle(before: Engine, frozen: Set<u32>, after: Engine, r: Progress)
    requires
        before.advances(frozen, after, r),
        gentle(pending(before)),
    ensures
        gentle(pending(after)),
        !(r matches Progress::Call(SystemCall::Signal(_, Signal::Stop))),
{
    lemma_scripts_send_no_signal();
    let old_tasks = pending(before);
    let new_tasks = pending(after);
    match before.current {
        Some(task) => {
            assert(old_tasks[0] == task);
            match call_of(task) {
                Some(_) => {
                    assert(new_tasks =~= old_tasks);
                },
                None => {
                    assert(forall|i: int|
                        0 <= i < new_tasks.len() ==> #[trigger] new_tasks[i] == old_tasks[i + 1]);
                },
            }
        },
        None => {
            if before.queue@.len() > 0 {
                let task = before.queue@[0];
                let rest = before.queue@.skip(1);
                assert(old_tasks[0] == task);
                assert(forall|i: int| 0 <= i < rest.len() ==> #[trigger] rest[i] == old_tasks[i + 1]);
                if needs_no_call(task, frozen) {
                    if task is ThawAll {
                        let order = choose|order: Seq<u32>|
                            #[trigger] lists(order, frozen) && after.queue@ == thaws(order) + rest;
                        assert(new_tasks =~= thaws(order) + rest);
                    }
                } else {
                    assert(new_tasks =~= old_tasks);
                }
            }
        },
    }
}

/// A reply to an engine that can freeze nothing keeps it so.
pub proof fn lemma_replies_stay_gentle(
    before: Engine,
    reply: SystemReply,
    our_pids: Set<u32>,
    after: Engine,
)
    requires
        before.delivers(reply, our_pids, after),
        gentle(pending(before)),
    ensures
        gentle(pending(after)),
{
    if let Some(task) = before.current {
        let old_tasks = pending(before);
        assert(old_tasks[0] == task);
        assert(forall|i: int|
            0 <= i < before.queue@.len() ==> #[trigger] before.queue@[i] == old_tasks[i + 1]);
        let rest = choose|rest: Seq<Task>|
            #[trigger] leaves(task, reply, our_pids, rest) && after.queue@ == rest + before.queue@;
        assert(gentle(rest));
        assert(pending(after) =~= rest + before.queue@);
    }
}

// ---------------------------------------------------------------------------------------------
//  Runs of steps
// ---------------------------------------------------------------------------------------------

/// May steps with these reports, one after the other, lead from `before` to `after`?
pub open spec fn runs(
    before: Engine,
    frozen: Set<u32>,
    reports: Seq<Progress>,
    after: Engine,
) -> bool
    decreases reports.len(),
{
    if reports.len() == 0 {
        after == before
    } else {
        exists|middle: Engine|
            runs(before, frozen, reports.drop_last(), middle) && #[trigger] middle.advances(
                frozen,
                after,
                reports.last(),
            )
    }
}

/// Is the last report the first one that hands out a call or finds nothing left to do?
pub open spec fn pauses(reports: Seq<Progress>) -> bool {
    &&& reports.len() > 0
    &&& reports.last() is Call || reports.last() is Idle
    &&& forall|i: int|
        0 <= i < reports.len() - 1 ==> #[trigger] reports[i] is Busy || reports[i] is Mark
}

/// The markers among some reports.
pub open spec fn marks_in(reports: Seq<Progress>) -> Seq<Marker>
    decreases reports.len(),
{
    if reports.len() == 0 {
        seq![]
    } else {
        match reports.last() {
            Progress::Mark(marker) => marks_in(reports.drop_last()).push(marker),
            _ => marks_in(reports.drop_last()),
        }
    }
}

/// One more step makes a run longer.
pub proof fn lemma_runs_go_on(
    before: Engine,
    frozen: Set<u32>,
    reports: Seq<Progress>,
    middle: Engine,
    r: Progress,
    after: Engine,
)
    requires
        runs(before, frozen, reports, middle),
        middle.advances(frozen, after, r),
    ensures
        runs(before, frozen, reports.push(r), after),
        marks_in(reports.push(r)) == match r {
            Progress::Mark(marker) => marks_in(reports).push(marker),
            _ => marks_in(reports),
        },
{
    let longer = reports.push(r);
    assert(longer.drop_last() =~= reports);
    assert(runs(before, frozen, longer.drop_last(), middle) && middle.advances(
        frozen,
        after,
        longer.last(),
    ));
}

// ---------------------------------------------------------------------------------------------
//  Every run ends
// ---------------------------------------------------------------------------------------------

/// How many tasks of a queue turn into others without a call.
pub closed spec fn bulk(tasks: Seq<Task>) -> nat
    decreases tasks.len(),
{
    if tasks.len() == 0 {
        0
    } else {
        bulk(tasks.skip(1)) + if tasks[0] is ThawAll || tasks[0] is Unlock {
            1nat
        } else {
            0nat
        }
    }
}

proof fn lemma_bulk_adds(a: Seq<Task>, b: Seq<Task>)
    ensures
        bulk(a + b) == bulk(a) + bulk(b),
    decreases a.len(),
{
    if a.len() == 0 {
        assert(a + b =~= b);
    } else {
        assert((a + b).skip(1) =~= a.skip(1) + b);
        lemma_bulk_adds(a.skip(1), b);
    }
}

proof fn lemma_thaws_have_no_bulk(pids: Seq<u32>)
    ensures
        bulk(thaws(pids)) == 0,
    decreases pids.len(),
{
    if pids.len() > 0 {
        assert(thaws(pids).skip(1) =~= thaws(pids.skip(1)));
        lemma_thaws_have_no_bulk(pids.skip(1));
    }
}

/// A step that hands out no call brings the engine nearer to the end of its queue.
pub proof fn lemma_steps_shrink(before: Engine, frozen: Set<u32>, after: Engine, r: Progress)
    requires
        before.advances(frozen, after, r),
        r is Mark || r is Busy,
    ensures
        bulk(after.queue@) < bulk(before.queue@) || (bulk(after.queue@) == bulk(before.queue@) && (
        after.queue@.len() < before.queue@.len() || (after.queue@.len() == before.queue@.len()
            && before.current is Some && after.current is None))),
{
    if before.current is None {
        let task = before.queue@[0];
        let rest = before.queue@.skip(1);
        if task is ThawAll {
            let order = choose|order: Seq<u32>|
                #[trigger] lists(order, frozen) && after.queue@ == thaws(order) + rest;
            lemma_bulk_adds(thaws(order), rest);
            lemma_thaws_have_no_bulk(order);
        } else if task is Unlock {
            assert(after.queue@.skip(1) =~= rest);
        }
    }
}

// ---------------------------------------------------------------------------------------------
//  What is frozen is remembered
// ---------------------------------------------------------------------------------------------

/// The processes that the daemon has stopped, after a call of its and the reply to it.
pub open spec fn stopped_after(stopped: Set<u32>, call: SystemCall, reply: SystemReply) -> Set<u32> {
    match call {
        SystemCall::Signal(pid, Signal::Stop) => if reply.signalled() == SignalOutcome::Delivered {
            stopped.insert(pid)
        } else {
            stopped
        },
        SystemCall::Signal(pid, Signal::Continue) => if reply.signalled()
            == SignalOutcome::Failed {
            stopped
        } else {
            stopped.remove(pid)
        },
        _ => stopped,
    }
}

/// Every process that was stopped is remembered as frozen, until it runs again or is gone, whatever
/// the system replies.
pub proof fn law_stopped_is_remembered(
    task: Task,
    reply: SystemReply,
    stopped: Set<u32>,
    frozen: Set<u32>,
)
    requires
        call_of(task) is Some,
        !bare_freeze(task),
        stopped.subset_of(frozen),
    ensures
        stopped_after(stopped, call_of(task)->0, reply).subset_of(
            frozen_after(task, reply, frozen),
        ),
{
    lemma_scripts_send_no_signal();
}

/// The frozen processes after each of `pids` that was not frozen yet was sent the signal that freezes,
/// with these replies.
pub open spec fn froze(frozen: Set<u32>, pids: Seq<u32>, replies: Seq<SystemReply>) -> Set<u32>
    decreases pids.len(),
{
    if pids.len() == 0 {
        frozen
    } else {
        let earlier = froze(frozen, pids.drop_last(), replies);
        if needs_no_call(Task::Freeze(pids.last()), earlier) {
            earlier
        } else {
            frozen_after(Task::Freeze(pids.last()), replies[pids.len() - 1], earlier)
        }
    }
}

/// When the background is frozen, a process is newly frozen exactly if it is one of those chosen, was
/// not frozen before, and its signal was delivered.
pub proof fn law_newly_frozen_were_delivered(
    frozen: Set<u32>,
    pids: Seq<u32>,
    replies: Seq<SystemReply>,
    pid: u32,
)
    requires
        pids.len() <= replies.len(),
    ensures
        frozen.subset_of(froze(frozen, pids, replies)),
        froze(frozen, pids, replies).difference(frozen).contains(pid) <==> !frozen.contains(pid)
            && exists|i: int|
            0 <= i < pids.len() && #[trigger] pids[i] == pid && replies[i].signalled()
                == SignalOutcome::Delivered,
    decreases pids.len(),
{
    if pids.len() > 0 {
        let earlier = pids.drop_last();
        let n = pids.len() - 1;
        law_newly_frozen_were_delivered(frozen, earlier, replies, pid);
        if exists|i: int|
            0 <= i < earlier.len() && #[trigger] earlier[i] == pid && replies[i].signalled()
                == SignalOutcome::Delivered {
            let i = choose|i: int|
                0 <= i < earlier.len() && #[trigger] earlier[i] == pid && replies[i].signalled()
                    == SignalOutcome::Delivered;
            assert(pids[i] == pid);
        }
        if exists|i: int|
            0 <= i < pids.len() && #[trigger] pids[i] == pid && replies[i].signalled()
                == SignalOutcome::Delivered {
            let i = choose|i: int|
                0 <= i < pids.len() && #[trigger] pids[i] == pid && replies[i].signalled()
                    == SignalOutcome::Delivered;
            if i < n {
                assert(earlier[i] == pid);
            }
        }
        assert(pids[n] == pids.last());
    }
}

/// The frozen processes after each of `pids` was sent the signal that thaws, with these replies.
pub open spec fn thawed(frozen: Set<u32>, pids: Seq<u32>, replies: Seq<SystemReply>) -> Set<u32>
    decreases pids.len(),
{
    if pids.len() == 0 {
        frozen
    } else {
        frozen_after(
            Task::Thaw(pids.last()),
            replies[pids.len() - 1],
            thawed(frozen, pids.drop_last(), replies),
        )
    }
}

proof fn lemma_thawed(frozen: Set<u32>, pids: Seq<u32>, replies: Seq<SystemReply>, pid: u32)
    requires
        pids.no_duplicates(),
        pids.len() <= replies.len(),
    ensures
        thawed(frozen, pids, replies).contains(pid) <==> frozen.contains(pid) && forall|i: int|
            0 <= i < pids.len() && #[trigger] pids[i] == pid ==> replies[i].signalled()
                == SignalOutcome::Failed,
    decreases pids.len(),
{
    if pids.len() > 0 {
        let earlier = pids.drop_last();
        lemma_thawed(frozen, earlier, replies, pid);
        let n = pids.len() - 1;
        assert forall|i: int| 0 <= i < n implies #[trigger] pids[i] == earlier[i] by {}
        if pids[n] == pid {
            assert forall|i: int| 0 <= i < n implies #[trigger] pids[i] != pid by {}
        }
    }
}

/// When everything is thawed, a process stays in the set exactly if its signal failed: nothing does
/// if no signal failed.
pub proof fn law_only_failures_stay_frozen(
    frozen: Set<u32>,
    order: Seq<u32>,
    replies: Seq<SystemReply>,
    pid: u32,
)
    requires
        lists(order, frozen),
        replies.len() == order.len(),
    ensures
        thawed(frozen, order, replies).contains(pid) <==> exists|i: int|
            0 <= i < order.len() && #[trigger] order[i] == pid && replies[i].signalled()
                == SignalOutcome::Failed,
{
    lemma_thawed(frozen, order, replies, pid);
    if frozen.contains(pid) {
        assert(order.to_set().contains(pid));
        let k = choose|k: int| 0 <= k < order.len() && order[k] == pid;
        assert(order[k] == pid);
    }
    if exists|i: int|
        0 <= i < order.len() && #[trigger] order[i] == pid && replies[i].signalled()
            == SignalOutcome::Failed {
        let k = choose|i: int|
            0 <= i < order.len() && #[trigger] order[i] == pid && replies[i].signalled()
                == SignalOutcome::Failed;
        assert(order.to_set().contains(order[k]));
        assert forall|i: int| 0 <= i < order.len() && #[trigger] order[i] == pid implies
            replies[i].signalled() == SignalOutcome::Failed by {
            assert(i == k);
        }
    }
}

// ---------------------------------------------------------------------------------------------
//  Whole runs that thaw
// ---------------------------------------------------------------------------------------------

/// The processes whose thawing has failed, after the reply to the call of `task`.
pub open spec fn failed_after(task: Task, reply: SystemReply, failed: Set<u32>) -> Set<u32> {
    match task {
        Task::Thaw(pid) => if reply.signalled() == SignalOutcome::Failed {
            failed.insert(pid)
        } else {
            failed
        },
        _ => failed,
    }
}

/// May an engine go on from `before`, ask for a call as `asked`, and come to `after` by the reply?
pub open spec fn round(
    before: Engine,
    frozen: Set<u32>,
    our_pids: Set<u32>,
    reply: SystemReply,
    asked: Engine,
    after: Engine,
) -> bool {
    &&& asked.current is Some
    &&& asked.delivers(reply, our_pids, after)
    &&& exists|reports: Seq<Progress>| #[trigger]
        runs(before, frozen, reports, asked) && pauses(reports) && reports.last() is Call
}

/// May these calls with these replies, one after the other, lead from `before` to `after`, with the
/// processes in `left` frozen and the thawing of those in `failures` failed?
pub open spec fn rounds(
    before: Engine,
    frozen: Set<u32>,
    failed: Set<u32>,
    our_pids: Set<u32>,
    calls: Seq<SystemCall>,
    replies: Seq<SystemReply>,
    after: Engine,
    left: Set<u32>,
    failures: Set<u32>,
) -> bool
    decreases replies.len(),
{
    if replies.len() == 0 {
        after == before && left == frozen && failures == failed && calls.len() == 0
    } else {
        &&& calls.len() > 0
        &&& exists|asked: Engine, middle: Engine| #[trigger]
            round(before, frozen, our_pids, replies[0], asked, middle) && call_of(
                asked.current->0,
            ) == Some(calls[0]) && rounds(
                middle,
                frozen_after(asked.current->0, replies[0], frozen),
                failed_after(asked.current->0, replies[0], failed),
                our_pids,
                calls.skip(1),
                replies.skip(1),
                after,
                left,
                failures,
            )
    }
}

/// Will every frozen process be thawed yet, but for those whose thawing has failed?
pub open spec fn thaws_all(engine: Engine, frozen: Set<u32>, failed: Set<u32>) -> bool {
    &&& engine.current matches Some(task) ==> call_of(task) is Some
    &&& forall|pid: u32| #[trigger]
        frozen.contains(pid) ==> failed.contains(pid) || pending(engine).contains(Task::Thaw(pid))
            || pending(engine).contains(Task::ThawAll)
}

proof fn lemma_all_but_first(tasks: Seq<Task>, more: Seq<Task>, task: Task)
    requires
        tasks.len() > 0,
        tasks.contains(task),
        task != tasks[0],
    ensures
        (more + tasks.skip(1)).contains(task),
{
    let i = tasks.index_of(task);
    assert((more + tasks.skip(1))[more.len() + i - 1] == task);
}

/// Steps keep it so that every frozen process will be thawed yet.
proof fn lemma_steps_keep_thawing(
    before: Engine,
    frozen: Set<u32>,
    failed: Set<u32>,
    after: Engine,
    r: Progress,
)
    requires
        before.advances(frozen, after, r),
        thaws_all(before, frozen, failed),
    ensures
        thaws_all(after, frozen, failed),
{
    let old_tasks = pending(before);
    let new_tasks = pending(after);
    if before.current is Some || old_tasks.len() == 0 {
        assert(new_tasks =~= old_tasks);
    } else {
        let task = old_tasks[0];
        let rest = old_tasks.skip(1);
        if !needs_no_call(task, frozen) {
            assert(new_tasks =~= old_tasks);
        } else if task is ThawAll {
            let order = choose|order: Seq<u32>|
                #[trigger] lists(order, frozen) && after.queue@ == thaws(order) + rest;
            assert forall|pid: u32| #[trigger] frozen.contains(pid) implies new_tasks.contains(
                Task::Thaw(pid),
            ) by {
                assert(order.contains(pid));
                let i = order.index_of(pid);
                assert(new_tasks[i] == Task::Thaw(pid));
            }
        } else {
            let more = if task is Unlock {
                seq![Task::Script(ScriptRun::begin(unlock_script(before.bound)))]
            } else {
                seq![]
            };
            assert(new_tasks =~= more + rest);
            assert forall|pid: u32| #[trigger] frozen.contains(pid) implies failed.contains(pid)
                || new_tasks.contains(Task::Thaw(pid)) || new_tasks.contains(Task::ThawAll) by {
                if old_tasks.contains(Task::Thaw(pid)) {
                    lemma_all_but_first(old_tasks, more, Task::Thaw(pid));
                }
                if old_tasks.contains(Task::ThawAll) {
                    lemma_all_but_first(old_tasks, more, Task::ThawAll);
                }
            }
        }
    }
}

/// Runs keep it so that every frozen process will be thawed yet, and that nothing is frozen.
proof fn lemma_runs_keep_thawing(
    before: Engine,
    frozen: Set<u32>,
    failed: Set<u32>,
    reports: Seq<Progress>,
    after: Engine,
)
    requires
        runs(before, frozen, reports, after),
        thaws_all(before, frozen, failed),
        gentle(pending(before)),
    ensures
        thaws_all(after, frozen, failed),
        gentle(pending(after)),
    decreases reports.len(),
{
    if reports.len() > 0 {
        let earlier = reports.drop_last();
        let middle = choose|middle: Engine|
            runs(before, frozen, earlier, middle) && #[trigger] middle.advances(
                frozen,
                after,
                reports.last(),
            );
        lemma_runs_keep_thawing(before, frozen, failed, earlier, middle);
        lemma_steps_keep_thawing(middle, frozen, failed, after, reports.last());
        lemma_steps_stay_gentle(middle, frozen, after, reports.last());
    }
}

/// Replies keep it so that every frozen process will be thawed yet.
proof fn lemma_replies_keep_thawing(
    before: Engine,
    frozen: Set<u32>,
    failed: Set<u32>,
    our_pids: Set<u32>,
    reply: SystemReply,
    after: Engine,
)
    requires
        before.current is Some,
        before.delivers(reply, our_pids, after),
        thaws_all(before, frozen, failed),
        gentle(pending(before)),
    ensures
        thaws_all(
            after,
            frozen_after(before.current->0, reply, frozen),
            failed_after(before.current->0, reply, failed),
        ),
{
    let task = before.current->0;
    let old_tasks = pending(before);
    assert(old_tasks[0] == task);
    assert(old_tasks.skip(1) =~= before.queue@);
    let rest = choose|rest: Seq<Task>|
        #[trigger] leaves(task, reply, our_pids, rest) && after.queue@ == rest + before.queue@;
    let new_tasks = pending(after);
    let left = frozen_after(task, reply, frozen);
    let failures = failed_after(task, reply, failed);
    assert forall|pid: u32| #[trigger] left.contains(pid) implies failures.contains(pid)
        || new_tasks.contains(Task::Thaw(pid)) || new_tasks.contains(Task::ThawAll) by {
        assert(frozen.contains(pid));
        if old_tasks.contains(Task::Thaw(pid)) && task != Task::Thaw(pid) {
            lemma_all_but_first(old_tasks, rest, Task::Thaw(pid));
        }
        if old_tasks.contains(Task::ThawAll) {
            lemma_all_but_first(old_tasks, rest, Task::ThawAll);
        }
    }
}

proof fn lemma_rounds_keep_thawing(
    before: Engine,
    frozen: Set<u32>,
    failed: Set<u32>,
    our_pids: Set<u32>,
    calls: Seq<SystemCall>,
    replies: Seq<SystemReply>,
    after: Engine,
    left: Set<u32>,
    failures: Set<u32>,
)
    requires
        rounds(before, frozen, failed, our_pids, calls, replies, after, left, failures),
        thaws_all(before, frozen, failed),
        gentle(pending(before)),
    ensures
        thaws_all(after, left, failures),
        gentle(pending(after)),
    decreases replies.len(),
{
    if replies.len() > 0 {
        let (asked, middle) = choose|asked: Engine, middle: Engine| #[trigger]
            round(before, frozen, our_pids, replies[0], asked, middle) && call_of(
                asked.current->0,
            ) == Some(calls[0]) && rounds(
                middle,
                frozen_after(asked.current->0, replies[0], frozen),
                failed_after(asked.current->0, replies[0], failed),
                our_pids,
                calls.skip(1),
                replies.skip(1),
                after,
                left,
                failures,
            );
        let reports = choose|reports: Seq<Progress>| #[trigger]
            runs(before, frozen, reports, asked) && pauses(reports) && reports.last() is Call;
        lemma_runs_keep_thawing(before, frozen, failed, reports, asked);
        lemma_replies_keep_thawing(asked, frozen, failed, our_pids, replies[0], middle);
        lemma_replies_stay_gentle(asked, replies[0], our_pids, middle);
        lemma_rounds_keep_thawing(
            middle,
            frozen_after(asked.current->0, replies[0], frozen),
            failed_after(asked.current->0, replies[0], failed),
            our_pids,
            calls.skip(1),
            replies.skip(1),
            after,
            left,
            failures,
        );
    }
}

/// When a run that thaws everything and freezes nothing has come to its end, whatever the system
/// replied, only processes whose thawing failed are still frozen.
pub proof fn law_finished_run_leaves_failures_only(
    before: Engine,
    frozen: Set<u32>,
    our_pids: Set<u32>,
    calls: Seq<SystemCall>,
    replies: Seq<SystemReply>,
    after: Engine,
    left: Set<u32>,
    failures: Set<u32>,
    reports: Seq<Progress>,
    done: Engine,
)
    requires
        before.current is None,
        before.queue@.contains(Task::ThawAll),
        gentle(before.queue@),
        rounds(before, frozen, Set::empty(), our_pids, calls, replies, after, left, failures),
        runs(after, left, reports, done),
        pauses(reports),
        reports.last() is Idle,
    ensures
        left.subset_of(failures),
        done.is_idle(),
{
    assert(thaws_all(before, frozen, Set::empty()));
    lemma_rounds_keep_thawing(
        before,
        frozen,
        Set::empty(),
        our_pids,
        calls,
        replies,
        after,
        left,
        failures,
    );
    lemma_runs_keep_thawing(after, left, failures, reports, done);
    assert(reports.len() > 0);
    let middle = choose|middle: Engine|
        runs(after, left, reports.drop_last(), middle) && #[trigger] middle.advances(
            left,
            done,
            reports.last(),
        );
    assert(middle.advances(left, done, Progress::Idle));
    assert(done.queue@ =~= Seq::<Task>::empty());
    assert(pending(done) =~= Seq::<Task>::empty());
}

// ---------------------------------------------------------------------------------------------
//  Laws of single tasks
// ---------------------------------------------------------------------------------------------

/// Filling the background, after a scan, moves every scanned process that is outside the focus tree, not
/// protected and in the user's part of the hierarchy, and does nothing else.
pub proof fn law_background_is_filled(
    table: ProcTable,
    focus_pid: Option<u32>,
    our_pids: Set<u32>,
    rest: Seq<Task>,
    pid: u32,
)
    requires
        leaves(Task::PopulateBackground(focus_pid), SystemReply::Table(table), our_pids, rest),
    ensures
        call_of(Task::PopulateBackground(focus_pid)) == Some(SystemCall::ScanProcesses),
        rest.contains(
            Task::Call(SystemCall::Write(CgroupDir::Background, Setting::Procs(pid))),
        ) <==> {
            &&& pids_of(table@).contains(pid)
            &&& focus_pid matches Some(root) ==> !process_tree(table@, root).contains(pid)
            &&& !whitelisted(table@, our_pids, pid)
            &&& cgroup_of(table@, pid) matches Some(path) && ("/user.slice"@.is_prefix_of(path)
                || "/supaa"@.is_prefix_of(path))
        },
        forall|i: int|
            0 <= i < rest.len() ==> (#[trigger] rest[i] matches Task::Call(
                SystemCall::Write(CgroupDir::Background, Setting::Procs(_)),
            )),
{
    law_background_takes_user_processes(table@, focus_pid, our_pids, pid);
}

/// Moving a tree, after a scan, moves each process of it to the focus directory, or back to the root, and
/// does nothing else.
pub proof fn law_trees_are_moved(
    table: ProcTable,
    root: u32,
    our_pids: Set<u32>,
    to_focus: Seq<Task>,
    to_root: Seq<Task>,
    pid: u32,
)
    requires
        leaves(Task::MoveTree(root), SystemReply::Table(table), our_pids, to_focus),
        leaves(Task::ReleaseTree(root), SystemReply::Table(table), our_pids, to_root),
    ensures
        call_of(Task::MoveTree(root)) == Some(SystemCall::ScanProcesses),
        call_of(Task::ReleaseTree(root)) == Some(SystemCall::ScanProcesses),
        to_focus.contains(
            Task::Call(SystemCall::Write(CgroupDir::Focus, Setting::Procs(pid))),
        ) <==> process_tree(table@, root).contains(pid),
        to_root.contains(
            Task::Call(SystemCall::Write(CgroupDir::Root, Setting::Procs(pid))),
        ) <==> process_tree(table@, root).contains(pid),
        to_focus.len() == to_root.len(),
{
    law_tree_is_moved_whole(table@, root, CgroupDir::Focus, to_focus, pid);
    law_tree_is_moved_whole(table@, root, CgroupDir::Root, to_root, pid);
    let tree = process_tree(table@, root);
    let there = choose|order: Seq<u32>|
        #[trigger] lists(order, tree) && to_focus == moves(CgroupDir::Focus, order);
    let back = choose|order: Seq<u32>|
        #[trigger] lists(order, tree) && to_root == moves(CgroupDir::Root, order);
    there.unique_seq_to_set();
    back.unique_seq_to_set();
}

/// Freezing the background saves the state first.  Then it freezes every scanned process that is outside
/// the focus tree and not protected, and no other.
pub proof fn law_background_is_frozen(
    table: ProcTable,
    focus_pid: Option<u32>,
    our_pids: Set<u32>,
    rest: Seq<Task>,
    pid: u32,
)
    requires
        leaves(Task::FreezeBackground(focus_pid), SystemReply::Table(table), our_pids, rest),
    ensures
        call_of(Task::FreezeBackground(focus_pid)) == Some(SystemCall::ScanProcesses),
        rest.len() > 0,
        rest[0] == Task::Script(ScriptRun::begin(Script::SaveState)),
        forall|i: int| 1 <= i < rest.len() ==> #[trigger] rest[i] is Freeze,
        rest.contains(Task::Freeze(pid)) <==> {
            &&& pids_of(table@).contains(pid)
            &&& focus_pid matches Some(root) ==> !process_tree(table@, root).contains(pid)
            &&& !whitelisted(table@, our_pids, pid)
        },
{
    let chosen = freezes(freezable_pids(table@, focus_pid, our_pids));
    law_every_other_process_is_chosen(table@, focus_pid, our_pids, pid);
    if chosen.contains(Task::Freeze(pid)) {
        let i = choose|i: int| 0 <= i < chosen.len() && chosen[i] == Task::Freeze(pid);
        assert(rest[i + 1] == Task::Freeze(pid));
    }
    if rest.contains(Task::Freeze(pid)) {
        let i = choose|i: int| 0 <= i < rest.len() && rest[i] == Task::Freeze(pid);
        assert(chosen[i - 1] == Task::Freeze(pid));
    }
}

/// Limiting the memory writes, after a reading, the exact share of what the first line that starts with
/// `MemTotal:` says is installed, and does nothing else.
pub proof fn law_memory_limit_is_written(
    meminfo: String,
    i: int,
    left: Seq<char>,
    kb: nat,
    right: Seq<char>,
    percent: u64,
    our_pids: Set<u32>,
    rest: Seq<Task>,
)
    requires
        leaves(Task::LimitMemory(percent), SystemReply::Text(Some(meminfo)), our_pids, rest),
        0 <= i < lines_of(meminfo@).len(),
        lines_of(meminfo@)[i] == "MemTotal:"@ + (left + decimal(kb) + right),
        left.len() > 0,
        blank(left),
        right.len() > 0 ==> is_space(right[0]),
        forall|j: int| 0 <= j < i ==> !"MemTotal:"@.is_prefix_of(#[trigger] lines_of(meminfo@)[j]),
        kb <= 0x8000_0000_0000,
        percent <= 100,
    ensures
        call_of(Task::LimitMemory(percent)) == Some(SystemCall::ReadMeminfo),
        rest == seq![
            Task::Call(
                SystemCall::Write(
                    CgroupDir::Background,
                    Setting::MemoryHigh(Some((kb * 1024 * percent as nat / 100) as u64)),
                ),
            ),
        ],
{
    law_installed_memory_is_read_from_its_line(meminfo@, i, left, kb, right, percent);
}

/// Emptying a directory moves each process that its list names to the root of the hierarchy, and does
/// nothing else.
pub proof fn law_directories_are_emptied(
    dir: CgroupDir,
    procs: Option<String>,
    our_pids: Set<u32>,
    rest: Seq<Task>,
)
    requires
        leaves(Task::Drain(dir), SystemReply::Text(procs), our_pids, rest),
    ensures
        call_of(Task::Drain(dir)) == Some(SystemCall::ReadProcs(dir)),
        procs is None ==> rest.len() == 0,
        procs matches Some(text) ==> {
            &&& rest.len() == pids_listed(Some(text@)).len()
            &&& forall|i: int|
                0 <= i < rest.len() ==> #[trigger] rest[i] == Task::Call(
                    SystemCall::Write(CgroupDir::Root, Setting::Procs(pids_listed(Some(text@))[i])),
                )
        },
{
}

/// A process counts as frozen from the stop signal that reached it until a continue signal does not fail.
/// A process that is gone needs no thawing.  No signal changes what is known of another process.
pub proof fn law_signals_change_one_process(
    pid: u32,
    other: u32,
    outcome: SignalOutcome,
    frozen: Set<u32>,
)
    ensures
        call_of(Task::Freeze(pid)) == Some(SystemCall::Signal(pid, Signal::Stop)),
        call_of(Task::Thaw(pid)) == Some(SystemCall::Signal(pid, Signal::Continue)),
        frozen_after(Task::Freeze(pid), SystemReply::Signalled(outcome), frozen).contains(pid)
            <==> frozen.contains(pid) || outcome == SignalOutcome::Delivered,
        frozen_after(Task::Thaw(pid), SystemReply::Signalled(outcome), frozen).contains(pid)
            <==> frozen.contains(pid) && outcome == SignalOutcome::Failed,
        other != pid ==> frozen_after(
            Task::Freeze(pid),
            SystemReply::Signalled(outcome),
            frozen,
        ).contains(other) == frozen.contains(other),
        other != pid ==> frozen_after(
            Task::Thaw(pid),
            SystemReply::Signalled(outcome),
            frozen,
        ).contains(other) == frozen.contains(other),
{
}

/// Only signals change what is known to be frozen.
pub proof fn law_other_tasks_freeze_nothing(task: Task, reply: SystemReply, frozen: Set<u32>)
    requires
        task !is Freeze,
        task !is Thaw,
    ensures
        frozen_after(task, reply, frozen) == frozen,
{
}

/// A plain call is made as it is, and nothing is left of it; nor of a signal, of a list of processes or of
/// a marker.
pub proof fn law_plain_tasks_leave_nothing(
    task: Task,
    reply: SystemReply,
    our_pids: Set<u32>,
    rest: Seq<Task>,
)
    requires
        task is Call || task is Freeze || task is Thaw || task is ListProcesses || task is Mark,
        leaves(task, reply, our_pids, rest),
    ensures
        rest.len() == 0,
        task matches Task::Call(call) ==> call_of(task) == Some(call),
        task is ListProcesses ==> call_of(task) == Some(SystemCall::ScanProcesses),
{
}

/// What is left of a task comes before what was queued already, which stays as it is.
pub proof fn law_rest_comes_first(
    before: Engine,
    reply: SystemReply,
    our_pids: Set<u32>,
    after: Engine,
)
    requires
        before.delivers(reply, our_pids, after),
    ensures
        after.current is None,
        before.queue@.is_suffix_of(after.queue@),
        before.current matches Some(task) ==> leaves(
            task,
            reply,
            our_pids,
            after.queue@.take(after.queue@.len() - before.queue@.len()),
        ),
        before.current is None ==> after.queue@ == before.queue@,
{
    let old_queue = before.queue@;
    let new_queue = after.queue@;
    if let Some(task) = before.current {
        let rest = choose|rest: Seq<Task>|
            #[trigger] leaves(task, reply, our_pids, rest) && new_queue == rest + old_queue;
        assert(new_queue.take(new_queue.len() - old_queue.len()) =~= rest);
        assert(new_queue.skip(new_queue.len() - old_queue.len()) =~= old_queue);
    } else {
        assert(new_queue.skip(0) =~= old_queue);
    }
}

/// An engine that waits for no reply takes the first task.  It asks for the call of the task, unless that
/// is to freeze a process that is frozen already, which is skipped.
pub proof fn law_first_task_is_taken(
    before: Engine,
    frozen: Set<u32>,
    after: Engine,
    r: Progress,
    task: Task,
    rest: Seq<Task>,
)
    requires
        before.advances(frozen, after, r),
        before.current is None,
        before.queue@ == seq![task] + rest,
    ensures
        task matches Task::Call(call) ==> r == Progress::Call(call) && after.current == Some(task)
            && after.queue@ == rest,
        task matches Task::Thaw(pid) ==> r == Progress::Call(
            SystemCall::Signal(pid, Signal::Continue),
        ) && after.current == Some(task) && after.queue@ == rest,
        task matches Task::Freeze(pid) ==> if frozen.contains(pid) {
            r == Progress::Busy && after.current is None && after.queue@ == rest
        } else {
            r == Progress::Call(SystemCall::Signal(pid, Signal::Stop)) && after.current == Some(task)
                && after.queue@ == rest
        },
        task matches Task::Mark(marker) ==> r == Progress::Mark(marker) && after.current is None
            && after.queue@ == rest,
        task is Unlock ==> r == Progress::Busy && after.current is None && after.queue@ == seq![
            Task::Script(
                ScriptRun::begin(
                    if before.bound {
                        Script::UnlockKeys
                    } else {
                        Script::UnlockWorkspace
                    },
                ),
            ),
        ] + rest,
{
    assert(before.queue@.skip(1) =~= rest);
}

/// Thawing everything queues a thaw for each frozen process, and for no other, before the rest.
pub proof fn law_every_frozen_process_is_thawed(
    before: Engine,
    frozen: Set<u32>,
    after: Engine,
    r: Progress,
    rest: Seq<Task>,
    pid: u32,
)
    requires
        before.advances(frozen, after, r),
        before.current is None,
        before.queue@ == seq![Task::ThawAll] + rest,
    ensures
        after.queue@.len() == frozen.len() + rest.len(),
        after.queue@.skip(frozen.len() as int) == rest,
        after.queue@.take(frozen.len() as int).contains(Task::Thaw(pid)) <==> frozen.contains(pid),
{
    assert(before.queue@.skip(1) =~= rest);
    let order = choose|order: Seq<u32>|
        #[trigger] lists(order, frozen) && after.queue@ == thaws(order) + rest;
    law_lists_hold_the_members(order, frozen, pid);
    let front = after.queue@.take(frozen.len() as int);
    assert(front =~= thaws(order));
    assert(after.queue@.skip(frozen.len() as int) =~= rest);
    if order.contains(pid) {
        let i = choose|i: int| 0 <= i < order.len() && order[i] == pid;
        assert(front[i] == Task::Thaw(pid));
    }
    if front.contains(Task::Thaw(pid)) {
        let i = choose|i: int| 0 <= i < front.len() && front[i] == Task::Thaw(pid);
        assert(order[i] == pid);
    }
}

/// A script asks for the call of its next step.  When that is answered, the rest of the script comes next,
/// and nothing once the script is over.
pub proof fn law_scripts_go_step_by_step(
    run: ScriptRun,
    reply: SystemReply,
    our_pids: Set<u32>,
    rest: Seq<Task>,
)
    requires
        leaves(Task::Script(run), reply, our_pids, rest),
    ensures
        call_of(Task::Script(run)) == if run.at < steps_of(run.script).len() {
            Some(steps_of(run.script)[run.at as int].call)
        } else {
            None
        },
        run.fed(reply.succeeded()).done() ==> rest.len() == 0,
        !run.fed(reply.succeeded()).done() ==> rest == seq![
            Task::Script(run.fed(reply.succeeded())),
        ],
{
}

/// An engine that waits for a reply asks for the same call again; one that has nothing to do says so.
/// Neither takes a task.
pub proof fn law_waiting_takes_no_task(
    before: Engine,
    frozen: Set<u32>,
    after: Engine,
    r: Progress,
)
    requires
        before.advances(frozen, after, r),
        before.current is Some || before.queue@.len() == 0,
    ensures
        after.queue@ == before.queue@,
        before.current matches Some(task) ==> (call_of(task) matches Some(call) ==> r
            == Progress::Call(call) && after.current == before.current),
        before.current is None ==> r == Progress::Idle && after.current is None,
{
}

/// A task that needs a call is waited for, unless it is to freeze what is frozen.
pub proof fn law_calls_are_waited_for(
    before: Engine,
    frozen: Set<u32>,
    after: Engine,
    r: Progress,
    task: Task,
    rest: Seq<Task>,
)
    requires
        before.advances(frozen, after, r),
        before.current is None,
        before.queue@ == seq![task] + rest,
        call_of(task) is Some,
        task !is Freeze,
    ensures
        r == Progress::Call(call_of(task)->0),
        after.current == Some(task),
        after.queue@ == rest,
        after.bound == before.bound,
        after.last_run == before.last_run,
{
    assert(before.queue@.skip(1) =~= rest);
}

} // verus!
