//! What lies on the disk while the daemon works, and why a crash finds every stopped process there.
//!
//! Before the daemon stops a process, it lists it in the state and saves the state.  It stays listed,
//! in the state and in the file, for as long as it is frozen.
use vstd::prelude::*;

use crate::cgroup::teardown_tasks;
use crate::freezer::freezable_pids;
use crate::plan::{
    law_commands_scan_before_freezing, leave_tasks, leaves_clean, plan, saved_frozen, stamps,
    stamps_at_once, Standing,
};
use crate::policy::{apply_tasks, restore_tasks, transition_tasks};
use crate::protocol::Request;
use crate::script::{Script, ScriptRun};
use crate::state::Saved;
use crate::system::{SystemCall, SystemReply};
use crate::task::{
    call_of, frozen_after, leaves, lemma_step_shape, pending, unmarked, well_vetted, Engine,
    Progress, Task, Vetting,
};

verus! {

/// What the daemon has put on the disk.
pub ghost struct Disk {
    /// The state in the temporary file.
    pub tmp: Option<Saved>,
    /// The state in the state file, if the daemon has written it.
    pub file: Option<Saved>,
    /// Did the last attempt to save the state fail?
    pub missed: bool,
}

/// A disk that the daemon has put nothing on.
pub open spec fn blank() -> Disk {
    Disk { tmp: None, file: None, missed: false }
}

/// The disk after a call and the reply to it, with the state that is to be saved.
pub open spec fn disk_after(call: SystemCall, reply: SystemReply, state: Saved, disk: Disk) -> Disk {
    match call {
        SystemCall::CreateStateDir => if reply.succeeded() {
            disk
        } else {
            Disk { missed: true, ..disk }
        },
        SystemCall::WriteStateTmp => if reply.succeeded() {
            Disk { tmp: Some(state), ..disk }
        } else {
            Disk { tmp: None, missed: true, ..disk }
        },
        SystemCall::RenameState => if reply.succeeded() {
            Disk { tmp: None, file: disk.tmp, missed: false }
        } else {
            Disk { missed: true, ..disk }
        },
        _ => disk,
    }
}

/// Is it a call that saves the state, or a part of that?
pub open spec fn saves(call: SystemCall) -> bool {
    call is CreateStateDir || call is WriteStateTmp || call is RenameState
}

/// Is the process listed in the state file, and is the state in it dirty, so that a crash would have
/// the process thawed?
pub open spec fn safe_on(disk: Disk, pid: u32) -> bool {
    disk.file matches Some(file) && !file.clean_shutdown && file.frozen_pids.contains(pid)
}

// ---------------------------------------------------------------------------------------------
//  The state
// ---------------------------------------------------------------------------------------------

/// Is every process that is frozen listed in the state, and every one that is about to be?
///
/// A clean state lists nothing: it is reached only after everything was thawed, and a process that is
/// frozen then is one whose thawing failed.
pub open spec fn all_listed(tasks: Seq<Task>, state: Saved, frozen: Set<u32>) -> bool {
    &&& state.clean_shutdown || frozen.subset_of(state.frozen_pids)
    &&& forall|i: int|
        0 <= i < tasks.len() ==> (#[trigger] tasks[i] matches Task::Freeze(pid)
            ==> !state.clean_shutdown && state.frozen_pids.contains(pid))
    &&& forall|i: int|
        0 <= i < tasks.len() && #[trigger] tasks[i] is FreezeBackground ==> !state.clean_shutdown
    &&& forall|i: int, j: int|
        0 <= i < j < tasks.len() && (#[trigger] tasks[j] is Freeze || tasks[j] is FreezeBackground)
            ==> !(#[trigger] tasks[i] matches Task::Mark(marker) && stamps(marker))
}

/// The state after a reply: what a scan chose to be frozen is listed, besides what is frozen already.
pub open spec fn state_after(
    engine: Engine,
    reply: SystemReply,
    our_pids: Set<u32>,
    frozen: Set<u32>,
    state: Saved,
) -> Saved {
    match engine.current {
        Some(Task::FreezeBackground(focus_pid)) => Saved {
            frozen_pids: frozen.union(
                freezable_pids(reply.scan(), focus_pid, our_pids).to_set(),
            ),
            ..state
        },
        _ => state,
    }
}

/// Steps keep everything listed.
pub proof fn lemma_steps_stay_listed(
    before: Engine,
    frozen: Set<u32>,
    after: Engine,
    r: Progress,
    state: Saved,
    next: Saved,
)
    requires
        before.advances(frozen, after, r),
        all_listed(pending(before), state, frozen),
        match r {
            Progress::Mark(marker) => {
                &&& next.clean_shutdown == leaves_clean(marker, state.clean_shutdown)
                &&& next.frozen_pids == saved_frozen(marker, frozen, state.frozen_pids)
            },
            _ => next == state,
        },
    ensures
        all_listed(pending(after), next, frozen),
{
    let tasks = pending(before);
    if let Some(more) = lemma_step_shape(before, frozen, after, r) {
        let all = pending(after);
        let n = more.len() as int;
        assert forall|i: int| n <= i < all.len() implies #[trigger] all[i] == tasks[i - n + 1] by {}
    }
}

/// Replies keep everything listed.
pub proof fn lemma_replies_stay_listed(
    before: Engine,
    reply: SystemReply,
    our_pids: Set<u32>,
    after: Engine,
    state: Saved,
    frozen: Set<u32>,
    vetting: Vetting,
)
    requires
        before.current is Some,
        before.delivers(reply, our_pids, after),
        well_vetted(pending(before), vetting, our_pids),
        all_listed(pending(before), state, frozen),
    ensures
        all_listed(
            pending(after),
            state_after(before, reply, our_pids, frozen, state),
            frozen_after(before.current->0, reply, frozen),
        ),
{
    let task = before.current->0;
    let tasks = pending(before);
    assert(tasks[0] == task);
    assert(tasks.skip(1) =~= before.queue@);
    let rest = choose|rest: Seq<Task>|
        #[trigger] leaves(task, reply, our_pids, rest) && after.queue@ == rest + before.queue@;
    let all = pending(after);
    let n = rest.len() as int;
    assert forall|i: int| n <= i < all.len() implies #[trigger] all[i] == tasks[i - n + 1] by {}
    assert forall|i: int| 0 <= i < n implies #[trigger] all[i] == rest[i] by {}
    if let Task::FreezeBackground(focus_pid) = task {
        let pids = freezable_pids(reply.scan(), focus_pid, our_pids);
        let next = state_after(before, reply, our_pids, frozen, state);
        assert forall|i: int| 0 <= i < all.len() implies (#[trigger] all[i] matches Task::Freeze(
            pid,
        ) ==> !next.clean_shutdown && next.frozen_pids.contains(pid)) by {
            if i >= n {
                assert(tasks[i - n + 1] !is Freeze);
            } else if i > 0 {
                assert(all[i] == Task::Freeze(pids[i - 1]));
                assert(pids.contains(pids[i - 1]));
            }
        }
    }
}

// ---------------------------------------------------------------------------------------------
//  The file
// ---------------------------------------------------------------------------------------------

/// Is the state saved before the task at a place in a list is carried out?
pub open spec fn saved_before(tasks: Seq<Task>, i: int) -> bool {
    exists|j: int|
        0 <= j < i && (#[trigger] tasks[j] matches Task::Script(run) && run.script
            == Script::SaveState)
}

/// Is every process that is frozen listed in the state file, if the last attempt to save it did not
/// fail, and will every process be that is about to be frozen?
pub open spec fn all_filed(tasks: Seq<Task>, state: Saved, frozen: Set<u32>, disk: Disk) -> bool {
    &&& forall|i: int|
        0 <= i < tasks.len() ==> (#[trigger] tasks[i] matches Task::Call(call) ==> !saves(call))
    &&& forall|i: int|
        0 <= i < tasks.len() ==> (#[trigger] tasks[i] matches Task::Script(run) ==> {
            &&& run.script != Script::SaveRecovered
            &&& run.script == Script::SaveState ==> run.at == 0 || i == 0 && run.at <= 2 && (run.at
                == 2 ==> disk.tmp == Some(state))
        })
    &&& !disk.missed ==> forall|pid: u32| #[trigger]
        frozen.contains(pid) ==> (disk.file matches Some(file) && (file.clean_shutdown
            || file.frozen_pids.contains(pid)))
    &&& !disk.missed ==> forall|i: int|
        0 <= i < tasks.len() ==> (#[trigger] tasks[i] matches Task::Freeze(pid) ==> saved_before(
            tasks,
            i,
        ) || safe_on(disk, pid))
}

/// Steps keep everything filed.
pub proof fn lemma_steps_stay_filed(
    before: Engine,
    frozen: Set<u32>,
    after: Engine,
    r: Progress,
    state: Saved,
    next: Saved,
    disk: Disk,
)
    requires
        before.advances(frozen, after, r),
        all_filed(pending(before), state, frozen, disk),
        !(r is Mark) ==> next == state,
    ensures
        all_filed(pending(after), next, frozen, disk),
{
    let tasks = pending(before);
    if let Some(more) = lemma_step_shape(before, frozen, after, r) {
        let all = pending(after);
        let n = more.len() as int;
        assert forall|i: int| n <= i < all.len() implies #[trigger] all[i] == tasks[i - n + 1] by {}
        if !disk.missed {
            assert forall|i: int| 0 <= i < all.len() implies (#[trigger] all[i]
                matches Task::Freeze(pid) ==> saved_before(all, i) || safe_on(disk, pid)) by {
                if i >= n && saved_before(tasks, i - n + 1) {
                    let j = choose|j: int|
                        0 <= j < i - n + 1 && (#[trigger] tasks[j] matches Task::Script(run)
                            && run.script == Script::SaveState);
                    assert(all[j + n - 1] == tasks[j]);
                }
            }
        }
    }
}

/// No script but those that save the state makes a call that does.
proof fn lemma_only_saving_saves(run: ScriptRun)
    requires
        !run.done(),
        saves(run.next_step().call),
    ensures
        run.script == Script::SaveState || run.script == Script::SaveRecovered,
{
}

/// Replies keep everything filed.
pub proof fn lemma_replies_stay_filed(
    before: Engine,
    reply: SystemReply,
    our_pids: Set<u32>,
    after: Engine,
    state: Saved,
    frozen: Set<u32>,
    disk: Disk,
)
    requires
        before.current is Some,
        call_of(before.current->0) is Some,
        before.delivers(reply, our_pids, after),
        all_listed(pending(before), state, frozen),
        all_filed(pending(before), state, frozen, disk),
    ensures
        all_filed(
            pending(after),
            state_after(before, reply, our_pids, frozen, state),
            frozen_after(before.current->0, reply, frozen),
            disk_after(call_of(before.current->0)->0, reply, state, disk),
        ),
{
    let task = before.current->0;
    let call = call_of(task)->0;
    let tasks = pending(before);
    assert(tasks[0] == task);
    assert(tasks.skip(1) =~= before.queue@);
    let rest = choose|rest: Seq<Task>|
        #[trigger] leaves(task, reply, our_pids, rest) && after.queue@ == rest + before.queue@;
    let all = pending(after);
    let n = rest.len() as int;
    let next = state_after(before, reply, our_pids, frozen, state);
    let left = frozen_after(task, reply, frozen);
    let later = disk_after(call, reply, state, disk);
    assert forall|i: int| n <= i < all.len() implies #[trigger] all[i] == tasks[i - n + 1] by {}
    assert forall|i: int| 0 <= i < n implies #[trigger] all[i] == rest[i] by {}
    if let Task::Script(run) = task {
        if saves(call) {
            lemma_only_saving_saves(run);
        }
    }
    if !later.missed {
        assert forall|i: int| 0 <= i < all.len() implies (#[trigger] all[i] matches Task::Freeze(
            pid,
        ) ==> saved_before(all, i) || safe_on(later, pid)) by {
            if all[i] is Freeze {
                if call is RenameState {
                    assert(tasks[i - n + 1] is Freeze);
                } else if task is FreezeBackground {
                    assert(all[0] == rest[0]);
                    if i == 0 {
                        assert(false);
                    }
                } else {
                    assert(i >= n);
                    let k = i - n + 1;
                    assert(tasks[k] == all[i]);
                    if saved_before(tasks, k) {
                        let j = choose|j: int|
                            0 <= j < k && (#[trigger] tasks[j] matches Task::Script(run)
                                && run.script == Script::SaveState);
                        if j == 0 {
                            assert(all[0] == rest[0]);
                        } else {
                            assert(all[j + n - 1] == tasks[j]);
                        }
                    }
                }
            }
        }
    }
}

// ---------------------------------------------------------------------------------------------
//  Commands
// ---------------------------------------------------------------------------------------------

/// Is every script in a list at its start, does none of its scripts end a recovery, and is no part of
/// saving asked for on its own?
spec fn orderly(tasks: Seq<Task>) -> bool {
    forall|i: int|
        0 <= i < tasks.len() ==> match #[trigger] tasks[i] {
            Task::Call(call) => !saves(call),
            Task::Script(run) => run.at == 0 && run.script != Script::SaveRecovered,
            _ => true,
        }
}

proof fn lemma_plans_are_orderly(standing: Standing, request: Request)
    ensures
        orderly(plan(standing, request)),
{
    assert(orderly(restore_tasks()));
    assert(orderly(transition_tasks()));
    assert(orderly(teardown_tasks()));
    if let Request::SetMode { mode } = request {
        assert(orderly(leave_tasks(standing.mode, mode)));
        assert(orderly(apply_tasks(mode, standing.focus_pid)));
    }
}

/// Does no task of the list choose what to freeze?
spec fn chooses_nothing(tasks: Seq<Task>) -> bool {
    forall|i: int| 0 <= i < tasks.len() ==> #[trigger] tasks[i] !is FreezeBackground
}

proof fn lemma_plans_choose_in_time(standing: Standing, request: Request, i: int, j: int)
    requires
        0 <= j < plan(standing, request).len(),
        plan(standing, request)[j] is FreezeBackground,
    ensures
        stamps_at_once(standing, request),
        0 <= i < j ==> !(plan(standing, request)[i] matches Task::Mark(marker) && stamps(marker)),
{
    let tasks = plan(standing, request);
    assert(chooses_nothing(restore_tasks()));
    match request {
        Request::SetMode { mode } => {
            let leaving = leave_tasks(standing.mode, mode);
            let applying = apply_tasks(mode, standing.focus_pid);
            assert(chooses_nothing(transition_tasks()));
            assert(chooses_nothing(teardown_tasks()));
            assert(chooses_nothing(leaving));
            assert(unmarked(leaving));
            assert(unmarked(applying));
            let n = leaving.len() as int;
            let m = applying.len() as int;
            if 1 <= j < n + 1 {
                assert(tasks[j] == leaving[j - 1]);
            }
            assert(n + 2 <= j < n + 2 + m);
            if 1 <= i < n + 1 {
                assert(tasks[i] == leaving[i - 1]);
            } else if n + 2 <= i < j {
                assert(tasks[i] == applying[i - n - 2]);
            }
        },
        Request::Shutdown => {
            let n = restore_tasks().len() as int;
            if 2 <= j < n + 2 {
                assert(tasks[j] == restore_tasks()[j - 2]);
            }
        },
        Request::EmergencyRestore { .. } => {
            let n = restore_tasks().len() as int;
            if 2 <= j < n + 2 {
                assert(tasks[j] == restore_tasks()[j - 2]);
            }
        },
        _ => {},
    }
}

/// Commands keep everything listed.
pub proof fn lemma_commands_stay_listed(
    standing: Standing,
    request: Request,
    state: Saved,
    next: Saved,
    frozen: Set<u32>,
)
    requires
        all_listed(seq![], state, frozen),
        if stamps_at_once(standing, request) {
            !next.clean_shutdown && next.frozen_pids == frozen
        } else {
            next.clean_shutdown == state.clean_shutdown && next.frozen_pids == state.frozen_pids
        },
    ensures
        all_listed(plan(standing, request), next, frozen),
{
    let tasks = plan(standing, request);
    law_commands_scan_before_freezing(standing, request);
    assert forall|j: int| 0 <= j < tasks.len() && #[trigger] tasks[j] is FreezeBackground implies
        !next.clean_shutdown by {
        lemma_plans_choose_in_time(standing, request, 0, j);
    }
    assert forall|i: int, j: int|
        0 <= i < j < tasks.len() && (#[trigger] tasks[j] is Freeze || tasks[j]
            is FreezeBackground) implies !(#[trigger] tasks[i] matches Task::Mark(marker) && stamps(
        marker,
    )) by {
        lemma_plans_choose_in_time(standing, request, i, j);
    }
}

/// Commands keep everything filed.
pub proof fn lemma_commands_stay_filed(
    standing: Standing,
    request: Request,
    state: Saved,
    next: Saved,
    frozen: Set<u32>,
    disk: Disk,
)
    requires
        all_filed(seq![], state, frozen, disk),
    ensures
        all_filed(plan(standing, request), next, frozen, disk),
{
    law_commands_scan_before_freezing(standing, request);
    lemma_plans_are_orderly(standing, request);
}

/// The state file changes only when the temporary file replaces it, and then holds what was written there
/// last.  A failure changes no file but the temporary one, and is remembered until the next replacement.
pub proof fn law_file_changes_by_renaming(
    call: SystemCall,
    reply: SystemReply,
    state: Saved,
    disk: Disk,
)
    ensures
        disk_after(call, reply, state, disk).file != disk.file ==> call is RenameState
            && reply.succeeded() && disk_after(call, reply, state, disk).file == disk.tmp,
        call is RenameState && reply.succeeded() ==> disk_after(call, reply, state, disk).file
            == disk.tmp && !disk_after(call, reply, state, disk).missed,
        call is WriteStateTmp && reply.succeeded() ==> disk_after(call, reply, state, disk).tmp
            == Some(state),
        saves(call) && !reply.succeeded() ==> disk_after(call, reply, state, disk).missed,
        !saves(call) ==> disk_after(call, reply, state, disk) == disk,
{
}

} // verus!
