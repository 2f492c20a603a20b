//! The bindings of workspace keys, and why none outlasts a lock.
//!
//! Where the compositor refuses the submap, a lock binds the workspace keys instead.  Whatever it
//! answers later, unlocking then takes every binding back.
use vstd::prelude::*;

use crate::hyprland::{HyprRequest, WORKSPACE_KEYS};
use crate::modes::Mode;
use crate::plan::{leave_tasks, plan, restores, Standing};
use crate::policy::{apply_tasks, restore_tasks, transition_tasks};
use crate::protocol::Request;
use crate::script::{steps_of, Script, ScriptRun};
use crate::system::{SystemCall, SystemReply};
use crate::task::{
    call_of, failed_after, frozen_after, leaves, lemma_step_shape, pauses, pending, round, rounds,
    runs, Engine, Progress, Task,
};

verus! {

/// The keys that are bound after a call, given those that were before.
pub open spec fn keys_after(call: SystemCall, keys: Set<usize>) -> Set<usize> {
    match call {
        SystemCall::Hyprland(HyprRequest::Bind(key)) => keys.insert(key),
        SystemCall::Hyprland(HyprRequest::Unbind(key)) => keys.remove(key),
        _ => keys,
    }
}

/// The keys that are bound after some calls, one after the other.
pub open spec fn keys_by(calls: Seq<SystemCall>, keys: Set<usize>) -> Set<usize>
    decreases calls.len(),
{
    if calls.len() == 0 {
        keys
    } else {
        keys_by(calls.skip(1), keys_after(calls[0], keys))
    }
}

/// Does a script take bindings back?
pub open spec fn unlocks(script: Script) -> bool {
    script == Script::UnlockWorkspace || script == Script::UnlockKeys
}

/// Is it a call that binds a key or takes a binding back?
pub open spec fn is_key_call(call: SystemCall) -> bool {
    call matches SystemCall::Hyprland(request) && (request is Bind || request is Unbind)
}

/// Does the engine know that keys are bound, if some are?
///
/// A script that takes bindings back has taken back those of all keys that it has passed.
pub open spec fn keys_known(engine: Engine, keys: Set<usize>) -> bool {
    &&& engine.current matches Some(task) ==> call_of(task) is Some
    &&& forall|key: usize| #[trigger] keys.contains(key) ==> key < WORKSPACE_KEYS && engine.bound
    &&& forall|i: int|
        0 <= i < pending(engine).len() ==> (#[trigger] pending(engine)[i] matches Task::Call(call)
            ==> !is_key_call(call))
    &&& forall|i: int|
        0 <= i < pending(engine).len() ==> (#[trigger] pending(engine)[i] matches Task::Script(run)
            ==> (unlocks(run.script) ==> run.at == 0 || i == 0 && forall|key: usize| #[trigger]
            keys.contains(key) ==> run.at <= key + 1))
}

/// Will the task take the binding of a key back?
pub open spec fn takes_back(task: Task, key: usize) -> bool {
    ||| task is Unlock
    ||| task matches Task::Script(run) && run.script == Script::UnlockKeys && run.at <= key + 1
}

/// Will the binding of every key that is bound be taken back, and will none be bound?
pub open spec fn takes_all_back(engine: Engine, keys: Set<usize>) -> bool {
    &&& forall|i: int|
        0 <= i < pending(engine).len() ==> !(#[trigger] pending(engine)[i] matches Task::Script(run)
            && run.script == Script::LockWorkspace)
    &&& forall|key: usize| #[trigger]
        keys.contains(key) ==> exists|i: int|
            0 <= i < pending(engine).len() && takes_back(#[trigger] pending(engine)[i], key)
}

/// Steps keep the keys known, and on their way back.
proof fn lemma_steps_keep_keys(
    before: Engine,
    frozen: Set<u32>,
    after: Engine,
    r: Progress,
    keys: Set<usize>,
)
    requires
        before.advances(frozen, after, r),
        keys_known(before, keys),
    ensures
        keys_known(after, keys),
        takes_all_back(before, keys) ==> takes_all_back(after, keys),
{
    let tasks = pending(before);
    let all = pending(after);
    if let Some(more) = lemma_step_shape(before, frozen, after, r) {
        let n = more.len() as int;
        assert forall|i: int| n <= i < all.len() implies #[trigger] all[i] == tasks[i - n + 1] by {}
        if takes_all_back(before, keys) {
            assert forall|key: usize| #[trigger] keys.contains(key) implies exists|i: int|
                0 <= i < all.len() && takes_back(#[trigger] all[i], key) by {
                let i = choose|i: int| 0 <= i < tasks.len() && takes_back(#[trigger] tasks[i], key);
                if i == 0 {
                    assert(takes_back(all[0], key));
                } else {
                    assert(takes_back(all[i + n - 1], key));
                }
            }
        }
    }
}

/// The calls on keys that scripts make.
proof fn lemma_key_calls(run: ScriptRun)
    requires
        !run.done(),
    ensures
        match run.next_step().call {
            SystemCall::Hyprland(HyprRequest::Bind(key)) => run.script == Script::LockWorkspace
                && key < WORKSPACE_KEYS,
            SystemCall::Hyprland(HyprRequest::Unbind(key)) => unlocks(run.script) && run.at == key
                + 1 && key < WORKSPACE_KEYS,
            _ => true,
        },
        unlocks(run.script) && run.at > 0 ==> run.next_step().call == SystemCall::Hyprland(
            HyprRequest::Unbind((run.at - 1) as usize),
        ),
        unlocks(run.script) ==> steps_of(run.script).len() == WORKSPACE_KEYS + 1,
        run.script == Script::UnlockKeys ==> run.fed(true).at == run.at + 1 && run.fed(false).at
            == run.at + 1,
        unlocks(run.script) && run.at > 0 ==> run.fed(true).at == run.at + 1 && run.fed(false).at
            == run.at + 1,
{
}

/// Replies keep the keys known, and on their way back.
proof fn lemma_replies_keep_keys(
    before: Engine,
    reply: SystemReply,
    our_pids: Set<u32>,
    after: Engine,
    keys: Set<usize>,
)
    requires
        before.current is Some,
        before.delivers(reply, our_pids, after),
        keys_known(before, keys),
    ensures
        keys_known(after, keys_after(call_of(before.current->0)->0, keys)),
        takes_all_back(before, keys) ==> takes_all_back(
            after,
            keys_after(call_of(before.current->0)->0, keys),
        ),
{
    let task = before.current->0;
    let call = call_of(task)->0;
    let tasks = pending(before);
    assert(tasks[0] == task);
    assert(tasks.skip(1) =~= before.queue@);
    let rest = choose|rest: Seq<Task>|
        #[trigger] leaves(task, reply, our_pids, rest) && after.queue@ == rest + before.queue@;
    let all = pending(after);
    let n = rest.len() as int;
    let left = keys_after(call, keys);
    assert forall|i: int| n <= i < all.len() implies #[trigger] all[i] == tasks[i - n + 1] by {}
    assert forall|i: int| 0 <= i < n implies #[trigger] all[i] == rest[i] by {}
    if let Task::Script(run) = task {
        lemma_key_calls(run);
    }
    if takes_all_back(before, keys) {
        assert forall|key: usize| #[trigger] left.contains(key) implies exists|i: int|
            0 <= i < all.len() && takes_back(#[trigger] all[i], key) by {
            assert(keys.contains(key));
            let i = choose|i: int| 0 <= i < tasks.len() && takes_back(#[trigger] tasks[i], key);
            if i == 0 {
                assert(takes_back(all[0], key));
            } else {
                assert(takes_back(all[i + n - 1], key));
            }
        }
    }
}

proof fn lemma_runs_keep_keys(
    before: Engine,
    frozen: Set<u32>,
    reports: Seq<Progress>,
    after: Engine,
    keys: Set<usize>,
)
    requires
        runs(before, frozen, reports, after),
        keys_known(before, keys),
    ensures
        keys_known(after, keys),
        takes_all_back(before, keys) ==> takes_all_back(after, keys),
    decreases reports.len(),
{
    if reports.len() > 0 {
        let earlier = reports.drop_last();
        let middle = choose|middle: Engine|
            runs(before, frozen, earlier, middle) && #[trigger] middle.advances(
                frozen,
                after,
                reports.last(),
            );
        lemma_runs_keep_keys(before, frozen, earlier, middle, keys);
        lemma_steps_keep_keys(middle, frozen, after, reports.last(), keys);
    }
}

/// Whatever is asked of the compositor, and whatever it answers, the engine knows that keys are bound
/// if some are, and bindings that were to be taken back still are.
pub proof fn law_bindings_are_known(
    before: Engine,
    frozen: Set<u32>,
    failed: Set<u32>,
    our_pids: Set<u32>,
    calls: Seq<SystemCall>,
    replies: Seq<SystemReply>,
    after: Engine,
    left: Set<u32>,
    failures: Set<u32>,
    keys: Set<usize>,
)
    requires
        rounds(before, frozen, failed, our_pids, calls, replies, after, left, failures),
        keys_known(before, keys),
    ensures
        keys_known(after, keys_by(calls, keys)),
        takes_all_back(before, keys) ==> takes_all_back(after, keys_by(calls, keys)),
    decreases replies.len(),
{
    if replies.len() > 0 {
        let (asked, middle) = choose|asked: Engine, middle: Engine| #[trigger]
            round(before, frozen, our_pids, replies[0], asked, middle) && call_of(
                asked.current->0,
            ) == Some(calls[0]) && rounds(
                middle,
                frozen_after(asked.current->0, replies[0], frozen),
                failed_after(asked.current->0, replies[0], failed),
                our_pids,
                calls.skip(1),
                replies.skip(1),
                after,
                left,
                failures,
            );
        let reports = choose|reports: Seq<Progress>| #[trigger]
            runs(before, frozen, reports, asked) && pauses(reports) && reports.last() is Call;
        lemma_runs_keep_keys(before, frozen, reports, asked, keys);
        lemma_replies_keep_keys(asked, replies[0], our_pids, middle, keys);
        law_bindings_are_known(
            middle,
            frozen_after(asked.current->0, replies[0], frozen),
            failed_after(asked.current->0, replies[0], failed),
            our_pids,
            calls.skip(1),
            replies.skip(1),
            after,
            left,
            failures,
            keys_after(calls[0], keys),
        );
    }
}

/// Does no script of the list bind keys, is none that takes bindings back under way, and is no binding
/// asked for on its own?
spec fn quiet(tasks: Seq<Task>) -> bool {
    forall|i: int|
        0 <= i < tasks.len() ==> match #[trigger] tasks[i] {
            Task::Call(call) => !is_key_call(call),
            Task::Script(run) => run.script != Script::LockWorkspace && run.at == 0,
            _ => true,
        }
}

/// After a change to a mode other than `SupaaPlus`, a shutdown or an emergency restoration, the
/// binding of every workspace key that was bound has been asked back, whatever the compositor
/// answered before and on the way.
pub proof fn law_restoring_takes_every_binding_back(
    standing: Standing,
    request: Request,
    before: Engine,
    frozen: Set<u32>,
    our_pids: Set<u32>,
    calls: Seq<SystemCall>,
    replies: Seq<SystemReply>,
    after: Engine,
    left: Set<u32>,
    failures: Set<u32>,
    reports: Seq<Progress>,
    done: Engine,
    keys: Set<usize>,
)
    requires
        restores(standing, request),
        before.current is None,
        before.queue@ == plan(standing, request),
        forall|key: usize| #[trigger] keys.contains(key) ==> key < WORKSPACE_KEYS && before.bound,
        rounds(before, frozen, Set::empty(), our_pids, calls, replies, after, left, failures),
        runs(after, left, reports, done),
        pauses(reports),
        reports.last() is Idle,
    ensures
        keys_by(calls, keys) == Set::<usize>::empty(),
{
    let tasks = plan(standing, request);
    assert(quiet(restore_tasks()));
    match request {
        Request::SetMode { mode } => {
            let leaving = leave_tasks(standing.mode, mode);
            let applying = apply_tasks(mode, standing.focus_pid);
            assert(quiet(transition_tasks()));
            assert(quiet(leaving));
            assert(quiet(applying));
            if standing.mode == Mode::Normal {
                let n = applying.len() as int;
                assert(applying[n - 2] == Task::Unlock);
                assert(tasks[leaving.len() as int + n] == Task::Unlock);
            } else {
                let n = transition_tasks().len() as int;
                assert(transition_tasks()[n - 1] == Task::Unlock);
                assert(tasks[n] == Task::Unlock);
            }
        },
        _ => {
            let n = restore_tasks().len() as int;
            assert(restore_tasks()[n - 1] == Task::Unlock);
            assert(tasks[n + 1] == Task::Unlock);
        },
    }
    assert(quiet(tasks));
    assert(exists|i: int| 0 <= i < tasks.len() && #[trigger] tasks[i] is Unlock);
    let u = choose|i: int| 0 <= i < tasks.len() && #[trigger] tasks[i] is Unlock;
    assert forall|key: usize| #[trigger] keys.contains(key) implies exists|i: int|
        0 <= i < tasks.len() && takes_back(#[trigger] tasks[i], key) by {
        assert(takes_back(tasks[u], key));
    }
    law_bindings_are_known(
        before,
        frozen,
        Set::empty(),
        our_pids,
        calls,
        replies,
        after,
        left,
        failures,
        keys,
    );
    let ended = keys_by(calls, keys);
    lemma_runs_keep_keys(after, left, reports, done, ended);
    let middle = choose|middle: Engine|
        runs(after, left, reports.drop_last(), middle) && #[trigger] middle.advances(
            left,
            done,
            reports.last(),
        );
    assert(middle.advances(left, done, Progress::Idle));
    assert(pending(done) =~= Seq::<Task>::empty());
    assert(ended =~= Set::<usize>::empty());
}

/// A binding holds from the request that makes it until the one that takes it back, whatever happens to
/// other keys.
pub proof fn law_keys_are_bound_one_by_one(call: SystemCall, keys: Set<usize>, key: usize)
    ensures
        call == SystemCall::Hyprland(HyprRequest::Bind(key)) ==> keys_after(call, keys).contains(
            key,
        ),
        call == SystemCall::Hyprland(HyprRequest::Unbind(key)) ==> !keys_after(
            call,
            keys,
        ).contains(key),
        call != SystemCall::Hyprland(HyprRequest::Bind(key)) && call != SystemCall::Hyprland(
            HyprRequest::Unbind(key),
        ) ==> keys_after(call, keys).contains(key) == keys.contains(key),
{
}

} // verus!
