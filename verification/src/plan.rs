//! What each command does, from what it queues to what it has changed in the end.
use vstd::prelude::*;

use crate::cgroup::teardown_tasks;
use crate::modes::Mode;
use crate::policy::{apply_tasks, restore_tasks, transition_tasks};
use crate::protocol::Request;
use crate::script::{Script, ScriptRun};
use crate::state::{pristine, Saved, STATE_VERSION};
use crate::system::{LogEntry, SystemCall, SystemReply};
use crate::task::{
    bare_freeze, gentle, law_finished_run_leaves_failures_only, lemma_markers_add,
    lemma_unmarked_has_no_markers, markers_of, pauses, rounds, runs, unmarked, Engine, Marker,
    Progress, Task,
};

verus! {

// ---------------------------------------------------------------------------------------------
//  The model
// ---------------------------------------------------------------------------------------------

/// What commands change in a daemon.  What the system decides is left out: which processes are
/// frozen.
pub ghost struct Standing {
    pub mode: Mode,
    pub focus_pid: Option<u32>,
    pub focus_name: Option<Seq<char>>,
    pub workspace_locked: bool,
    /// What goes to the state file, without the frozen processes.
    pub saved: Saved,
}

/// A daemon right after its start.
pub open spec fn fresh() -> Standing {
    Standing {
        mode: Mode::Normal,
        focus_pid: None,
        focus_name: None,
        workspace_locked: false,
        saved: pristine(),
    }
}

/// What reaching a marker does.
pub open spec fn marked(standing: Standing, marker: Marker) -> Standing {
    match marker {
        Marker::EnterMode(mode) => Standing {
            mode,
            saved: Saved { mode, ..standing.saved },
            ..standing
        },
        Marker::FinishMode(mode) => {
            let locked = mode == Mode::SupaaPlus;
            Standing {
                workspace_locked: locked,
                saved: Saved {
                    workspace_locked: locked,
                    clean_shutdown: mode == Mode::Normal || standing.saved.clean_shutdown,
                    ..standing.saved
                },
                ..standing
            }
        },
        Marker::Restored => Standing {
            mode: Mode::Normal,
            focus_pid: None,
            focus_name: None,
            workspace_locked: false,
            saved: Saved {
                mode: Mode::Normal,
                workspace_locked: false,
                clean_shutdown: true,
                focus_app_pid: None,
                focus_app_name: None,
                ..standing.saved
            },
        },
        Marker::ShutDown => Standing {
            saved: Saved {
                mode: Mode::Normal,
                workspace_locked: false,
                clean_shutdown: true,
                ..standing.saved
            },
            ..standing
        },
        Marker::Recovered => standing,
    }
}

/// What reaching some markers, one after the other, does.
pub open spec fn marked_all(standing: Standing, markers: Seq<Marker>) -> Standing
    decreases markers.len(),
{
    if markers.len() == 0 {
        standing
    } else {
        marked_all(marked(standing, markers[0]), markers.skip(1))
    }
}

/// One more marker.
pub proof fn lemma_marked_all_push(standing: Standing, markers: Seq<Marker>, marker: Marker)
    ensures
        marked_all(standing, markers.push(marker)) == marked(
            marked_all(standing, markers),
            marker,
        ),
    decreases markers.len(),
{
    let all = markers.push(marker);
    if markers.len() == 0 {
        assert(all.skip(1) =~= markers);
        assert(marked_all(marked(standing, marker), all.skip(1)) == marked(standing, marker));
    } else {
        assert(all.skip(1) =~= markers.skip(1).push(marker));
        lemma_marked_all_push(marked(standing, markers[0]), markers.skip(1), marker);
    }
}

/// Is the state stamped with the time at a marker?
pub open spec fn stamps(marker: Marker) -> bool {
    match marker {
        Marker::FinishMode(_) => true,
        Marker::Restored => true,
        Marker::ShutDown => true,
        _ => false,
    }
}

/// Is the state stamped with the time at one of some markers?
pub open spec fn stamps_any(markers: Seq<Marker>) -> bool {
    exists|i: int| 0 <= i < markers.len() && stamps(#[trigger] markers[i])
}

/// One more marker stamps the state if it does so itself or an earlier one did.
pub proof fn lemma_stamps_push(markers: Seq<Marker>, marker: Marker)
    ensures
        stamps_any(markers.push(marker)) == (stamps(marker) || stamps_any(markers)),
{
    let all = markers.push(marker);
    if stamps(marker) {
        assert(stamps(all[markers.len() as int]));
    }
    if stamps_any(markers) {
        let i = choose|i: int| 0 <= i < markers.len() && stamps(#[trigger] markers[i]);
        assert(stamps(all[i]));
    }
    if stamps_any(all) && !stamps(marker) {
        let i = choose|i: int| 0 <= i < all.len() && stamps(#[trigger] all[i]);
        assert(stamps(markers[i]));
    }
}

/// The frozen processes in the state file after a marker.
pub open spec fn saved_frozen(marker: Marker, frozen: Set<u32>, saved: Set<u32>) -> Set<u32> {
    match marker {
        Marker::FinishMode(_) => frozen,
        Marker::Restored => Set::empty(),
        Marker::ShutDown => Set::empty(),
        _ => saved,
    }
}

// ---------------------------------------------------------------------------------------------
//  What commands take
// ---------------------------------------------------------------------------------------------

pub open spec fn save_task() -> Task {
    Task::Script(ScriptRun::begin(Script::SaveState))
}

pub open spec fn log_task(entry: LogEntry) -> Task {
    Task::Call(SystemCall::AppendLog(entry))
}

/// What leaving the mode `from` for the mode `to` takes.  Only on the way to `Normal` are the
/// directories removed.
pub open spec fn leave_tasks(from: Mode, to: Mode) -> Seq<Task> {
    if from == Mode::Normal {
        seq![]
    } else if to == Mode::Normal {
        transition_tasks() + teardown_tasks()
    } else {
        transition_tasks()
    }
}

/// What changing from the mode `from` to the mode `to` takes.
pub open spec fn set_mode_tasks(from: Mode, to: Mode, focus_pid: Option<u32>) -> Seq<Task> {
    seq![save_task()] + leave_tasks(from, to) + seq![Task::Mark(Marker::EnterMode(to))]
        + apply_tasks(to, focus_pid) + seq![
        Task::Mark(Marker::FinishMode(to)),
        save_task(),
        log_task(LogEntry::ModeSet(to)),
    ]
}

/// What an emergency restoration takes.
pub open spec fn emergency_tasks() -> Seq<Task> {
    seq![log_task(LogEntry::EmergencyTriggered), save_task()] + restore_tasks() + seq![
        Task::Mark(Marker::Restored),
        save_task(),
        log_task(LogEntry::EmergencyComplete),
    ]
}

/// What a clean shutdown takes.
pub open spec fn shutdown_tasks() -> Seq<Task> {
    seq![log_task(LogEntry::ShutdownStarted), save_task()] + restore_tasks() + seq![
        Task::Mark(Marker::ShutDown),
        save_task(),
        log_task(LogEntry::ShutdownComplete),
    ]
}

/// The tasks that a command queues.
pub open spec fn plan(standing: Standing, request: Request) -> Seq<Task> {
    match request {
        Request::SetMode { mode } => if mode == standing.mode {
            seq![]
        } else {
            set_mode_tasks(standing.mode, mode, standing.focus_pid)
        },
        Request::SetFocusApp { pid, .. } => seq![Task::MoveTree(pid)],
        Request::ClearFocusApp => match standing.focus_pid {
            Some(pid) => seq![Task::ReleaseTree(pid)],
            None => seq![],
        },
        Request::GetStatus => seq![],
        Request::GetProcessList => seq![Task::ListProcesses],
        Request::Shutdown => shutdown_tasks(),
        Request::EmergencyRestore { .. } => emergency_tasks(),
    }
}

/// The standing with its state marked as dirty.
pub open spec fn dirtied(standing: Standing) -> Standing {
    Standing { saved: Saved { clean_shutdown: false, ..standing.saved }, ..standing }
}

/// The standing with another focus application.
pub open spec fn refocused(standing: Standing, pid: Option<u32>, name: Option<Seq<char>>) -> Standing {
    Standing {
        focus_pid: pid,
        focus_name: name,
        saved: Saved { focus_app_pid: pid, focus_app_name: name, ..standing.saved },
        ..standing
    }
}

/// What a command changes at once.
pub open spec fn begun(standing: Standing, request: Request) -> Standing {
    match request {
        Request::SetMode { mode } => if mode == standing.mode {
            standing
        } else {
            dirtied(standing)
        },
        Request::SetFocusApp { pid, name } => refocused(standing, Some(pid), Some(name)),
        Request::ClearFocusApp => refocused(standing, None, None),
        Request::GetStatus => standing,
        Request::GetProcessList => standing,
        Request::Shutdown => dirtied(standing),
        Request::EmergencyRestore { .. } => dirtied(standing),
    }
}

/// Does a command stamp the state with the time at once?
pub open spec fn stamps_at_once(standing: Standing, request: Request) -> bool {
    match request {
        Request::SetMode { mode } => mode != standing.mode,
        Request::Shutdown => true,
        Request::EmergencyRestore { .. } => true,
        _ => false,
    }
}

/// Does the daemon exit after the command?
pub open spec fn exits(request: Request) -> bool {
    match request {
        Request::Shutdown => true,
        Request::EmergencyRestore { quit_after } => quit_after,
        _ => false,
    }
}

/// What a command has changed when it is finished, whatever the system replied.
pub open spec fn effect(standing: Standing, request: Request) -> Standing {
    match request {
        Request::SetMode { mode } => if mode == standing.mode {
            standing
        } else {
            Standing {
                mode,
                workspace_locked: mode == Mode::SupaaPlus,
                saved: Saved {
                    mode,
                    workspace_locked: mode == Mode::SupaaPlus,
                    clean_shutdown: mode == Mode::Normal,
                    ..standing.saved
                },
                ..standing
            }
        },
        Request::SetFocusApp { pid, name } => refocused(standing, Some(pid), Some(name)),
        Request::ClearFocusApp => refocused(standing, None, None),
        Request::GetStatus => standing,
        Request::GetProcessList => standing,
        Request::Shutdown => Standing {
            saved: Saved {
                mode: Mode::Normal,
                workspace_locked: false,
                clean_shutdown: true,
                ..standing.saved
            },
            ..standing
        },
        Request::EmergencyRestore { .. } => Standing {
            mode: Mode::Normal,
            focus_pid: None,
            focus_name: None,
            workspace_locked: false,
            saved: Saved {
                mode: Mode::Normal,
                workspace_locked: false,
                clean_shutdown: true,
                focus_app_pid: None,
                focus_app_name: None,
                ..standing.saved
            },
        },
    }
}

/// The frozen processes in the state file after some markers.
pub open spec fn saved_frozen_all(
    markers: Seq<Marker>,
    frozen: Set<u32>,
    saved: Set<u32>,
) -> Set<u32>
    decreases markers.len(),
{
    if markers.len() == 0 {
        saved
    } else {
        saved_frozen(
            markers.last(),
            frozen,
            saved_frozen_all(markers.drop_last(), frozen, saved),
        )
    }
}

proof fn lemma_plain_parts(mode: Mode, from: Mode, focus_pid: Option<u32>)
    ensures
        unmarked(restore_tasks()),
        unmarked(leave_tasks(from, mode)),
        unmarked(apply_tasks(mode, focus_pid)),
{
}

proof fn lemma_one_marker(before: Seq<Task>, marker: Marker, after: Seq<Task>)
    requires
        unmarked(before),
        unmarked(after),
    ensures
        markers_of(before + seq![Task::Mark(marker)] + after) == seq![marker],
{
    let one = seq![Task::Mark(marker)];
    lemma_unmarked_has_no_markers(before);
    lemma_unmarked_has_no_markers(after);
    lemma_markers_add(before, one);
    lemma_markers_add(before + one, after);
    assert(one.skip(1) =~= seq![]);
    reveal_with_fuel(markers_of, 2);
    assert(markers_of(one) =~= seq![marker]);
    assert(markers_of(before + one + after) =~= seq![marker]);
}

proof fn lemma_two_markers(standing: Standing, a: Marker, b: Marker)
    ensures
        marked_all(standing, seq![a]) == marked(standing, a),
        marked_all(standing, seq![a, b]) == marked(marked(standing, a), b),
{
    assert(seq![a].skip(1) =~= seq![]);
    assert(seq![a, b].skip(1) =~= seq![b]);
    assert(seq![b].skip(1) =~= seq![]);
    reveal_with_fuel(marked_all, 3);
}

/// What a command changes at once, and then at the markers that it queues, is its effect.
pub proof fn lemma_plan_has_effect(standing: Standing, request: Request)
    ensures
        marked_all(begun(standing, request), markers_of(plan(standing, request))) == effect(
            standing,
            request,
        ),
{
    let start = begun(standing, request);
    match request {
        Request::SetMode { mode } => {
            if mode != standing.mode {
                lemma_plain_parts(mode, standing.mode, standing.focus_pid);
                let first = seq![save_task()] + leave_tasks(standing.mode, mode);
                let second = apply_tasks(mode, standing.focus_pid);
                let third = seq![save_task(), log_task(LogEntry::ModeSet(mode))];
                let a = Marker::EnterMode(mode);
                let b = Marker::FinishMode(mode);
                let none = Seq::<Task>::empty();
                let left = first + seq![Task::Mark(a)] + none;
                let right = second + seq![Task::Mark(b)] + third;
                assert(unmarked(first));
                assert(unmarked(third));
                lemma_one_marker(first, a, none);
                lemma_one_marker(second, b, third);
                assert(plan(standing, request) =~= left + right);
                lemma_markers_add(left, right);
                assert(markers_of(plan(standing, request)) =~= seq![a, b]);
                lemma_two_markers(start, a, b);
            }
        },
        Request::Shutdown => {
            lemma_plain_parts(Mode::Normal, Mode::Normal, None);
            let first = seq![log_task(LogEntry::ShutdownStarted), save_task()] + restore_tasks();
            let last = seq![save_task(), log_task(LogEntry::ShutdownComplete)];
            let m = Marker::ShutDown;
            assert(unmarked(first));
            lemma_one_marker(first, m, last);
            assert(plan(standing, request) =~= first + seq![Task::Mark(m)] + last);
            lemma_two_markers(start, m, m);
        },
        Request::EmergencyRestore { .. } => {
            lemma_plain_parts(Mode::Normal, Mode::Normal, None);
            let first = seq![log_task(LogEntry::EmergencyTriggered), save_task()] + restore_tasks();
            let last = seq![save_task(), log_task(LogEntry::EmergencyComplete)];
            let m = Marker::Restored;
            assert(unmarked(first));
            lemma_one_marker(first, m, last);
            assert(plan(standing, request) =~= first + seq![Task::Mark(m)] + last);
            lemma_two_markers(start, m, m);
        },
        _ => {
            assert(unmarked(plan(standing, request)));
            lemma_unmarked_has_no_markers(plan(standing, request));
        },
    }
}

/// Does no task of the list freeze a process by itself?
pub open spec fn freezes_nothing(tasks: Seq<Task>) -> bool {
    forall|i: int|
        0 <= i < tasks.len() ==> !(#[trigger] tasks[i] is Freeze) && !bare_freeze(tasks[i])
}

/// No command freezes a process before the processes have been scanned.
pub proof fn law_commands_scan_before_freezing(standing: Standing, request: Request)
    ensures
        freezes_nothing(plan(standing, request)),
{
    assert(freezes_nothing(restore_tasks()));
    assert(freezes_nothing(transition_tasks()));
    assert(freezes_nothing(teardown_tasks()));
    match request {
        Request::SetMode { mode } => {
            assert(freezes_nothing(leave_tasks(standing.mode, mode)));
            assert(freezes_nothing(apply_tasks(mode, standing.focus_pid)));
        },
        _ => {},
    }
}

// ---------------------------------------------------------------------------------------------
//  Laws
// ---------------------------------------------------------------------------------------------

/// Does the state that goes to the file mirror the daemon, is it clean in `Normal` mode only, and has
/// a focus application both a number and a name?
pub open spec fn consistent(standing: Standing) -> bool {
    &&& standing.saved.version == STATE_VERSION
    &&& standing.saved.frozen_pids == Set::<u32>::empty()
    &&& standing.saved.mode == standing.mode
    &&& standing.saved.focus_app_pid == standing.focus_pid
    &&& standing.saved.focus_app_name == standing.focus_name
    &&& standing.focus_pid is Some == standing.focus_name is Some
    &&& standing.saved.workspace_locked == standing.workspace_locked
    &&& standing.workspace_locked == (standing.mode == Mode::SupaaPlus)
    &&& standing.saved.clean_shutdown == (standing.mode == Mode::Normal)
}

/// A daemon starts consistent, and every command after which it goes on keeps it so.
pub proof fn law_commands_keep_consistency(standing: Standing, request: Request)
    requires
        consistent(standing),
        request !is Shutdown,
    ensures
        consistent(fresh()),
        consistent(effect(standing, request)),
{
}

/// A shutdown leaves a clean state behind, in `Normal` mode and without a lock.
pub proof fn law_shutdown_leaves_clean_state(standing: Standing)
    ensures
        effect(standing, Request::Shutdown).saved.clean_shutdown,
        effect(standing, Request::Shutdown).saved.mode == Mode::Normal,
        !effect(standing, Request::Shutdown).saved.workspace_locked,
{
}

/// An emergency restoration leads back to where the daemon started, from wherever it is.
pub proof fn law_emergency_starts_over(standing: Standing, quit_after: bool)
    requires
        consistent(standing),
    ensures
        effect(standing, Request::EmergencyRestore { quit_after }) == fresh(),
{
}

/// To set the mode that the daemon is in already changes nothing and takes nothing.
pub proof fn law_same_mode_is_skipped(standing: Standing)
    ensures
        plan(standing, Request::SetMode { mode: standing.mode }) == Seq::<Task>::empty(),
        begun(standing, Request::SetMode { mode: standing.mode }) == standing,
        effect(standing, Request::SetMode { mode: standing.mode }) == standing,
{
}

/// The way back to `Normal` undoes a change of mode.
pub proof fn law_normal_undoes_a_mode(standing: Standing, mode: Mode)
    requires
        consistent(standing),
        standing.mode == Mode::Normal,
    ensures
        effect(
            effect(standing, Request::SetMode { mode }),
            Request::SetMode { mode: Mode::Normal },
        ) == standing,
{
}

/// Only the last mode that was set counts.
pub proof fn law_last_mode_counts(standing: Standing, first: Mode, second: Mode)
    requires
        consistent(standing),
    ensures
        effect(
            effect(standing, Request::SetMode { mode: first }),
            Request::SetMode { mode: second },
        ) == effect(standing, Request::SetMode { mode: second }),
{
}

/// The mode and the focus application are independent: a change of mode keeps the focus
/// application, and a change of the focus application keeps the mode.
pub proof fn law_mode_and_focus_are_independent(
    standing: Standing,
    mode: Mode,
    pid: u32,
    name: Seq<char>,
)
    ensures
        effect(standing, Request::SetMode { mode }).focus_pid == standing.focus_pid,
        effect(standing, Request::SetMode { mode }).focus_name == standing.focus_name,
        effect(standing, Request::SetFocusApp { pid, name }).mode == standing.mode,
        effect(standing, Request::ClearFocusApp).mode == standing.mode,
        effect(
            effect(standing, Request::SetMode { mode }),
            Request::SetFocusApp { pid, name },
        ) == effect(
            effect(standing, Request::SetFocusApp { pid, name }),
            Request::SetMode { mode },
        ),
{
}

/// To clear the focus application undoes setting one.
pub proof fn law_clear_undoes_focus(standing: Standing, pid: u32, name: Seq<char>)
    requires
        consistent(standing),
        standing.focus_pid is None,
    ensures
        effect(
            effect(standing, Request::SetFocusApp { pid, name }),
            Request::ClearFocusApp,
        ) == standing,
        plan(
            effect(standing, Request::SetFocusApp { pid, name }),
            Request::ClearFocusApp,
        ) == seq![Task::ReleaseTree(pid)],
{
}

/// Questions change nothing.
pub proof fn law_questions_change_nothing(standing: Standing)
    ensures
        effect(standing, Request::GetStatus) == standing,
        effect(standing, Request::GetProcessList) == standing,
        plan(standing, Request::GetStatus) == Seq::<Task>::empty(),
{
}

/// Is the state file dirty whenever a task of the list touches the system?
///
/// `clean` is whether the state in memory is clean, and `saved_clean` is whether the one in the file
/// is.  `outcomes` says of one attempt after the other to save the state whether it succeeds; one that
/// fails leaves the file as it is.  Every task touches the system but those that log, that save the
/// state, or that only mark a point.  A task that chooses what to freeze saves the state too, whether
/// or not it succeeds, so that the state in memory must be dirty as well.
pub open spec fn noticed(
    tasks: Seq<Task>,
    clean: bool,
    saved_clean: bool,
    outcomes: Seq<bool>,
) -> bool
    decreases tasks.len(),
{
    if tasks.len() == 0 {
        true
    } else {
        let rest = tasks.skip(1);
        match tasks[0] {
            Task::Mark(marker) => noticed(
                rest,
                leaves_clean(marker, clean),
                saved_clean,
                outcomes,
            ),
            Task::Script(run) => if run == ScriptRun::begin(Script::SaveState) {
                noticed(rest, clean, saved(clean, saved_clean, outcomes), outcomes.skip(1))
            } else {
                !saved_clean && noticed(rest, clean, saved_clean, outcomes)
            },
            Task::Call(SystemCall::AppendLog(_)) => noticed(rest, clean, saved_clean, outcomes),
            Task::FreezeBackground(_) => !clean && !saved_clean && noticed(
                rest,
                clean,
                saved_clean,
                outcomes,
            ),
            _ => !saved_clean && noticed(rest, clean, saved_clean, outcomes),
        }
    }
}

/// Is the state in the file clean after the next attempt to save it?
pub open spec fn saved(clean: bool, saved_clean: bool, outcomes: Seq<bool>) -> bool {
    if outcomes[0] {
        clean
    } else {
        saved_clean
    }
}

/// Is the state clean after a marker?
pub open spec fn leaves_clean(marker: Marker, clean: bool) -> bool {
    match marker {
        Marker::FinishMode(mode) => mode == Mode::Normal || clean,
        Marker::Restored => true,
        Marker::ShutDown => true,
        _ => clean,
    }
}

/// Does every task of the list touch the system?
spec fn touches(tasks: Seq<Task>) -> bool {
    &&& unmarked(tasks)
    &&& forall|i: int| 0 <= i < tasks.len() ==> #[trigger] tasks[i] != save_task()
}

proof fn lemma_noticed_past(tasks: Seq<Task>, more: Seq<Task>, outcomes: Seq<bool>)
    requires
        touches(tasks),
    ensures
        noticed(tasks + more, false, false, outcomes) == noticed(more, false, false, outcomes),
    decreases tasks.len(),
{
    if tasks.len() == 0 {
        assert(tasks + more =~= more);
    } else {
        let all = tasks + more;
        let rest = tasks.skip(1);
        assert(all[0] == tasks[0]);
        assert(all.skip(1) =~= rest + more);
        assert forall|i: int| 0 <= i < rest.len() implies #[trigger] rest[i] != save_task() && !(
        rest[i] is Mark) by {
            assert(rest[i] == tasks[i + 1]);
        }
        lemma_noticed_past(rest, more, outcomes);
    }
}

proof fn lemma_noticed_next(
    task: Task,
    more: Seq<Task>,
    clean: bool,
    saved_clean: bool,
    outcomes: Seq<bool>,
)
    ensures
        task == save_task() ==> noticed(seq![task] + more, clean, saved_clean, outcomes) == noticed(
            more,
            clean,
            saved(clean, saved_clean, outcomes),
            outcomes.skip(1),
        ),
        task is Mark ==> noticed(seq![task] + more, clean, saved_clean, outcomes) == noticed(
            more,
            leaves_clean(task->Mark_0, clean),
            saved_clean,
            outcomes,
        ),
        task matches Task::Call(SystemCall::AppendLog(_)) ==> noticed(
            seq![task] + more,
            clean,
            saved_clean,
            outcomes,
        ) == noticed(more, clean, saved_clean, outcomes),
{
    assert((seq![task] + more).skip(1) =~= more);
    assert((seq![task] + more)[0] == task);
}

/// An interrupted change of mode, restoration or shutdown is noticed: whenever it touches the
/// system, the state file is dirty, provided that the first attempt to save the state succeeds or
/// that the file was dirty before.
///
/// A failed attempt stops nothing, so that without this premise the file may be clean.
pub proof fn law_interruption_is_noticed(
    standing: Standing,
    request: Request,
    saved_clean: bool,
    outcomes: Seq<bool>,
)
    requires
        request is SetMode || request is Shutdown || request is EmergencyRestore,
        outcomes.len() >= 2,
        outcomes[0] || !saved_clean,
    ensures
        noticed(
            plan(standing, request),
            begun(standing, request).saved.clean_shutdown,
            saved_clean,
            outcomes,
        ),
{
    let none = Seq::<Task>::empty();
    match request {
        Request::SetMode { mode } => {
            if mode != standing.mode {
                lemma_plain_parts(mode, standing.mode, standing.focus_pid);
                let leaving = leave_tasks(standing.mode, mode);
                let applying = apply_tasks(mode, standing.focus_pid);
                let enter = Task::Mark(Marker::EnterMode(mode));
                let finish = Task::Mark(Marker::FinishMode(mode));
                let log = log_task(LogEntry::ModeSet(mode));
                let clean = mode == Mode::Normal;
                let later = outcomes.skip(1);
                let file = saved(clean, false, later);
                assert(touches(leaving));
                assert(touches(applying));
                let a = seq![log] + none;
                let b = seq![save_task()] + a;
                let c = seq![finish] + b;
                let d = applying + c;
                let e = seq![enter] + d;
                let f = leaving + e;
                let g = seq![save_task()] + f;
                assert(plan(standing, request) =~= g);
                lemma_noticed_next(log, none, clean, file, later.skip(1));
                lemma_noticed_next(save_task(), a, clean, false, later);
                lemma_noticed_next(finish, b, false, false, later);
                lemma_noticed_past(applying, c, later);
                lemma_noticed_next(enter, d, false, false, later);
                lemma_noticed_past(leaving, e, later);
                lemma_noticed_next(save_task(), f, false, saved_clean, outcomes);
            }
        },
        Request::Shutdown => {
            lemma_restoration_is_noticed(
                log_task(LogEntry::ShutdownStarted),
                Marker::ShutDown,
                log_task(LogEntry::ShutdownComplete),
                saved_clean,
                outcomes,
            );
        },
        _ => {
            lemma_restoration_is_noticed(
                log_task(LogEntry::EmergencyTriggered),
                Marker::Restored,
                log_task(LogEntry::EmergencyComplete),
                saved_clean,
                outcomes,
            );
        },
    }
}

proof fn lemma_restoration_is_noticed(
    first: Task,
    marker: Marker,
    last: Task,
    saved_clean: bool,
    outcomes: Seq<bool>,
)
    requires
        first matches Task::Call(SystemCall::AppendLog(_)),
        last matches Task::Call(SystemCall::AppendLog(_)),
        marker is Restored || marker is ShutDown,
        outcomes.len() >= 2,
        outcomes[0] || !saved_clean,
    ensures
        noticed(
            seq![first, save_task()] + restore_tasks() + seq![
                Task::Mark(marker),
                save_task(),
                last,
            ],
            false,
            saved_clean,
            outcomes,
        ),
{
    lemma_plain_parts(Mode::Normal, Mode::Normal, None);
    assert(touches(restore_tasks()));
    let none = Seq::<Task>::empty();
    let later = outcomes.skip(1);
    let file = saved(true, false, later);
    let a = seq![last] + none;
    let b = seq![save_task()] + a;
    let c = seq![Task::Mark(marker)] + b;
    let d = restore_tasks() + c;
    let e = seq![save_task()] + d;
    let f = seq![first] + e;
    assert(seq![first, save_task()] + restore_tasks() + seq![
        Task::Mark(marker),
        save_task(),
        last,
    ] =~= f);
    lemma_noticed_next(last, none, true, file, later.skip(1));
    lemma_noticed_next(save_task(), a, true, false, later);
    lemma_noticed_next(Task::Mark(marker), b, false, false, later);
    lemma_noticed_past(restore_tasks(), c, later);
    lemma_noticed_next(save_task(), d, false, saved_clean, outcomes);
    lemma_noticed_next(first, e, false, saved_clean, outcomes);
}

/// Is the state stamped with the time right before the task at a place in the plan of a command?
///
/// It is if the task follows a marker that stamps it, or if the command stamped it at once and only
/// wrote to the log since.
pub open spec fn stamped_before(standing: Standing, request: Request, i: int) -> bool {
    let tasks = plan(standing, request);
    ||| i > 0 && (tasks[i - 1] matches Task::Mark(marker) && stamps(marker))
    ||| stamps_at_once(standing, request) && forall|j: int|
        0 <= j < i ==> #[trigger] tasks[j] matches Task::Call(SystemCall::AppendLog(_))
}

/// Whenever the plan of a command has the state written, it was stamped with the time right before.
pub proof fn law_every_write_is_stamped(standing: Standing, request: Request, i: int)
    requires
        0 <= i < plan(standing, request).len(),
        plan(standing, request)[i] == save_task(),
    ensures
        stamped_before(standing, request, i),
{
    let tasks = plan(standing, request);
    match request {
        Request::SetMode { mode } => {
            let leaving = leave_tasks(standing.mode, mode);
            let applying = apply_tasks(mode, standing.focus_pid);
            lemma_plain_parts(mode, standing.mode, standing.focus_pid);
            assert(touches(leaving));
            assert(touches(applying));
            let n = leaving.len() as int;
            let m = applying.len() as int;
            if 1 <= i < n + 1 {
                assert(tasks[i] == leaving[i - 1]);
            } else if n + 2 <= i < n + 2 + m {
                assert(tasks[i] == applying[i - n - 2]);
            } else if i > 0 {
                assert(i == n + m + 3);
                assert(tasks[i - 1] == Task::Mark(Marker::FinishMode(mode)));
            }
        },
        _ => {
            lemma_plain_parts(Mode::Normal, Mode::Normal, None);
            assert(touches(restore_tasks()));
            let n = restore_tasks().len() as int;
            if 2 <= i < n + 2 {
                assert(tasks[i] == restore_tasks()[i - 2]);
            } else if i > 1 {
                assert(i == n + 3);
            }
        },
    }
}

/// Does a command leave nothing frozen on purpose?
pub open spec fn restores(standing: Standing, request: Request) -> bool {
    match request {
        Request::SetMode { mode } => mode != standing.mode && mode != Mode::SupaaPlus,
        Request::Shutdown => true,
        Request::EmergencyRestore { .. } => true,
        _ => false,
    }
}

/// After a change to a mode other than `SupaaPlus`, a shutdown or an emergency restoration, only
/// processes whose thawing failed are still frozen, whatever the system replied on the way.
pub proof fn law_restoring_leaves_failures_only(
    standing: Standing,
    request: Request,
    before: Engine,
    frozen: Set<u32>,
    our_pids: Set<u32>,
    calls: Seq<SystemCall>,
    replies: Seq<SystemReply>,
    after: Engine,
    left: Set<u32>,
    failures: Set<u32>,
    reports: Seq<Progress>,
    done: Engine,
)
    requires
        restores(standing, request),
        before.current is None,
        before.queue@ == plan(standing, request),
        rounds(before, frozen, Set::empty(), our_pids, calls, replies, after, left, failures),
        runs(after, left, reports, done),
        pauses(reports),
        reports.last() is Idle,
    ensures
        left.subset_of(failures),
        done.is_idle(),
{
    let tasks = plan(standing, request);
    assert(gentle(restore_tasks()) && restore_tasks()[0] is ThawAll);
    match request {
        Request::SetMode { mode } => {
            let leaving = leave_tasks(standing.mode, mode);
            let applying = apply_tasks(mode, standing.focus_pid);
            assert(gentle(leaving));
            assert(gentle(applying));
            if standing.mode == Mode::Normal {
                let n = applying.len() as int;
                assert(applying[n - 1] == Task::ThawAll);
                assert(tasks[1 + leaving.len() as int + n] == Task::ThawAll);
            } else {
                assert(leaving[0] == Task::ThawAll);
                assert(tasks[1] == Task::ThawAll);
            }
        },
        _ => {
            assert(tasks[2] == Task::ThawAll);
        },
    }
    law_finished_run_leaves_failures_only(
        before,
        frozen,
        our_pids,
        calls,
        replies,
        after,
        left,
        failures,
        reports,
        done,
    );
}

// ---------------------------------------------------------------------------------------------
//  Laws of single commands
// ---------------------------------------------------------------------------------------------

/// A change of mode saves the state, leaves the old mode, enters and applies the new one with the focus
/// application that there is, finishes, saves the state again and logs the new mode, in this order.  The
/// way from `Normal` has nothing to leave; the way back to it also takes the directories away.
pub proof fn law_mode_changes_in_order(standing: Standing, mode: Mode)
    requires
        mode != standing.mode,
    ensures
        ({
            let tasks = plan(standing, Request::SetMode { mode });
            let applied = apply_tasks(mode, standing.focus_pid);
            let left = if standing.mode == Mode::Normal {
                1int
            } else if mode == Mode::Normal {
                18
            } else {
                8
            };
            let end = left + 1 + applied.len() as int;
            &&& tasks.len() == end + 3
            &&& tasks[0] == Task::Script(ScriptRun::begin(Script::SaveState))
            &&& left > 1 ==> tasks.subrange(1, 8) == transition_tasks()
            &&& left > 8 ==> tasks.subrange(8, 18) == teardown_tasks()
            &&& tasks[left] == Task::Mark(Marker::EnterMode(mode))
            &&& tasks.subrange(left + 1, end) == applied
            &&& tasks[end] == Task::Mark(Marker::FinishMode(mode))
            &&& tasks[end + 1] == Task::Script(ScriptRun::begin(Script::SaveState))
            &&& tasks[end + 2] == Task::Call(
                SystemCall::AppendLog(LogEntry::ModeSet(mode)),
            )
        }),
{
    let tasks = plan(standing, Request::SetMode { mode });
    let applied = apply_tasks(mode, standing.focus_pid);
    let left = 1 + leave_tasks(standing.mode, mode).len() as int;
    assert(transition_tasks().len() == 7 && teardown_tasks().len() == 10);
    if left > 1 {
        assert(tasks.subrange(1, 8) =~= transition_tasks());
    }
    if left > 8 {
        assert(tasks.subrange(8, 18) =~= teardown_tasks());
    }
    assert(tasks.subrange(left + 1, left + 1 + applied.len() as int) =~= applied);
}

/// An emergency restoration and a shutdown log their begin, save the state, restore everything, settle
/// what the daemon holds, save the state again and log their end, in this order.
pub proof fn law_restorations_go_in_order(standing: Standing, quit_after: bool)
    ensures
        ({
            let tasks = plan(standing, Request::EmergencyRestore { quit_after });
            &&& tasks.len() == 17
            &&& tasks[0] == Task::Call(SystemCall::AppendLog(LogEntry::EmergencyTriggered))
            &&& tasks[1] == Task::Script(ScriptRun::begin(Script::SaveState))
            &&& tasks.subrange(2, 14) == restore_tasks()
            &&& tasks[14] == Task::Mark(Marker::Restored)
            &&& tasks[15] == Task::Script(ScriptRun::begin(Script::SaveState))
            &&& tasks[16] == Task::Call(SystemCall::AppendLog(LogEntry::EmergencyComplete))
        }),
        ({
            let tasks = plan(standing, Request::Shutdown);
            &&& tasks.len() == 17
            &&& tasks[0] == Task::Call(SystemCall::AppendLog(LogEntry::ShutdownStarted))
            &&& tasks[1] == Task::Script(ScriptRun::begin(Script::SaveState))
            &&& tasks.subrange(2, 14) == restore_tasks()
            &&& tasks[14] == Task::Mark(Marker::ShutDown)
            &&& tasks[15] == Task::Script(ScriptRun::begin(Script::SaveState))
            &&& tasks[16] == Task::Call(SystemCall::AppendLog(LogEntry::ShutdownComplete))
        }),
{
    assert(restore_tasks().len() == 12);
    assert(plan(standing, Request::EmergencyRestore { quit_after }).subrange(2, 14)
        =~= restore_tasks());
    assert(plan(standing, Request::Shutdown).subrange(2, 14) =~= restore_tasks());
}

/// Setting the focus application moves its tree; clearing it moves the tree of the one that was set back;
/// a question for the processes scans them.  Each is all that is done.
pub proof fn law_small_commands_take_one_task(standing: Standing, pid: u32, name: Seq<char>)
    ensures
        plan(standing, Request::SetFocusApp { pid, name }) == seq![Task::MoveTree(pid)],
        standing.focus_pid matches Some(old_pid) ==> plan(standing, Request::ClearFocusApp) == seq![
            Task::ReleaseTree(old_pid),
        ],
        standing.focus_pid is None ==> plan(standing, Request::ClearFocusApp).len() == 0,
        plan(standing, Request::GetProcessList) == seq![Task::ListProcesses],
{
}

/// After a change of mode the daemon and its state are in the new mode, locked in `SupaaPlus` only, and
/// clean in `Normal` only.  The focus application stays.
pub proof fn law_mode_is_in_effect(standing: Standing, mode: Mode)
    requires
        mode != standing.mode,
    ensures
        ({
            let after = effect(standing, Request::SetMode { mode });
            &&& after.mode == mode
            &&& after.saved.mode == mode
            &&& after.workspace_locked <==> mode == Mode::SupaaPlus
            &&& after.saved.workspace_locked <==> mode == Mode::SupaaPlus
            &&& after.saved.clean_shutdown <==> mode == Mode::Normal
            &&& after.focus_pid == standing.focus_pid
            &&& after.focus_name == standing.focus_name
            &&& after.saved.focus_app_pid == standing.saved.focus_app_pid
            &&& after.saved.focus_app_name == standing.saved.focus_app_name
            &&& after.saved.version == standing.saved.version
        }),
{
}

/// After the focus application was set, or cleared, the daemon and its state know it by its number and
/// name, or know of none.  Nothing else changes.
pub proof fn law_focus_is_in_effect(standing: Standing, pid: u32, name: Seq<char>)
    ensures
        ({
            let after = effect(standing, Request::SetFocusApp { pid, name });
            &&& after.focus_pid == Some(pid)
            &&& after.focus_name == Some(name)
            &&& after.saved.focus_app_pid == Some(pid)
            &&& after.saved.focus_app_name == Some(name)
            &&& after.mode == standing.mode
            &&& after.workspace_locked == standing.workspace_locked
            &&& after.saved.mode == standing.saved.mode
            &&& after.saved.workspace_locked == standing.saved.workspace_locked
            &&& after.saved.clean_shutdown == standing.saved.clean_shutdown
            &&& after.saved.frozen_pids == standing.saved.frozen_pids
        }),
        ({
            let after = effect(standing, Request::ClearFocusApp);
            &&& after.focus_pid is None
            &&& after.focus_name is None
            &&& after.saved.focus_app_pid is None
            &&& after.saved.focus_app_name is None
            &&& after.mode == standing.mode
            &&& after.workspace_locked == standing.workspace_locked
            &&& after.saved.mode == standing.saved.mode
            &&& after.saved.workspace_locked == standing.saved.workspace_locked
            &&& after.saved.clean_shutdown == standing.saved.clean_shutdown
            &&& after.saved.frozen_pids == standing.saved.frozen_pids
        }),
{
}

/// An emergency restoration leaves nothing in focus and nothing locked, in `Normal`, whatever was before.
/// A shutdown leaves the daemon itself as it is, and the focus application in the state.
pub proof fn law_restorations_are_in_effect(standing: Standing, quit_after: bool)
    ensures
        ({
            let after = effect(standing, Request::EmergencyRestore { quit_after });
            &&& after.mode == Mode::Normal
            &&& after.focus_pid is None
            &&& after.focus_name is None
            &&& !after.workspace_locked
            &&& after.saved.mode == Mode::Normal
            &&& !after.saved.workspace_locked
            &&& after.saved.clean_shutdown
            &&& after.saved.focus_app_pid is None
            &&& after.saved.focus_app_name is None
        }),
        ({
            let after = effect(standing, Request::Shutdown);
            &&& after.mode == standing.mode
            &&& after.focus_pid == standing.focus_pid
            &&& after.focus_name == standing.focus_name
            &&& after.workspace_locked == standing.workspace_locked
            &&& after.saved.focus_app_pid == standing.saved.focus_app_pid
            &&& after.saved.focus_app_name == standing.saved.focus_app_name
        }),
{
}

/// A command that touches the system marks the state as dirty, and stamps it, before anything is done.
/// No other command does, and nothing else changes at once but the focus application.
pub proof fn law_state_is_dirty_at_once(standing: Standing, request: Request)
    ensures
        stamps_at_once(standing, request) <==> {
            ||| request is Shutdown
            ||| request is EmergencyRestore
            ||| request matches Request::SetMode { mode } && mode != standing.mode
        },
        stamps_at_once(standing, request) ==> !begun(standing, request).saved.clean_shutdown,
        !stamps_at_once(standing, request) ==> begun(standing, request).saved.clean_shutdown
            == standing.saved.clean_shutdown,
        begun(standing, request).mode == standing.mode,
        begun(standing, request).workspace_locked == standing.workspace_locked,
        begun(standing, request).saved.mode == standing.saved.mode,
        request !is SetFocusApp && request !is ClearFocusApp ==> begun(standing, request).focus_pid
            == standing.focus_pid && begun(standing, request).focus_name == standing.focus_name,
{
}

/// The daemon exits after a shutdown, and after an emergency restoration that asks for it.
pub proof fn law_daemon_exits_when_asked(request: Request)
    ensures
        exits(request) <==> {
            ||| request is Shutdown
            ||| request == (Request::EmergencyRestore { quit_after: true })
        },
{
}

/// At the end of a change of mode the state lists what is frozen; after a restoration it lists nothing;
/// at other points the list stays.  Only then is the state stamped.
pub proof fn law_state_lists_the_frozen(
    mode: Mode,
    frozen: Set<u32>,
    listed: Set<u32>,
    marker: Marker,
)
    ensures
        saved_frozen(Marker::FinishMode(mode), frozen, listed) == frozen,
        saved_frozen(Marker::Restored, frozen, listed).is_empty(),
        saved_frozen(Marker::ShutDown, frozen, listed).is_empty(),
        saved_frozen(Marker::EnterMode(mode), frozen, listed) == listed,
        saved_frozen(Marker::Recovered, frozen, listed) == listed,
        stamps(marker) <==> marker is FinishMode || marker is Restored || marker is ShutDown,
{
}

/// Entering a mode changes the mode alone.  Finishing it settles the lock, and cleans the state only in
/// `Normal`.  A shutdown cleans the state and leaves what the daemon holds.
pub proof fn law_markers_settle(standing: Standing, mode: Mode)
    ensures
        ({
            let after = marked(standing, Marker::EnterMode(mode));
            &&& after.mode == mode
            &&& after.saved.mode == mode
            &&& after.workspace_locked == standing.workspace_locked
            &&& after.saved.clean_shutdown == standing.saved.clean_shutdown
            &&& after.focus_pid == standing.focus_pid
            &&& after.focus_name == standing.focus_name
        }),
        ({
            let after = marked(standing, Marker::FinishMode(mode));
            &&& after.mode == standing.mode
            &&& after.saved.mode == standing.saved.mode
            &&& after.workspace_locked <==> mode == Mode::SupaaPlus
            &&& after.saved.workspace_locked <==> mode == Mode::SupaaPlus
            &&& after.saved.clean_shutdown <==> mode == Mode::Normal
                || standing.saved.clean_shutdown
            &&& after.focus_pid == standing.focus_pid
            &&& after.focus_name == standing.focus_name
        }),
        ({
            let after = marked(standing, Marker::Restored);
            &&& after.mode == Mode::Normal
            &&& after.focus_pid is None
            &&& after.focus_name is None
            &&& !after.workspace_locked
            &&& after.saved.clean_shutdown
        }),
        ({
            let after = marked(standing, Marker::ShutDown);
            &&& after.mode == standing.mode
            &&& after.focus_pid == standing.focus_pid
            &&& after.workspace_locked == standing.workspace_locked
            &&& after.saved.mode == Mode::Normal
            &&& !after.saved.workspace_locked
            &&& after.saved.clean_shutdown
        }),
        marked(standing, Marker::Recovered) == standing,
{
}

} // verus!
