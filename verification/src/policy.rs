//! What each mode means in terms of tasks.
use vstd::prelude::*;

use crate::cgroup::{
    ensure_cgroups, reset_tasks, reset_weights, set_bg_cpu_weight, set_bg_io_weight,
    set_bg_memory_high, set_focus_cpu_weight, set_focus_io_weight, teardown_cgroups, teardown_tasks,
    CgroupDir, Setting,
};
use crate::hyprland::lock_workspace_switching;
use crate::modes::{Mode, DEFAULT_WEIGHT};
use crate::script::{Script, ScriptRun};
use crate::system::SystemCall;
use crate::task::Task;

verus! {

/// Weigh the two directories for a mode.
pub open spec fn weight_tasks(mode: Mode) -> Seq<Task> {
    seq![
        Task::Call(SystemCall::Write(CgroupDir::Focus, Setting::CpuWeight(mode.focus_cpu()))),
        Task::Call(
            SystemCall::Write(CgroupDir::Background, Setting::CpuWeight(mode.background_cpu())),
        ),
        Task::Call(SystemCall::Write(CgroupDir::Focus, Setting::IoWeight(mode.focus_io()))),
        Task::Call(
            SystemCall::Write(CgroupDir::Background, Setting::IoWeight(mode.background_io())),
        ),
    ]
}

/// Limit the memory of the background for a mode.
pub open spec fn memory_task(mode: Mode) -> Task {
    match mode.memory_percent() {
        Some(percent) => Task::LimitMemory(percent),
        None => Task::Call(SystemCall::Write(CgroupDir::Background, Setting::MemoryHigh(None))),
    }
}

/// Move the tree of the focus application, if there is one.
pub open spec fn focus_tasks(focus_pid: Option<u32>) -> Seq<Task> {
    match focus_pid {
        Some(pid) => seq![Task::MoveTree(pid)],
        None => seq![],
    }
}

/// Lock or unlock workspace switching for a mode.
pub open spec fn workspace_task(mode: Mode) -> Task {
    if mode == Mode::SupaaPlus {
        Task::Script(ScriptRun::begin(Script::LockWorkspace))
    } else {
        Task::Unlock
    }
}

/// Freeze or thaw the background for a mode.
pub open spec fn freezer_task(mode: Mode, focus_pid: Option<u32>) -> Task {
    if mode == Mode::SupaaPlus {
        Task::FreezeBackground(focus_pid)
    } else {
        Task::ThawAll
    }
}

/// What applying a mode takes: nothing for `Normal`; else the directories, the weights, the memory
/// limit, the focus tree, the background, the workspace lock and the freezer, in this order.
pub open spec fn apply_tasks(mode: Mode, focus_pid: Option<u32>) -> Seq<Task> {
    if mode == Mode::Normal {
        seq![]
    } else {
        seq![Task::Script(ScriptRun::begin(Script::EnsureCgroups))] + weight_tasks(mode) + seq![
            memory_task(mode),
        ] + focus_tasks(focus_pid) + seq![
            Task::PopulateBackground(focus_pid),
            workspace_task(mode),
            freezer_task(mode, focus_pid),
        ]
    }
}

/// Apply a mode.  `Normal` takes nothing: whatever another mode did has been undone before.
pub fn apply_mode(mode: Mode, focus_pid: Option<u32>) -> (r: Vec<Task>)
    ensures
        r@ == apply_tasks(mode, focus_pid),
{
    let mut out: Vec<Task> = Vec::new();
    if mode == Mode::Normal {
        return out;
    }
    out.push(Task::Script(ensure_cgroups()));
    out.push(Task::Call(set_focus_cpu_weight(mode.focus_cpu_weight())));
    out.push(Task::Call(set_bg_cpu_weight(mode.bg_cpu_weight())));
    out.push(Task::Call(set_focus_io_weight(mode.focus_io_weight())));
    out.push(Task::Call(set_bg_io_weight(mode.bg_io_weight())));
    match mode.bg_memory_high_percent() {
        Some(percent) => out.push(Task::LimitMemory(percent)),
        None => out.push(Task::Call(set_bg_memory_high(None))),
    }
    if let Some(pid) = focus_pid {
        out.push(Task::MoveTree(pid));
    }
    out.push(Task::PopulateBackground(focus_pid));
    if mode.should_lock_workspace() {
        out.push(Task::Script(lock_workspace_switching()));
    } else {
        out.push(Task::Unlock);
    }
    if mode.should_freeze_background() {
        out.push(Task::FreezeBackground(focus_pid));
    } else {
        out.push(Task::ThawAll);
    }
    proof {
        assert(out@ =~= apply_tasks(mode, focus_pid));
    }
    out
}

/// What leaving a mode takes: thaw everything, reset the weights, unlock workspace switching.
pub open spec fn transition_tasks() -> Seq<Task> {
    seq![Task::ThawAll] + reset_tasks() + seq![Task::Unlock]
}

/// Undo a mode without taking the directories away, so that the next mode finds them.
pub fn restore_on_transition() -> (r: Vec<Task>)
    ensures
        r@ == transition_tasks(),
{
    let mut out: Vec<Task> = Vec::new();
    out.push(Task::ThawAll);
    out.append(&mut reset_weights());
    out.push(Task::Unlock);
    proof {
        assert(out@ =~= transition_tasks());
    }
    out
}

/// What a full restoration takes: thaw everything, remove the directories, unlock workspace
/// switching.
pub open spec fn restore_tasks() -> Seq<Task> {
    seq![Task::ThawAll] + teardown_tasks() + seq![Task::Unlock]
}

/// Undo everything.
pub fn restore_all() -> (r: Vec<Task>)
    ensures
        r@ == restore_tasks(),
{
    let mut out: Vec<Task> = Vec::new();
    out.push(Task::ThawAll);
    out.append(&mut teardown_cgroups());
    out.push(Task::Unlock);
    proof {
        assert(out@ =~= restore_tasks());
    }
    out
}

// ---------------------------------------------------------------------------------------------
//  Laws
// ---------------------------------------------------------------------------------------------

/// `Normal` touches nothing.
pub proof fn law_normal_touches_nothing(focus_pid: Option<u32>)
    ensures
        apply_tasks(Mode::Normal, focus_pid) == Seq::<Task>::empty(),
{
}

/// Every mode but `Normal` makes sure first that the directories exist to which it writes.
pub proof fn law_directories_come_first(mode: Mode, focus_pid: Option<u32>)
    requires
        mode != Mode::Normal,
    ensures
        apply_tasks(mode, focus_pid)[0] == Task::Script(ScriptRun::begin(Script::EnsureCgroups)),
{
}

/// Freezing and locking are asked for in `SupaaPlus` and in no other mode; there both are.
pub proof fn law_only_supaa_plus_freezes_and_locks(mode: Mode, focus_pid: Option<u32>)
    ensures
        apply_tasks(mode, focus_pid).contains(Task::FreezeBackground(focus_pid)) <==> mode
            == Mode::SupaaPlus,
        apply_tasks(mode, focus_pid).contains(
            Task::Script(ScriptRun::begin(Script::LockWorkspace)),
        ) <==> mode == Mode::SupaaPlus,
        forall|i: int|
            0 <= i < apply_tasks(mode, focus_pid).len() ==> #[trigger] apply_tasks(
                mode,
                focus_pid,
            )[i] !is Freeze,
{
    let tasks = apply_tasks(mode, focus_pid);
    let n = tasks.len() as int;
    if mode != Mode::Normal {
        assert(tasks[n - 1] == freezer_task(mode, focus_pid));
        assert(tasks[n - 2] == workspace_task(mode));
        assert(tasks[n - 3] == Task::PopulateBackground(focus_pid));
        assert(tasks.contains(tasks[n - 1]));
        assert(tasks.contains(tasks[n - 2]));
    }
}

/// The whole focus tree is moved, and the background is filled, whenever a mode with a focus
/// application is applied.
pub proof fn law_focus_and_background_are_filled(mode: Mode, pid: u32)
    requires
        mode != Mode::Normal,
    ensures
        apply_tasks(mode, Some(pid)).contains(Task::MoveTree(pid)),
        apply_tasks(mode, Some(pid)).contains(Task::PopulateBackground(Some(pid))),
{
    let tasks = apply_tasks(mode, Some(pid));
    assert(tasks[6] == Task::MoveTree(pid));
    assert(tasks[7] == Task::PopulateBackground(Some(pid)));
}

/// The setting that the kernel gives by default.
pub open spec fn default_setting(setting: Setting) -> Setting {
    match setting {
        Setting::CpuWeight(_) => Setting::CpuWeight(DEFAULT_WEIGHT),
        Setting::IoWeight(_) => Setting::IoWeight(DEFAULT_WEIGHT),
        Setting::MemoryHigh(_) => Setting::MemoryHigh(None),
        other => other,
    }
}

/// Is this a task that sets something back to its default?
pub open spec fn resets(dir: CgroupDir, setting: Setting) -> Task {
    Task::Call(SystemCall::Write(dir, default_setting(setting)))
}

/// Leaving a mode undoes what applying it did: each setting that any mode writes is written back to
/// its default, the memory limit is lifted, everything frozen is thawed, and workspace switching is
/// unlocked.  So it is by a full restoration.
pub proof fn law_leaving_undoes_applying(mode: Mode, focus_pid: Option<u32>, i: int)
    requires
        0 <= i < apply_tasks(mode, focus_pid).len(),
    ensures
        apply_tasks(mode, focus_pid)[i] matches Task::Call(SystemCall::Write(dir, setting))
            ==> transition_tasks().contains(resets(dir, setting)) && restore_tasks().contains(
            resets(dir, setting),
        ),
        apply_tasks(mode, focus_pid)[i] is LimitMemory ==> transition_tasks().contains(
            resets(CgroupDir::Background, Setting::MemoryHigh(None)),
        ) && restore_tasks().contains(resets(CgroupDir::Background, Setting::MemoryHigh(None))),
        apply_tasks(mode, focus_pid)[i] is FreezeBackground ==> transition_tasks().contains(
            Task::ThawAll,
        ) && restore_tasks().contains(Task::ThawAll),
        apply_tasks(mode, focus_pid)[i] == Task::Script(ScriptRun::begin(Script::LockWorkspace))
            ==> transition_tasks().contains(Task::Unlock) && restore_tasks().contains(
            Task::Unlock,
        ),
{
    let light = transition_tasks();
    let full = restore_tasks();
    assert forall|j: int| 0 <= j < 6 implies #[trigger] light[j] == full[j] && light.contains(
        light[j],
    ) && full.contains(full[j]) by {}
    assert(light[0] == Task::ThawAll);
    assert(light[1] == resets(CgroupDir::Focus, Setting::CpuWeight(0)));
    assert(light[2] == resets(CgroupDir::Background, Setting::CpuWeight(0)));
    assert(light[3] == resets(CgroupDir::Focus, Setting::IoWeight(0)));
    assert(light[4] == resets(CgroupDir::Background, Setting::IoWeight(0)));
    assert(light[5] == resets(CgroupDir::Background, Setting::MemoryHigh(None)));
    assert(light[6] == Task::Unlock);
    assert(full[11] == Task::Unlock);
    assert(light.contains(light[6]));
    assert(full.contains(full[11]));
}

/// Is this a task that empties or removes a directory?
pub open spec fn takes_away(task: Task) -> bool {
    task is Drain || (task matches Task::Call(call) && call is RemoveDir)
}

/// Leaving a mode takes no directory away; a full restoration takes away all that the daemon
/// manages, each after it was emptied.
pub proof fn law_only_full_restore_removes_directories()
    ensures
        forall|i: int|
            0 <= i < transition_tasks().len() ==> !takes_away(#[trigger] transition_tasks()[i]),
        forall|i: int|
            0 <= i < restore_tasks().len() && takes_away(#[trigger] restore_tasks()[i]) ==> 6 <= i
                < 11,
        restore_tasks().subrange(6, 11) == seq![
            Task::Drain(CgroupDir::Focus),
            Task::Drain(CgroupDir::Background),
            Task::Call(SystemCall::RemoveDir(CgroupDir::Focus)),
            Task::Call(SystemCall::RemoveDir(CgroupDir::Background)),
            Task::Call(SystemCall::RemoveDir(CgroupDir::Supaa)),
        ],
{
    assert(restore_tasks().subrange(6, 11) =~= seq![
        Task::Drain(CgroupDir::Focus),
        Task::Drain(CgroupDir::Background),
        Task::Call(SystemCall::RemoveDir(CgroupDir::Focus)),
        Task::Call(SystemCall::RemoveDir(CgroupDir::Background)),
        Task::Call(SystemCall::RemoveDir(CgroupDir::Supaa)),
    ]);
}

/// Every mode but `Normal` writes its own four weights, with a focus application and without one, and
/// no other weight.
pub proof fn law_weights_of_the_mode_are_written(mode: Mode, focus_pid: Option<u32>)
    requires
        mode != Mode::Normal,
    ensures
        apply_tasks(mode, focus_pid).contains(
            Task::Call(SystemCall::Write(CgroupDir::Focus, Setting::CpuWeight(mode.focus_cpu()))),
        ),
        apply_tasks(mode, focus_pid).contains(
            Task::Call(
                SystemCall::Write(CgroupDir::Background, Setting::CpuWeight(mode.background_cpu())),
            ),
        ),
        apply_tasks(mode, focus_pid).contains(
            Task::Call(SystemCall::Write(CgroupDir::Focus, Setting::IoWeight(mode.focus_io()))),
        ),
        apply_tasks(mode, focus_pid).contains(
            Task::Call(
                SystemCall::Write(CgroupDir::Background, Setting::IoWeight(mode.background_io())),
            ),
        ),
        forall|i: int|
            0 <= i < apply_tasks(mode, focus_pid).len() ==> (#[trigger] apply_tasks(
                mode,
                focus_pid,
            )[i] matches Task::Call(SystemCall::Write(dir, Setting::CpuWeight(weight))) ==> {
                ||| dir == CgroupDir::Focus && weight == mode.focus_cpu()
                ||| dir == CgroupDir::Background && weight == mode.background_cpu()
            }),
        forall|i: int|
            0 <= i < apply_tasks(mode, focus_pid).len() ==> (#[trigger] apply_tasks(
                mode,
                focus_pid,
            )[i] matches Task::Call(SystemCall::Write(dir, Setting::IoWeight(weight))) ==> {
                ||| dir == CgroupDir::Focus && weight == mode.focus_io()
                ||| dir == CgroupDir::Background && weight == mode.background_io()
            }),
{
    let tasks = apply_tasks(mode, focus_pid);
    assert(tasks.contains(tasks[1]) && tasks.contains(tasks[2]) && tasks.contains(tasks[3])
        && tasks.contains(tasks[4]));
}

/// What a mode asks for, and nothing else: `Supaa` limits the background to three quarters of the
/// installed memory, thaws and unlocks; `SupaaPlus` limits it to half, freezes and locks.  Both move
/// the tree of the focus application, if there is one, and fill the background around it.
pub proof fn law_tasks_of_the_modes(mode: Mode, focus_pid: Option<u32>, task: Task)
    requires
        mode != Mode::Normal,
    ensures
        apply_tasks(mode, focus_pid).contains(task) <==> match task {
            Task::Script(run) => {
                ||| run == ScriptRun::begin(Script::EnsureCgroups)
                ||| mode == Mode::SupaaPlus && run == ScriptRun::begin(Script::LockWorkspace)
            },
            Task::Call(SystemCall::Write(CgroupDir::Focus, Setting::CpuWeight(weight))) => weight
                == if mode == Mode::Supaa {
                800u64
            } else {
                10000u64
            },
            Task::Call(SystemCall::Write(CgroupDir::Focus, Setting::IoWeight(weight))) => weight
                == if mode == Mode::Supaa {
                800u64
            } else {
                10000u64
            },
            Task::Call(SystemCall::Write(CgroupDir::Background, Setting::CpuWeight(weight))) => {
                weight == if mode == Mode::Supaa {
                    20u64
                } else {
                    1u64
                }
            },
            Task::Call(SystemCall::Write(CgroupDir::Background, Setting::IoWeight(weight))) => {
                weight == if mode == Mode::Supaa {
                    20u64
                } else {
                    1u64
                }
            },
            Task::LimitMemory(percent) => percent == if mode == Mode::Supaa {
                75u64
            } else {
                50u64
            },
            Task::MoveTree(pid) => focus_pid == Some(pid),
            Task::PopulateBackground(focus) => focus == focus_pid,
            Task::Unlock => mode == Mode::Supaa,
            Task::ThawAll => mode == Mode::Supaa,
            Task::FreezeBackground(focus) => mode == Mode::SupaaPlus && focus == focus_pid,
            _ => false,
        },
{
    let tasks = apply_tasks(mode, focus_pid);
    let n = tasks.len() as int;
    assert(tasks.contains(tasks[0]) && tasks.contains(tasks[1]) && tasks.contains(tasks[2])
        && tasks.contains(tasks[3]) && tasks.contains(tasks[4]) && tasks.contains(tasks[5])
        && tasks.contains(tasks[6]) && tasks.contains(tasks[n - 3]) && tasks.contains(tasks[n - 2])
        && tasks.contains(tasks[n - 1]));
    assert(tasks[n - 1] == freezer_task(mode, focus_pid));
    assert(tasks[n - 2] == workspace_task(mode));
    assert(tasks[n - 3] == Task::PopulateBackground(focus_pid));
    if let Some(pid) = focus_pid {
        assert(tasks[6] == Task::MoveTree(pid));
    }
}

/// The tree of the focus application is moved before the background is filled, and freezing comes last
/// of all.  Nothing is asked for twice.
pub proof fn law_focus_is_moved_before_the_rest(mode: Mode, focus_pid: Option<u32>)
    requires
        mode != Mode::Normal,
    ensures
        forall|i: int, j: int|
            #![trigger apply_tasks(mode, focus_pid)[i], apply_tasks(mode, focus_pid)[j]]
            0 <= i < apply_tasks(mode, focus_pid).len() && 0 <= j < apply_tasks(
                mode,
                focus_pid,
            ).len() && apply_tasks(mode, focus_pid)[i] is MoveTree && (apply_tasks(
                mode,
                focus_pid,
            )[j] is PopulateBackground || apply_tasks(mode, focus_pid)[j] is FreezeBackground) ==> i
                < j,
        apply_tasks(mode, focus_pid).last() == if mode == Mode::SupaaPlus {
            Task::FreezeBackground(focus_pid)
        } else {
            Task::ThawAll
        },
        apply_tasks(mode, focus_pid).len() == if focus_pid is Some {
            10
        } else {
            9nat
        },
{
}

/// Leaving a mode first thaws everything and last unlocks workspace switching.  In between it writes
/// the defaults and nothing else; a full restoration also empties and removes the directories.
pub proof fn law_restoring_thaws_first_and_unlocks_last()
    ensures
        transition_tasks().first() == Task::ThawAll,
        transition_tasks().last() == Task::Unlock,
        transition_tasks().subrange(1, transition_tasks().len() - 1) == reset_tasks(),
        restore_tasks().first() == Task::ThawAll,
        restore_tasks().last() == Task::Unlock,
        restore_tasks().subrange(1, restore_tasks().len() - 1) == teardown_tasks(),
        restore_tasks().subrange(1, 6) == reset_tasks(),
{
    assert(transition_tasks().subrange(1, transition_tasks().len() - 1) =~= reset_tasks());
    assert(restore_tasks().subrange(1, restore_tasks().len() - 1) =~= teardown_tasks());
    assert(restore_tasks().subrange(1, 6) =~= reset_tasks());
}

} // verus!
