use std::collections::HashSet;

use supaa::cgroup::{
    check_cgroup_v2, drain_cgroup, enable_controllers, ensure_cgroups, ensure_dir, get_focus_tree,
    init_cgroups, is_user_process, memory_limit, move_to_background, move_to_focus,
    move_tree_to_focus, populate_background, release_pid, release_tree, reset_weights,
    set_bg_cpu_weight, set_bg_io_weight, set_bg_memory_high, set_focus_cpu_weight,
    set_focus_io_weight, teardown_cgroups, total_memory_bytes, write_cgroup, CgroupDir, CgroupError,
    Setting,
};
use supaa::system::SystemCall;
use supaa::task::Task;
use supaa::whitelist::{ProcRecord, ProcTable};

fn record(pid: u32, ppid: u32, comm: &str, cgroup: &str) -> ProcRecord {
    ProcRecord {
        pid,
        has_exe: true,
        comm: Some(comm.to_owned()),
        cgroup: Some(format!("0::{cgroup}\n")),
        status: Some(format!("PPid:\t{ppid}\n")),
    }
}

fn written(call: SystemCall) -> (String, String) {
    match call {
        SystemCall::Write(dir, setting) => write_cgroup(dir, setting),
        other => panic!("{other:?}"),
    }
}

fn pair(path: &str, value: &str) -> (String, String) {
    (path.to_owned(), value.to_owned())
}

fn moved(tasks: &[Task]) -> Vec<(CgroupDir, u32)> {
    tasks
        .iter()
        .map(|task| match task {
            Task::Call(SystemCall::Write(dir, Setting::Procs(pid))) => (*dir, *pid),
            other => panic!("{other:?}"),
        })
        .collect()
}

fn shown<T: std::fmt::Debug>(value: &T) -> String {
    format!("{value:?}")
}

#[test]
fn settings_go_to_their_files() {
    let focus = "/sys/fs/cgroup/supaa/focus";
    let background = "/sys/fs/cgroup/supaa/background";
    assert_eq!(written(set_focus_cpu_weight(800)), pair(&format!("{focus}/cpu.weight"), "800"));
    assert_eq!(written(set_bg_cpu_weight(20)), pair(&format!("{background}/cpu.weight"), "20"));
    assert_eq!(written(set_focus_io_weight(800)), pair(&format!("{focus}/io.weight"), "default 800"));
    assert_eq!(written(set_bg_io_weight(1)), pair(&format!("{background}/io.weight"), "default 1"));
    assert_eq!(written(set_bg_memory_high(None)), pair(&format!("{background}/memory.high"), "max"));
    assert_eq!(
        written(set_bg_memory_high(Some(12345))),
        pair(&format!("{background}/memory.high"), "12345")
    );
    assert_eq!(written(move_to_focus(7)), pair(&format!("{focus}/cgroup.procs"), "7"));
    assert_eq!(written(move_to_background(7)), pair(&format!("{background}/cgroup.procs"), "7"));
    assert_eq!(written(release_pid(7)), pair("/sys/fs/cgroup/cgroup.procs", "7"));
    assert_eq!(
        written(enable_controllers(CgroupDir::Supaa)),
        pair("/sys/fs/cgroup/supaa/cgroup.subtree_control", "+cpu +io +memory")
    );
}

#[test]
fn directories_have_their_paths() {
    assert_eq!(CgroupDir::Root.path(), "/sys/fs/cgroup");
    assert_eq!(CgroupDir::Supaa.path(), "/sys/fs/cgroup/supaa");
    assert_eq!(CgroupDir::Focus.procs_path(), "/sys/fs/cgroup/supaa/focus/cgroup.procs");
    assert!(matches!(ensure_dir(CgroupDir::Focus), SystemCall::CreateDir(CgroupDir::Focus)));
}

#[test]
fn the_unified_hierarchy_is_required() {
    let unified = Some("x\ncgroup2 /sys/fs/cgroup cgroup2 rw\n");
    let legacy = Some("cgroup /sys cgroup rw");
    for writable in [false, true] {
        assert_eq!(check_cgroup_v2(false, unified, writable), Err(CgroupError::RootMissing));
        assert_eq!(check_cgroup_v2(true, None, writable), Err(CgroupError::MountsUnreadable));
        assert_eq!(check_cgroup_v2(true, legacy, writable), Err(CgroupError::NotUnified));
    }
    assert_eq!(check_cgroup_v2(true, unified, false), Err(CgroupError::NotWritable));
    assert_eq!(check_cgroup_v2(true, unified, true), Ok(()));
}

#[test]
fn installed_memory_is_read() {
    assert_eq!(total_memory_bytes(Some("MemTotal:       16384 kB\nMemFree: 1 kB\n")), 16384 * 1024);
    assert_eq!(total_memory_bytes(Some("MemFree: 1 kB\nMemTotal: 2 kB\n")), 2048);
    assert_eq!(total_memory_bytes(Some("MemTotal: x kB\nMemTotal: 3 kB\n")), 3072);
    assert_eq!(total_memory_bytes(Some("MemFree: 1 kB\n")), 0);
    assert_eq!(total_memory_bytes(Some("MemTotal:\n")), 0);
    assert_eq!(total_memory_bytes(None), 0);
}

#[test]
fn memory_is_limited_to_its_share() {
    let meminfo = Some("MemTotal: 1000 kB\n");
    assert_eq!(memory_limit(meminfo, 75), 768_000);
    assert_eq!(memory_limit(meminfo, 50), 512_000);
    assert_eq!(memory_limit(None, 50), 0);
}

#[test]
fn user_processes_are_told_by_their_place() {
    let table = ProcTable {
        records: vec![
            record(10, 1, "a", "/user.slice/x"),
            record(11, 1, "b", "/supaa/background"),
            record(12, 1, "c", "/system.slice/x"),
            record(13, 1, "d", "/"),
        ],
    };
    let found: Vec<bool> = (10..15).map(|pid| is_user_process(pid, &table)).collect();
    assert_eq!(found, vec![true, true, false, false, false]);
}

#[test]
fn the_background_is_what_is_left() {
    let table = ProcTable {
        records: vec![
            record(10, 1, "game", "/user.slice/x"),
            record(11, 10, "engine", "/user.slice/x"),
            record(12, 1, "browser", "/user.slice/x"),
            record(13, 1, "pipewire", "/user.slice/x"),
            record(14, 1, "other", "/machine.slice/x"),
            record(15, 1, "editor", "/supaa/background"),
            record(16, 1, "own", "/user.slice/x"),
        ],
    };
    let ours = HashSet::from([16]);
    let background = CgroupDir::Background;
    assert_eq!(
        moved(&populate_background(Some(10), &ours, &table)),
        vec![(background, 12), (background, 15)]
    );
    assert_eq!(
        moved(&populate_background(None, &ours, &table)),
        vec![(background, 10), (background, 11), (background, 12), (background, 15)]
    );
    assert_eq!(get_focus_tree(Some(10), &table), HashSet::from([10, 11]));
    assert!(get_focus_tree(None, &table).is_empty());
}

#[test]
fn whole_trees_are_moved() {
    let table = ProcTable {
        records: vec![
            record(10, 1, "a", "/"),
            record(11, 10, "b", "/"),
            record(12, 11, "c", "/"),
            record(20, 1, "d", "/"),
        ],
    };
    let mut focus = moved(&move_tree_to_focus(10, &table));
    focus.sort_by_key(|(_, pid)| *pid);
    assert_eq!(
        focus,
        vec![(CgroupDir::Focus, 10), (CgroupDir::Focus, 11), (CgroupDir::Focus, 12)]
    );
    let mut released = moved(&release_tree(11, &table));
    released.sort_by_key(|(_, pid)| *pid);
    assert_eq!(released, vec![(CgroupDir::Root, 11), (CgroupDir::Root, 12)]);
}

#[test]
fn what_is_listed_is_drained() {
    let root = CgroupDir::Root;
    assert_eq!(moved(&drain_cgroup(Some("10\n 11 \nx\n\n12"))), vec![(root, 10), (root, 11), (root, 12)]);
    assert!(drain_cgroup(None).is_empty());
}

#[test]
fn weights_are_reset_to_the_defaults() {
    let writes: Vec<(String, String)> = reset_weights()
        .into_iter()
        .map(|task| match task {
            Task::Call(call) => written(call),
            other => panic!("{other:?}"),
        })
        .collect();
    assert_eq!(
        writes,
        vec![
            pair("/sys/fs/cgroup/supaa/focus/cpu.weight", "100"),
            pair("/sys/fs/cgroup/supaa/background/cpu.weight", "100"),
            pair("/sys/fs/cgroup/supaa/focus/io.weight", "default 100"),
            pair("/sys/fs/cgroup/supaa/background/io.weight", "default 100"),
            pair("/sys/fs/cgroup/supaa/background/memory.high", "max"),
        ]
    );
}

#[test]
fn directories_are_drained_and_removed() {
    let tasks = teardown_cgroups();
    let tail: Vec<String> = tasks[5..].iter().map(shown).collect();
    assert_eq!(
        tail,
        vec![
            "Drain(Focus)",
            "Drain(Background)",
            "Call(RemoveDir(Focus))",
            "Call(RemoveDir(Background))",
            "Call(RemoveDir(Supaa))",
        ]
    );
}

#[test]
fn directories_are_set_up_in_order() {
    let calls = |mut run: supaa::script::ScriptRun, fail: usize| {
        let mut seen = Vec::new();
        while let Some(step) = run.current() {
            let ok = seen.len() != fail;
            seen.push(shown(&step.call));
            run = run.feed(ok);
        }
        (seen, run.failed)
    };
    let all = vec![
        "CreateDir(Supaa)",
        "Write(Root, Controllers)",
        "Write(Supaa, Controllers)",
        "CreateDir(Focus)",
        "CreateDir(Background)",
    ];
    let (seen, failed) = calls(ensure_cgroups(), usize::MAX);
    assert_eq!(seen, all);
    assert!(!failed);
    let (seen, failed) = calls(ensure_cgroups(), 1);
    assert_eq!(seen, all);
    assert!(!failed);
    let (seen, failed) = calls(ensure_cgroups(), 2);
    assert_eq!(seen, all[..3]);
    assert!(failed);
    let (seen, _) = calls(init_cgroups(), usize::MAX);
    assert_eq!(seen[0], "ProbeCgroup");
    assert_eq!(seen[1..], all);
    let (seen, failed) = calls(init_cgroups(), 0);
    assert_eq!(seen, vec!["ProbeCgroup"]);
    assert!(failed);
}
