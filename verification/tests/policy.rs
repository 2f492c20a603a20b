use supaa::modes::Mode;
use supaa::policy::{apply_mode, restore_all, restore_on_transition};
use supaa::task::Task;

fn shown(tasks: Vec<Task>) -> Vec<String> {
    tasks
        .into_iter()
        .map(|task| match task {
            Task::Script(run) => format!("{:?}", run.script),
            other => format!("{other:?}"),
        })
        .collect()
}

#[test]
fn normal_takes_nothing() {
    assert!(apply_mode(Mode::Normal, Some(10)).is_empty());
    assert!(apply_mode(Mode::Normal, None).is_empty());
}

#[test]
fn supaa_in_order() {
    assert_eq!(
        shown(apply_mode(Mode::Supaa, Some(10))),
        [
            "EnsureCgroups",
            "Call(Write(Focus, CpuWeight(800)))",
            "Call(Write(Background, CpuWeight(20)))",
            "Call(Write(Focus, IoWeight(800)))",
            "Call(Write(Background, IoWeight(20)))",
            "LimitMemory(75)",
            "MoveTree(10)",
            "PopulateBackground(Some(10))",
            "Unlock",
            "ThawAll",
        ]
    );
}

#[test]
fn supaa_plus_in_order() {
    assert_eq!(
        shown(apply_mode(Mode::SupaaPlus, None)),
        [
            "EnsureCgroups",
            "Call(Write(Focus, CpuWeight(10000)))",
            "Call(Write(Background, CpuWeight(1)))",
            "Call(Write(Focus, IoWeight(10000)))",
            "Call(Write(Background, IoWeight(1)))",
            "LimitMemory(50)",
            "PopulateBackground(None)",
            "LockWorkspace",
            "FreezeBackground(None)",
        ]
    );
}

#[test]
fn a_transition_keeps_the_directories() {
    let tasks = shown(restore_on_transition());
    assert_eq!(tasks[0], "ThawAll");
    assert_eq!(tasks[1], "Call(Write(Focus, CpuWeight(100)))");
    assert_eq!(tasks.last().map(|s| s.as_str()), Some("Unlock"));
    assert_eq!(tasks.len(), 7);
    assert!(!tasks.iter().any(|task| task.contains("RemoveDir")));
}

#[test]
fn a_full_restoration_removes_them() {
    let tasks = shown(restore_all());
    assert_eq!(tasks[0], "ThawAll");
    assert!(tasks.contains(&"Call(RemoveDir(Supaa))".to_owned()));
    assert_eq!(tasks.last().map(|s| s.as_str()), Some("Unlock"));
    assert_eq!(tasks.len(), 12);
}
