use std::collections::HashSet;

use supaa::whitelist::{
    all_pids, get_ppid, get_process_tree, has_whitelisted_ancestor, is_whitelisted, parse_cgroup,
    parse_ppid, proc_cgroup, proc_comm, proc_path, ProcRecord, ProcTable, WHITELISTED_NAMES,
};

fn record(pid: u32, ppid: u32, comm: &str, cgroup: &str) -> ProcRecord {
    ProcRecord {
        pid,
        has_exe: true,
        comm: Some(format!("{comm}\n")),
        cgroup: Some(format!("0::{cgroup}\n")),
        status: Some(format!("Name:\t{comm}\nPid:\t{pid}\nPPid:\t{ppid}\nUid:\t0\n")),
    }
}

fn user(pid: u32, ppid: u32, comm: &str) -> ProcRecord {
    record(pid, ppid, comm, "/user.slice/user-1000.slice/app.scope.d/x")
}

fn table(records: Vec<ProcRecord>) -> ProcTable {
    ProcTable { records }
}

fn none() -> HashSet<u32> {
    HashSet::new()
}

#[test]
fn cgroup_is_the_unified_one() {
    assert_eq!(parse_cgroup("0::/user.slice/a\n"), Some("/user.slice/a".to_owned()));
    assert_eq!(parse_cgroup("1:cpu:/x\n0::/a:b\n"), Some("/a:b".to_owned()));
    assert_eq!(parse_cgroup("1:cpu:/x\n"), None);
    assert_eq!(parse_cgroup("0:/x\n"), None);
    assert_eq!(parse_cgroup("00::/x\n0:name=a:/y\n"), Some("/y".to_owned()));
    assert_eq!(parse_cgroup(""), None);
}

#[test]
fn parent_is_read_from_the_status() {
    assert_eq!(parse_ppid("Name:\tx\nPPid:\t42\n"), Some(42));
    assert_eq!(parse_ppid("PPid:7"), Some(7));
    assert_eq!(parse_ppid("PPid:\tx\nPPid:\t1\n"), None);
    assert_eq!(parse_ppid("Pid:\t42\n"), None);
}

#[test]
fn what_a_scan_says_of_a_process() {
    let t = table(vec![user(10, 5, " game ")]);
    assert_eq!(proc_comm(10, &t), Some("game".to_owned()));
    assert_eq!(proc_cgroup(10, &t), Some("/user.slice/user-1000.slice/app.scope.d/x".to_owned()));
    assert_eq!(get_ppid(10, &t), Some(5));
    assert_eq!(proc_comm(11, &t), None);
    assert_eq!(proc_cgroup(11, &t), None);
    assert_eq!(get_ppid(11, &t), None);
    assert_eq!(proc_path(10, "comm"), "/proc/10/comm");
}

#[test]
fn an_ordinary_process_is_not_protected() {
    let t = table(vec![user(100, 50, "firefox"), user(50, 1, "bash")]);
    assert!(!is_whitelisted(100, &none(), &t));
    assert!(!is_whitelisted(50, &none(), &t));
}

#[test]
fn own_and_first_processes_are_protected() {
    let t = table(vec![user(100, 1, "x"), user(0, 0, "x"), user(1, 0, "x"), user(2, 0, "x"), user(3, 1, "x")]);
    assert!(is_whitelisted(100, &HashSet::from([100]), &t));
    for pid in 0..=2 {
        assert!(is_whitelisted(pid, &none(), &t));
    }
    assert!(!is_whitelisted(3, &none(), &t));
}

#[test]
fn what_has_no_program_is_protected() {
    let mut kernel = user(60, 2, "something");
    kernel.has_exe = false;
    let t = table(vec![kernel]);
    assert!(is_whitelisted(60, &none(), &t));
    assert!(is_whitelisted(61, &none(), &t));
}

#[test]
fn every_listed_name_is_protected_with_what_it_starts() {
    assert_eq!(WHITELISTED_NAMES.len(), 48);
    for name in WHITELISTED_NAMES {
        for comm in [name.to_owned(), format!("{name}/0")] {
            let t = table(vec![user(100, 1, &comm)]);
            assert!(is_whitelisted(100, &none(), &t), "{comm}");
        }
    }
    let t = table(vec![user(100, 1, "a-systemd")]);
    assert!(!is_whitelisted(100, &none(), &t));
}

#[test]
fn own_programs_are_protected() {
    for comm in ["supaa", "supaad", "supaa-ui", "supaa-anything"] {
        assert!(is_whitelisted(100, &none(), &table(vec![user(100, 1, comm)])), "{comm}");
    }
}

#[test]
fn services_and_sessions_are_protected() {
    for (path, protected) in [
        ("/system.slice/sshd.service", true),
        ("/init.scope", true),
        ("/user.slice/user-1000.slice/session-3.scope", true),
        ("/user.slice/user-1001.slice/session-c2.scope", true),
        ("/user.slice/user-1000.slice/session-3.scope/x", false),
        ("/user.slice/user-1000.slice/app.scope", false),
        ("/x/system.slice", false),
        ("/supaa/background", false),
    ] {
        let t = table(vec![record(100, 1, "x", path)]);
        assert_eq!(is_whitelisted(100, &none(), &t), protected, "{path}");
    }
}

#[test]
fn a_child_of_a_protected_process_is_protected() {
    let t = table(vec![user(100, 50, "helper"), user(50, 40, "pipewire"), user(40, 1, "x")]);
    assert!(has_whitelisted_ancestor(100, &t));
    assert!(is_whitelisted(100, &none(), &t));
    assert!(!is_whitelisted(40, &none(), &t));
}

#[test]
fn children_of_the_first_process_are_not_protected_for_it() {
    let t = table(vec![user(1, 0, "systemd"), user(100, 1, "x")]);
    assert!(!has_whitelisted_ancestor(100, &t));
    assert!(!is_whitelisted(100, &none(), &t));
}

#[test]
fn ancestors_are_looked_for_up_to_a_depth() {
    let chain = |depth: u32| {
        let mut records: Vec<ProcRecord> =
            (0..depth).map(|i| user(100 + i, 100 + i + 1, "x")).collect();
        records.push(user(100 + depth, 1, "sway"));
        table(records)
    };
    assert!(has_whitelisted_ancestor(100, &chain(8)));
    assert!(!has_whitelisted_ancestor(100, &chain(9)));
}

#[test]
fn loops_of_parents_end() {
    let t = table(vec![user(100, 101, "x"), user(101, 100, "y"), user(102, 102, "z")]);
    assert!(!has_whitelisted_ancestor(100, &t));
    assert!(!has_whitelisted_ancestor(102, &t));
}

#[test]
fn pids_are_the_names_that_are_numbers() {
    let names: Vec<String> =
        ["1", "self", "42", "+7", "4294967296", "cpuinfo", ""].iter().map(|s| s.to_string()).collect();
    assert_eq!(all_pids(&names), vec![1, 42, 7]);
}

#[test]
fn a_tree_holds_all_descendants() {
    let t = table(vec![
        user(10, 1, "a"),
        user(11, 10, "b"),
        user(12, 10, "c"),
        user(13, 12, "d"),
        user(20, 1, "e"),
        user(21, 20, "f"),
    ]);
    assert_eq!(get_process_tree(10, &t), HashSet::from([10, 11, 12, 13]));
    assert_eq!(get_process_tree(12, &t), HashSet::from([12, 13]));
    assert_eq!(get_process_tree(99, &t), HashSet::from([99]));
    assert_eq!(get_process_tree(1, &t).len(), 7);
}

#[test]
fn a_tree_ends_in_a_loop_of_parents() {
    let t = table(vec![user(10, 11, "a"), user(11, 10, "b")]);
    assert_eq!(get_process_tree(10, &t), HashSet::from([10, 11]));
}
