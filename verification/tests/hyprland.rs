use supaa::hyprland::{
    active_window, candidate_hypr_dirs, extract_json_str, extract_json_u32, hyprland_socket,
    lock_workspace_switching, socket_in, unlock_workspace_keys, unlock_workspace_switching,
    workspace_binds, HyprRequest,
};
use supaa::script::ScriptRun;
use supaa::system::{SystemCall, SystemReply};

fn strings(all: &[&str]) -> Vec<String> {
    all.iter().map(|s| s.to_string()).collect()
}

fn requests(mut run: ScriptRun, ok: fn(usize) -> bool) -> (Vec<String>, bool) {
    let mut seen = Vec::new();
    while let Some(step) = run.current() {
        match step.call {
            SystemCall::Hyprland(request) => seen.push(request.text()),
            other => panic!("{other:?}"),
        }
        run = run.feed(ok(seen.len() - 1));
    }
    (seen, run.any_ok)
}

#[test]
fn the_keys_that_switch_workspaces() {
    let binds = workspace_binds();
    assert_eq!(binds.len(), 14);
    assert_eq!(binds[0], ("SUPER".to_owned(), "1".to_owned()));
    assert_eq!(binds[8], ("SUPER".to_owned(), "9".to_owned()));
    assert_eq!(binds[9], ("SUPER".to_owned(), "0".to_owned()));
    assert_eq!(binds[10], ("SUPER".to_owned(), "left".to_owned()));
    assert_eq!(binds[11], ("SUPER".to_owned(), "right".to_owned()));
    assert_eq!(binds[12], ("SUPER CTRL".to_owned(), "left".to_owned()));
    assert_eq!(binds[13], ("SUPER CTRL".to_owned(), "right".to_owned()));
}

#[test]
fn requests_read_as_the_compositor_wants_them() {
    assert_eq!(HyprRequest::LockSubmap.text(), "dispatch submap supaa_lock");
    assert_eq!(HyprRequest::ResetSubmap.text(), "dispatch submap reset");
    assert_eq!(HyprRequest::Bind(0).text(), "keyword bind SUPER,1,exec,true");
    assert_eq!(HyprRequest::Unbind(13).text(), "keyword unbind SUPER CTRL,right");
    assert_eq!(HyprRequest::ActiveWindow.text(), "j/activewindow");
}

#[test]
fn the_submap_suffices() {
    assert_eq!(
        requests(lock_workspace_switching(), |_| true),
        (strings(&["dispatch submap supaa_lock"]), true)
    );
    assert_eq!(
        requests(unlock_workspace_switching(), |_| true),
        (strings(&["dispatch submap reset"]), true)
    );
}

#[test]
fn the_keys_are_the_fallback() {
    let (locked, any) = requests(lock_workspace_switching(), |i| i == 5);
    assert_eq!(locked.len(), 15);
    assert!(any);
    for (i, (mods, key)) in workspace_binds().iter().enumerate() {
        assert_eq!(locked[i + 1], format!("keyword bind {mods},{key},exec,true"));
    }
    let (unlocked, any) = requests(unlock_workspace_switching(), |_| false);
    assert_eq!(unlocked.len(), 15);
    assert!(!any);
    for (i, (mods, key)) in workspace_binds().iter().enumerate() {
        assert_eq!(unlocked[i + 1], format!("keyword unbind {mods},{key}"));
    }
}

#[test]
fn bindings_are_taken_back_in_any_case() {
    for ok in [(|_| true) as fn(usize) -> bool, |_| false, |i| i == 0] {
        let (unlocked, _) = requests(unlock_workspace_keys(), ok);
        assert_eq!(unlocked.len(), 15);
        assert_eq!(unlocked[0], "dispatch submap reset");
        assert_eq!(unlocked[1], "keyword unbind SUPER,1");
        assert_eq!(unlocked[14], "keyword unbind SUPER CTRL,right");
    }
}

#[test]
fn a_refused_submap_reaches_the_keys() {
    let mut run = lock_workspace_switching();
    let mut seen = Vec::new();
    while let Some(step) = run.current() {
        let answer = match step.call {
            SystemCall::Hyprland(HyprRequest::LockSubmap) => "submap supaa_lock does not exist",
            _ => "ok",
        };
        match step.call {
            SystemCall::Hyprland(request) => seen.push(request.text()),
            other => panic!("{other:?}"),
        }
        run = run.feed(SystemReply::Answer(Some(answer.to_owned())).is_success());
    }
    assert_eq!(seen.len(), 15);
    assert_eq!(seen[0], "dispatch submap supaa_lock");
    assert_eq!(seen[14], "keyword bind SUPER CTRL,right,exec,true");
    assert!(run.any_ok && !run.failed);
}

#[test]
fn numbers_are_found_in_a_reply() {
    assert_eq!(extract_json_u32("{\"pid\": 42, \"x\": 1}", "pid"), Some(42));
    assert_eq!(extract_json_u32("{\"pid\":7}", "pid"), Some(7));
    assert_eq!(extract_json_u32("\"pid\":9", "pid"), Some(9));
    assert_eq!(extract_json_u32("{\"pid\": -1}", "pid"), None);
    assert_eq!(extract_json_u32("{\"pid\": 4294967296}", "pid"), None);
    assert_eq!(extract_json_u32("{\"ppid\": 4}", "pid"), None);
    assert_eq!(extract_json_u32("", "pid"), None);
}

#[test]
fn texts_are_found_in_a_reply() {
    assert_eq!(extract_json_str("{\"class\":\"kitty\"}", "class"), Some("kitty".to_owned()));
    assert_eq!(extract_json_str("{\"class\":\"\"}", "class"), Some(String::new()));
    assert_eq!(extract_json_str("{\"class\": \"kitty\"}", "class"), Some("kitty".to_owned()));
    assert_eq!(extract_json_str("{\"class\":\n\t\"a b\",", "class"), Some("a b".to_owned()));
    assert_eq!(extract_json_str("{\"class\": 5, \"x\": \"y\"}", "class"), None);
    assert_eq!(extract_json_str("{\"class\":", "class"), None);
    assert_eq!(extract_json_str("\"c\":1,\"c\":\"a\"", "c"), Some("a".to_owned()));
    assert_eq!(extract_json_str("\"c\": null, \"c\": \"a\", \"c\": \"b\"", "c"), Some("a".to_owned()));
    assert_eq!(extract_json_str("{\"class\": \"a \\\"b\\\"\"}", "class"), Some("a \\".to_owned()));
    assert_eq!(extract_json_str("{\"class\":\"kitty", "class"), None);
}

#[test]
fn the_active_window_needs_a_process() {
    assert_eq!(
        active_window(Some("{\"pid\": 5,\"class\":\"kitty\",\"title\":\"~\"}")),
        Some((5, "kitty".to_owned(), "~".to_owned()))
    );
    assert_eq!(
        active_window(Some("{\"pid\": 42, \"class\": \"kitty\", \"title\": \"zsh\"}")),
        Some((42, "kitty".to_owned(), "zsh".to_owned()))
    );
    assert_eq!(active_window(Some("{\"pid\": 5}")), Some((5, String::new(), String::new())));
    assert_eq!(active_window(Some("{\"class\":\"kitty\"}")), None);
    assert_eq!(active_window(None), None);
}

#[test]
fn directories_are_tried_in_order() {
    let dirs = candidate_hypr_dirs(
        Some("sig"),
        &strings(&["/tmp/hypr/a"]),
        &strings(&["/run/user/1000/hypr/b"]),
    );
    assert_eq!(dirs.len(), 1 + 100 + 2);
    assert_eq!(dirs[0], "/tmp/hypr/sig");
    assert_eq!(dirs[1], "/run/user/1000/hypr/sig");
    assert_eq!(dirs[100], "/run/user/1099/hypr/sig");
    assert_eq!(dirs[101], "/tmp/hypr/a");
    assert_eq!(dirs[102], "/run/user/1000/hypr/b");
    assert_eq!(
        candidate_hypr_dirs(None, &strings(&["/tmp/hypr/a"]), &strings(&[])),
        strings(&["/tmp/hypr/a"])
    );
}

#[test]
fn the_first_socket_that_is_there_is_taken() {
    let dirs = strings(&["/tmp/hypr/a", "/tmp/hypr/b/", "/tmp/hypr/c"]);
    assert_eq!(socket_in("/tmp/hypr/a"), "/tmp/hypr/a/.socket.sock");
    assert_eq!(
        hyprland_socket(&dirs, &vec![false, true, true]),
        Some("/tmp/hypr/b/.socket.sock".to_owned())
    );
    assert_eq!(hyprland_socket(&dirs, &vec![false, false, false]), None);
}
