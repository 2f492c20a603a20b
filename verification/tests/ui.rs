use supaa::modes::Mode;
use supaa::protocol::{Command, DaemonStatus, ProcessInfo, Response};
use supaa::ui::{
    exit_dialog_commands, get_interesting_processes, get_status, mode_css_class, pick_focus,
    process_row, Screen, APP_ID, MAX_PROC_LIST, MODE_CSS_CLASSES, POLL_INTERVAL_MS, QUIT_BUTTON,
};

fn info(pid: u32, is_frozen: bool, is_focus: bool) -> ProcessInfo {
    ProcessInfo {
        pid,
        name: format!("p{pid}"),
        is_frozen,
        is_focus,
        is_whitelisted: false,
        cpu_weight: None,
    }
}

fn status(mode: Mode) -> DaemonStatus {
    DaemonStatus {
        mode,
        focus_app_pid: None,
        focus_app_name: None,
        frozen_count: 0,
        workspace_locked: false,
        state_file_clean: true,
        uptime_secs: 9,
    }
}

fn pids(list: Vec<ProcessInfo>) -> Vec<u32> {
    list.into_iter().map(|p| p.pid).collect()
}

#[test]
fn fixed_values() {
    assert_eq!(APP_ID, "dev.supaa.Supaa");
    assert_eq!(POLL_INTERVAL_MS, 2000);
    assert_eq!(MAX_PROC_LIST, 100);
}

#[test]
fn only_a_status_is_a_status() {
    assert_eq!(get_status(Some(Response::Status(status(Mode::Supaa)))).unwrap().mode, Mode::Supaa);
    assert!(get_status(Some(Response::Done)).is_none());
    assert!(get_status(None).is_none());
}

#[test]
fn frozen_and_focused_processes_are_listed() {
    let list = vec![info(1, false, false), info(2, true, false), info(3, false, true), info(4, false, false)];
    assert_eq!(pids(get_interesting_processes(Some(Response::ProcessList(list)))), vec![2, 3]);
    assert!(get_interesting_processes(None).is_empty());
    assert!(get_interesting_processes(Some(Response::Done)).is_empty());
}

#[test]
fn the_list_has_a_limit() {
    let list: Vec<ProcessInfo> = (0..300).map(|pid| info(pid, pid % 2 == 1, false)).collect();
    let listed = pids(get_interesting_processes(Some(Response::ProcessList(list))));
    assert_eq!(listed.len(), 100);
    assert_eq!(listed[0], 1);
    assert_eq!(listed[99], 199);
}

#[test]
fn every_mode_has_a_class() {
    assert_eq!(mode_css_class(Mode::Normal), "mode-normal");
    assert_eq!(mode_css_class(Mode::Supaa), "mode-supaa");
    assert_eq!(mode_css_class(Mode::SupaaPlus), "mode-supaaplus");
    for mode in [Mode::Normal, Mode::Supaa, Mode::SupaaPlus] {
        assert!(MODE_CSS_CLASSES.contains(&mode_css_class(mode)));
    }
}

#[test]
fn rows_say_what_a_process_is() {
    let row = process_row(&info(7, true, true));
    assert_eq!((row.pid.as_str(), row.name.as_str()), ("7", "p7"));
    assert_eq!((row.state, row.class), ("❄ frozen", Some("proc-frozen")));
    let row = process_row(&info(7, false, true));
    assert_eq!((row.state, row.class), ("★ focus", Some("proc-focus")));
    let row = process_row(&info(7, false, false));
    assert_eq!((row.state, row.class), ("", None));
}

#[test]
fn a_new_window_is_connecting() {
    let screen = Screen::new();
    assert_eq!(screen.daemon_text, "● Connecting…");
    assert_eq!(screen.focus_text, "No focus app");
    assert_eq!((screen.mode, screen.badge), (Mode::Normal, Mode::Normal));
    assert!(!screen.warning && !screen.offline);
}

#[test]
fn a_poll_brings_the_window_up_to_date() {
    let mut screen = Screen::new();
    let mut s = status(Mode::SupaaPlus);
    s.focus_app_name = Some("game".to_owned());
    s.state_file_clean = false;
    screen.poll(Some(s));
    assert_eq!(screen.daemon_text, "● supaad  uptime 9s ⚠ dirty state");
    assert_eq!(screen.focus_text, "game");
    assert_eq!((screen.mode, screen.badge), (Mode::SupaaPlus, Mode::SupaaPlus));
    assert!(screen.warning && !screen.offline);
    screen.poll(None);
    assert_eq!(screen.daemon_text, "● supaad offline");
    assert_eq!(screen.focus_text, "");
    assert_eq!((screen.mode, screen.badge), (Mode::SupaaPlus, Mode::SupaaPlus));
    assert!(screen.warning && screen.offline);
    screen.poll(Some(status(Mode::Normal)));
    assert_eq!(screen.daemon_text, "● supaad  uptime 9s");
    assert_eq!(screen.focus_text, "No focus app");
    assert!(!screen.warning && !screen.offline);
}

#[test]
fn a_button_shows_its_mode_at_once() {
    let mut screen = Screen::new();
    assert!(matches!(
        screen.set_mode(Mode::SupaaPlus),
        Command::SetMode { mode: Mode::SupaaPlus }
    ));
    assert_eq!((screen.mode, screen.badge), (Mode::Normal, Mode::SupaaPlus));
    assert!(screen.warning);
    screen.poll(Some(status(Mode::SupaaPlus)));
    assert_eq!((screen.mode, screen.badge), (Mode::SupaaPlus, Mode::SupaaPlus));
    assert!(screen.warning);
    assert!(matches!(
        screen.emergency_restore(),
        Command::EmergencyRestore { quit_after: false }
    ));
    assert_eq!((screen.mode, screen.badge), (Mode::SupaaPlus, Mode::Normal));
    assert!(!screen.warning);
}

#[test]
fn the_active_window_can_be_picked() {
    let mut screen = Screen::new();
    assert_eq!(screen.window_text(), "No active window");
    assert!(pick_focus(screen.window.clone()).is_none());
    let window = (42, "kitty".to_owned(), "zsh".to_owned());
    screen.show_window(Some(window.clone()), 7);
    assert_eq!(screen.window_text(), "kitty — zsh");
    screen.poll(Some(status(Mode::Normal)));
    screen.poll(None);
    match pick_focus(screen.window.clone()) {
        Some(Command::SetFocusApp { pid, name }) => assert_eq!((pid, name.as_str()), (42, "kitty")),
        other => panic!("{other:?}"),
    }
    screen.show_window(Some((7, "supaa-ui".to_owned(), "Supaa".to_owned())), 7);
    assert_eq!(screen.window, Some(window));
    screen.show_window(None, 7);
    assert_eq!(screen.window, None);
}

#[test]
fn the_dialog_opens_in_supaa_plus_only() {
    let mut screen = Screen::new();
    assert!(!screen.opens_exit_dialog(true, true, true));
    screen.poll(Some(status(Mode::SupaaPlus)));
    assert!(screen.opens_exit_dialog(true, true, true));
    assert!(!screen.opens_exit_dialog(false, true, true));
    assert!(!screen.opens_exit_dialog(true, false, true));
    assert!(!screen.opens_exit_dialog(true, true, false));
}

#[test]
fn the_dialog_must_be_confirmed() {
    assert!(exit_dialog_commands(None).is_empty());
    assert!(exit_dialog_commands(Some(0)).is_empty());
    let commands = exit_dialog_commands(Some(QUIT_BUTTON));
    assert_eq!(commands.len(), 2);
    assert!(matches!(commands[0], Command::EmergencyRestore { quit_after: false }));
    assert!(matches!(commands[1], Command::SetMode { mode: Mode::Normal }));
}
