use std::collections::HashSet;
use std::time::{Duration, Instant, SystemTime, UNIX_EPOCH};

use supaa::modes::Mode;
use supaa::state::{now_unix, seconds_or_zero, seconds_since, PersistedState, STATE_VERSION};

fn clock() -> u64 {
    SystemTime::now().duration_since(UNIX_EPOCH).unwrap().as_secs()
}

#[test]
fn the_clock_is_read_in_seconds() {
    let before = clock();
    let now = now_unix();
    assert!(before <= now && now <= clock());
    assert_eq!(seconds_or_zero(Some(7)), 7);
    assert_eq!(seconds_or_zero(None), 0);
}

#[test]
fn elapsed_time_is_in_whole_seconds() {
    assert_eq!(seconds_since(&Instant::now()), 0);
    if let Some(earlier) = Instant::now().checked_sub(Duration::from_millis(2500)) {
        assert_eq!(seconds_since(&earlier), 2);
    }
}

#[test]
fn a_new_state_is_clean() {
    for state in [PersistedState::new(), PersistedState::default(), PersistedState::new_at(5)] {
        assert_eq!(state.version, STATE_VERSION);
        assert_eq!(state.mode, Mode::Normal);
        assert!(state.frozen_pids.is_empty());
        assert!(!state.workspace_locked);
        assert!(state.clean_shutdown);
        assert!(!state.is_dirty());
        assert_eq!(state.focus_app_pid, None);
        assert_eq!(state.focus_app_name, None);
    }
    assert_eq!(STATE_VERSION, 1);
    assert_eq!(PersistedState::new_at(5).timestamp, 5);
}

#[test]
fn marking_changes_the_mark_and_the_time_only() {
    let mut state = PersistedState::new_at(5);
    state.mode = Mode::Supaa;
    state.frozen_pids = HashSet::from([3, 4]);
    state.mark_at(false, 9);
    assert!(state.is_dirty());
    assert_eq!(state.timestamp, 9);
    assert_eq!(state.mode, Mode::Supaa);
    assert_eq!(state.frozen_pids, HashSet::from([3, 4]));
    let before = clock();
    state.mark_clean();
    assert!(!state.is_dirty());
    assert!(state.timestamp >= before);
    state.mark_dirty();
    assert!(state.is_dirty());
    assert_eq!(state.mode, Mode::Supaa);
}

#[test]
fn a_copy_is_the_same() {
    let mut state = PersistedState::new_at(5);
    state.frozen_pids = HashSet::from([3]);
    state.focus_app_name = Some("game".to_owned());
    let copy = state.clone();
    assert_eq!(copy.frozen_pids, HashSet::from([3]));
    assert_eq!(copy.focus_app_name, Some("game".to_owned()));
    assert_eq!(copy.timestamp, 5);
}
