use std::collections::HashSet;

use supaa::recovery::save_state;
use supaa::system::{Signal, SignalOutcome, SystemCall, SystemReply};
use supaa::task::{Engine, Marker, Progress, Task};

#[test]
fn an_empty_engine_is_idle() {
    let mut engine = Engine::new();
    assert!(engine.idle());
    assert!(matches!(engine.advance(&HashSet::new()), Progress::Idle));
}

#[test]
fn a_call_is_handed_out_until_its_reply_comes() {
    let mut engine = Engine::new();
    let mut frozen = HashSet::new();
    let ours = HashSet::new();
    engine.push_all(vec![Task::Freeze(5), Task::Mark(Marker::Restored)]);
    for _ in 0..3 {
        assert!(matches!(
            engine.advance(&frozen),
            Progress::Call(SystemCall::Signal(5, Signal::Stop))
        ));
    }
    engine.deliver(&SystemReply::Signalled(SignalOutcome::Delivered), &mut frozen, &ours);
    assert_eq!(frozen, HashSet::from([5]));
    assert!(matches!(engine.advance(&frozen), Progress::Mark(Marker::Restored)));
    assert!(engine.idle());
}

#[test]
fn what_is_frozen_is_not_frozen_again() {
    let mut engine = Engine::new();
    engine.push_all(vec![Task::Freeze(5)]);
    assert!(matches!(engine.advance(&HashSet::from([5])), Progress::Busy));
    assert!(engine.idle());
}

#[test]
fn a_reply_that_nobody_waits_for_changes_nothing() {
    let mut engine = Engine::new();
    let mut frozen = HashSet::from([5]);
    engine.push_all(vec![Task::Thaw(5)]);
    engine.deliver(&SystemReply::Outcome(true), &mut frozen, &HashSet::new());
    assert_eq!(frozen, HashSet::from([5]));
    assert_eq!(engine.queue.len(), 1);
}

#[test]
fn a_reply_of_the_wrong_sort_is_a_failure() {
    let mut engine = Engine::new();
    let mut frozen = HashSet::from([5]);
    engine.push_all(vec![Task::Thaw(5)]);
    assert!(matches!(engine.advance(&frozen), Progress::Call(_)));
    engine.deliver(&SystemReply::Outcome(true), &mut frozen, &HashSet::new());
    assert_eq!(frozen, HashSet::from([5]));
    assert!(engine.idle());
}

#[test]
fn a_script_stops_where_a_step_fails() {
    let mut engine = Engine::new();
    let mut frozen = HashSet::new();
    let ours = HashSet::new();
    engine.push_all(vec![Task::Script(save_state())]);
    assert!(matches!(engine.advance(&frozen), Progress::Call(SystemCall::CreateStateDir)));
    engine.deliver(&SystemReply::Outcome(true), &mut frozen, &ours);
    assert!(matches!(engine.advance(&frozen), Progress::Call(SystemCall::WriteStateTmp)));
    engine.deliver(&SystemReply::Outcome(false), &mut frozen, &ours);
    assert!(matches!(engine.advance(&frozen), Progress::Idle));
    assert!(engine.last_run.unwrap().failed);
}

#[test]
fn unlocking_goes_by_what_was_bound() {
    let mut engine = Engine::new();
    let frozen = HashSet::new();
    for (bound, calls) in [(false, 1), (true, 15)] {
        engine.bound = bound;
        engine.push_all(vec![Task::Unlock]);
        let mut seen = 0;
        loop {
            match engine.advance(&frozen) {
                Progress::Call(_) => {
                    seen += 1;
                    let ok = SystemReply::Answer(Some("ok".to_owned()));
                    engine.deliver(&ok, &mut HashSet::new(), &HashSet::new());
                }
                Progress::Busy => {}
                Progress::Idle => break,
                other => panic!("{other:?}"),
            }
        }
        assert_eq!(seen, calls);
        assert!(!engine.bound);
    }
}

#[test]
fn everything_is_thawed_one_by_one() {
    let mut engine = Engine::new();
    let mut frozen = HashSet::from([5, 6, 7]);
    let ours = HashSet::new();
    engine.push_all(vec![Task::ThawAll]);
    let mut thawed = Vec::new();
    loop {
        match engine.advance(&frozen) {
            Progress::Call(SystemCall::Signal(pid, Signal::Continue)) => {
                thawed.push(pid);
                let outcome = match pid {
                    5 => SignalOutcome::Delivered,
                    6 => SignalOutcome::NoSuchProcess,
                    _ => SignalOutcome::Failed,
                };
                engine.deliver(&SystemReply::Signalled(outcome), &mut frozen, &ours);
            }
            Progress::Busy => {}
            Progress::Idle => break,
            other => panic!("{other:?}"),
        }
    }
    thawed.sort();
    assert_eq!(thawed, vec![5, 6, 7]);
    assert_eq!(frozen, HashSet::from([7]));
}
