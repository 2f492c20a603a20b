//! The state kept on disk, so that the daemon can recover after a crash, and the clocks.
use std::collections::HashSet;
use std::time::{Duration, Instant, SystemTime, SystemTimeError};
use vstd::prelude::*;

use crate::modes::Mode;
use crate::pids::copy_of;
use crate::text::{copy_text, opt_text};

verus! {

broadcast use vstd::std_specs::hash::group_hash_axioms;

// ---------------------------------------------------------------------------------------------
//  Clocks
// ---------------------------------------------------------------------------------------------

/// A point in time on the system clock.
#[verifier::external_type_specification]
#[verifier::external_body]
pub struct ExSystemTime(SystemTime);

/// The error of `SystemTime::duration_since`.
#[verifier::external_type_specification]
#[verifier::external_body]
pub struct ExSystemTimeError(SystemTimeError);

/// A point in time on the clock that never goes back.
#[verifier::external_type_specification]
#[verifier::external_body]
pub struct ExInstant(Instant);

/// `SystemTime::now` of std: the time that the system clock shows.  Nothing is claimed of it.
pub assume_specification[ SystemTime::now ]() -> SystemTime;

/// `SystemTime::duration_since` of std, from the epoch of Unix: the time that passed up to `time`,
/// or an error if `time` is earlier.  Nothing is claimed of it: neither a `SystemTime` nor a
/// `Duration` has a model.
#[verifier::external_body]
fn since_epoch(time: &SystemTime) -> (r: Result<Duration, SystemTimeError>) {
    time.duration_since(SystemTime::UNIX_EPOCH)
}

/// `Duration::as_secs` of std: the whole seconds of a duration.  Nothing is claimed of it: a
/// `Duration` has no model.
pub assume_specification[ Duration::as_secs ](d: &Duration) -> u64;

/// `Instant::now` of std: the present point in time.  Nothing is claimed of it.
pub assume_specification[ Instant::now ]() -> Instant;

/// `Instant::elapsed` of std: the time that passed since.  Nothing is claimed of it.
pub assume_specification[ Instant::elapsed ](i: &Instant) -> Duration;

/// The seconds that a reading of the clock stands for; a clock set before the epoch reads 0.
pub fn seconds_or_zero(reading: Option<u64>) -> (r: u64)
    ensures
        r == match reading {
            Some(s) => s,
            None => 0,
        },
{
    match reading {
        Some(s) => s,
        None => 0,
    }
}

/// Seconds since the epoch of Unix; 0 if the clock is set before it.
pub fn now_unix() -> u64 {
    let reading: Option<u64> = match since_epoch(&SystemTime::now()) {
        Ok(d) => Some(d.as_secs()),
        Err(_) => None,
    };
    seconds_or_zero(reading)
}

/// The whole seconds that passed since `start`.
pub fn seconds_since(start: &Instant) -> u64 {
    start.elapsed().as_secs()
}

// ---------------------------------------------------------------------------------------------
//  The state on disk
// ---------------------------------------------------------------------------------------------

/// The format of the state file.
pub const STATE_VERSION: u32 = 1;

/// The state written to disk on every transition.
#[derive(Debug)]
pub struct PersistedState {
    /// The format of the file.
    pub version: u32,
    /// The mode at the time of the last write.
    pub mode: Mode,
    /// The processes that the daemon froze.  They must be thawed on recovery.
    pub frozen_pids: HashSet<u32>,
    /// Whether workspace switching was locked.
    pub workspace_locked: bool,
    /// When the state was last written, in seconds since the epoch of Unix.
    pub timestamp: u64,
    /// True only after a full restoration.  A state found with `false` is the trace of a crash.
    pub clean_shutdown: bool,
    /// The focus application (informational).
    pub focus_app_pid: Option<u32>,
    /// The name of the focus application (informational).
    pub focus_app_name: Option<String>,
}

/// What a `PersistedState` holds but for its timestamp.  When the timestamp is taken from the clock,
/// and when it stays as it is, contracts say beside the model.
pub ghost struct Saved {
    pub version: u32,
    pub mode: Mode,
    pub frozen_pids: Set<u32>,
    pub workspace_locked: bool,
    pub clean_shutdown: bool,
    pub focus_app_pid: Option<u32>,
    pub focus_app_name: Option<Seq<char>>,
}

impl View for PersistedState {
    type V = Saved;

    open spec fn view(&self) -> Saved {
        Saved {
            version: self.version,
            mode: self.mode,
            frozen_pids: self.frozen_pids@,
            workspace_locked: self.workspace_locked,
            clean_shutdown: self.clean_shutdown,
            focus_app_pid: self.focus_app_pid,
            focus_app_name: opt_text(self.focus_app_name),
        }
    }
}

/// The state of a daemon that has touched nothing.
pub open spec fn pristine() -> Saved {
    Saved {
        version: STATE_VERSION,
        mode: Mode::Normal,
        frozen_pids: Set::empty(),
        workspace_locked: false,
        clean_shutdown: true,
        focus_app_pid: None,
        focus_app_name: None,
    }
}

impl Default for PersistedState {
    fn default() -> (r: Self)
        ensures
            r@ == pristine(),
    {
        PersistedState::new()
    }
}

impl Clone for PersistedState {
    fn clone(&self) -> (r: Self)
        ensures
            r@ == self@,
            r.timestamp == self.timestamp,
    {
        PersistedState {
            version: self.version,
            mode: self.mode,
            frozen_pids: copy_of(&self.frozen_pids),
            workspace_locked: self.workspace_locked,
            timestamp: self.timestamp,
            clean_shutdown: self.clean_shutdown,
            focus_app_pid: self.focus_app_pid,
            focus_app_name: copy_text(&self.focus_app_name),
        }
    }
}

impl PersistedState {
    /// The state of a daemon that has touched nothing.
    pub fn new() -> (r: Self)
        ensures
            r@ == pristine(),
    {
        PersistedState::new_at(now_unix())
    }

    /// The state of a daemon that has touched nothing, at a given time.
    pub fn new_at(now: u64) -> (r: Self)
        ensures
            r@ == pristine(),
            r.timestamp == now,
    {
        PersistedState {
            version: STATE_VERSION,
            mode: Mode::Normal,
            frozen_pids: HashSet::new(),
            workspace_locked: false,
            timestamp: now,
            clean_shutdown: true,
            focus_app_pid: None,
            focus_app_name: None,
        }
    }

    /// Mark as dirty.  To be called before anything is changed that a crash would leave behind.
    pub fn mark_dirty(&mut self)
        ensures
            final(self)@ == (Saved { clean_shutdown: false, ..old(self)@ }),
    {
        self.mark_at(false, now_unix());
    }

    /// Mark as clean.  To be called only after everything is restored.
    pub fn mark_clean(&mut self)
        ensures
            final(self)@ == (Saved { clean_shutdown: true, ..old(self)@ }),
    {
        self.mark_at(true, now_unix());
    }

    /// Mark as clean or dirty, to be written at a given time.
    pub fn mark_at(&mut self, clean: bool, now: u64)
        ensures
            final(self)@ == (Saved { clean_shutdown: clean, ..old(self)@ }),
            final(self).timestamp == now,
    {
        self.clean_shutdown = clean;
        self.timestamp = now;
    }

    pub fn is_dirty(&self) -> (r: bool)
        ensures
            r == !self@.clean_shutdown,
    {
        !self.clean_shutdown
    }
}

/// A daemon that has touched nothing is in `Normal`, has nothing frozen, locked or in focus, and is
/// clean.
pub proof fn law_pristine_state_is_clean()
    ensures
        pristine().version == 1,
        pristine().mode == Mode::Normal,
        pristine().frozen_pids.is_empty(),
        !pristine().workspace_locked,
        pristine().clean_shutdown,
        pristine().focus_app_pid is None,
        pristine().focus_app_name is None,
{
}

} // verus!
