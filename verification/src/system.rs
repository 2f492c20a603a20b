//! What the library asks of the operating system, and what it hears back.
//!
//! A driver carries each [`SystemCall`] out and hands the [`SystemReply`] back.  The crate itself
//! touches the system in two places only: [`crate::freezer::send_signal`] sends a signal on behalf of
//! the driver, and [`crate::state`] reads the clocks.
use vstd::prelude::*;

use crate::cgroup::{check_cgroup_v2, mounts_unified, CgroupDir, Setting};
use crate::hyprland::HyprRequest;
use crate::modes::{mode_name, Mode};
use crate::protocol::{LOG_DIR, STATE_FILE};
use crate::text::{
    blank, chars_of, contains, decimal, decimal_string, is_space, law_decimals_have_digits_only,
    law_lines_end_at_line_feeds, law_trimming_takes_white_space_only, lines_of, opt_text, same_text,
    trim, trimmed,
};
use crate::whitelist::{Proc, ProcTable};

verus! {

/// The signals that freeze and thaw a process.
#[derive(Debug, Clone, Copy, PartialEq, Eq, Structural)]
pub enum Signal {
    /// `SIGSTOP`
    Stop,
    /// `SIGCONT`
    Continue,
}

/// What became of a signal.
#[derive(Debug, Clone, Copy, PartialEq, Eq, Structural)]
pub enum SignalOutcome {
    Delivered,
    /// There is no such process (`ESRCH`).
    NoSuchProcess,
    /// Any other error.
    Failed,
}

/// The entries of the log file.
#[derive(Debug, Clone, Copy)]
pub enum LogEntry {
    RecoveryStarted,
    Thawed(u64),
    WorkspaceUnlocked,
    CgroupReset,
    RecoveryComplete,
    ModeSet(Mode),
    EmergencyTriggered,
    EmergencyComplete,
    ShutdownStarted,
    ShutdownComplete,
}

/// One thing asked of the system.
#[derive(Debug, Clone, Copy)]
pub enum SystemCall {
    /// See whether the root of the cgroup hierarchy exists, read `/proc/mounts`, and see whether the
    /// daemon's part of the hierarchy can be written.
    ProbeCgroup,
    /// Create a cgroup directory, and its parents, unless it exists.
    CreateDir(CgroupDir),
    /// Remove a cgroup directory.
    RemoveDir(CgroupDir),
    /// Write a setting to its file in a cgroup directory.
    Write(CgroupDir, Setting),
    /// Read the list of the processes in a cgroup directory.
    ReadProcs(CgroupDir),
    /// Read `/proc/meminfo`.
    ReadMeminfo,
    /// Read what `/proc` says of every process.
    ScanProcesses,
    /// Send a signal to a process.
    Signal(u32, Signal),
    /// Send a request to the compositor.
    Hyprland(HyprRequest),
    /// Create the directory of the state file unless it exists.
    CreateStateDir,
    /// Write the state to the temporary file beside the state file, and flush it to the disk.
    WriteStateTmp,
    /// Rename the temporary file over the state file.
    RenameState,
    /// Append an entry to the log file.
    AppendLog(LogEntry),
}

/// What the system answered.
#[derive(Debug, Clone)]
pub enum SystemReply {
    /// Did it succeed?
    Outcome(bool),
    /// The text that was read, if it could be.
    Text(Option<String>),
    /// Does the root of the cgroup hierarchy exist, what does `/proc/mounts` hold, and can the
    /// daemon's part of the hierarchy be written?
    Probe { root_exists: bool, mounts: Option<String>, writable: bool },
    /// What the compositor answered, if it did.
    Answer(Option<String>),
    /// The scan of the process table.
    Table(ProcTable),
    /// What became of the signal.
    Signalled(SignalOutcome),
}

/// Does the answer of the compositor say that it did what it was asked for?  Any other answer
/// reports an error.
pub open spec fn accepted(answer: Seq<char>) -> bool {
    trimmed(answer) == "ok"@
}

impl SystemReply {
    /// Does the reply report success?
    pub open spec fn succeeded(self) -> bool {
        match self {
            SystemReply::Outcome(ok) => ok,
            SystemReply::Text(text) => text is Some,
            SystemReply::Probe { root_exists, mounts, writable } => root_exists && (opt_text(
                mounts,
            ) matches Some(text) && mounts_unified(text)) && writable,
            SystemReply::Answer(answer) => opt_text(answer) matches Some(text) && accepted(text),
            SystemReply::Table(_) => true,
            SystemReply::Signalled(outcome) => outcome == SignalOutcome::Delivered,
        }
    }

    /// The text that was read.
    pub open spec fn text_read(self) -> Option<Seq<char>> {
        match self {
            SystemReply::Text(text) => opt_text(text),
            _ => None,
        }
    }

    /// The scan; empty if there is none.
    pub open spec fn scan(self) -> Seq<Proc> {
        match self {
            SystemReply::Table(table) => table@,
            _ => seq![],
        }
    }

    /// What became of a signal; a reply of another kind counts as a failure.
    pub open spec fn signalled(self) -> SignalOutcome {
        match self {
            SystemReply::Signalled(outcome) => outcome,
            _ => SignalOutcome::Failed,
        }
    }

    /// Does the reply report success?
    pub fn is_success(&self) -> (r: bool)
        ensures
            r == self.succeeded(),
    {
        match self {
            SystemReply::Outcome(ok) => *ok,
            SystemReply::Text(text) => text.is_some(),
            SystemReply::Probe { root_exists, mounts, writable } => match mounts {
                Some(text) => check_cgroup_v2(
                    *root_exists,
                    Some(text.as_str()),
                    *writable,
                ).is_ok(),
                None => false,
            },
            SystemReply::Answer(answer) => match answer {
                Some(text) => same_text(
                    trim(chars_of(text.as_str()).as_slice()),
                    chars_of("ok").as_slice(),
                ),
                None => false,
            },
            SystemReply::Table(_) => true,
            SystemReply::Signalled(outcome) => *outcome == SignalOutcome::Delivered,
        }
    }

    /// The text that was read.
    pub fn text(&self) -> (r: Option<&str>)
        ensures
            match r {
                Some(t) => self.text_read() == Some(t@),
                None => self.text_read() is None,
            },
    {
        match self {
            SystemReply::Text(text) => match text {
                Some(t) => Some(t.as_str()),
                None => None,
            },
            _ => None,
        }
    }

    /// What became of a signal.
    pub fn signal_outcome(&self) -> (r: SignalOutcome)
        ensures
            r == self.signalled(),
    {
        match self {
            SystemReply::Signalled(outcome) => *outcome,
            _ => SignalOutcome::Failed,
        }
    }
}

// ---------------------------------------------------------------------------------------------
//  The log file
// ---------------------------------------------------------------------------------------------

/// The message of a log entry.
pub open spec fn log_message(entry: LogEntry) -> Seq<char> {
    match entry {
        LogEntry::RecoveryStarted => "Recovery started after dirty shutdown"@,
        LogEntry::Thawed(n) => "Thawed "@ + decimal(n as nat) + " PIDs"@,
        LogEntry::WorkspaceUnlocked => "Workspace switching unlocked"@,
        LogEntry::CgroupReset => "Cgroup state reset"@,
        LogEntry::RecoveryComplete => "Recovery complete"@,
        LogEntry::ModeSet(mode) => "Mode set to "@ + mode_name(mode),
        LogEntry::EmergencyTriggered => "Emergency restore triggered"@,
        LogEntry::EmergencyComplete => "Emergency restore complete"@,
        LogEntry::ShutdownStarted => "Clean shutdown started"@,
        LogEntry::ShutdownComplete => "Clean shutdown complete"@,
    }
}

/// A line of the log file: the time, then the message.
pub open spec fn log_line(timestamp: u64, message: Seq<char>) -> Seq<char> {
    "["@ + decimal(timestamp as nat) + "] "@ + message + "\n"@
}

impl LogEntry {
    /// The message of the entry.
    pub fn message(&self) -> (r: String)
        ensures
            r@ == log_message(*self),
    {
        match self {
            LogEntry::RecoveryStarted => "Recovery started after dirty shutdown".to_owned(),
            LogEntry::Thawed(n) => {
                let mut out = "Thawed ".to_owned();
                out.append(decimal_string(*n).as_str());
                out.append(" PIDs");
                out
            },
            LogEntry::WorkspaceUnlocked => "Workspace switching unlocked".to_owned(),
            LogEntry::CgroupReset => "Cgroup state reset".to_owned(),
            LogEntry::RecoveryComplete => "Recovery complete".to_owned(),
            LogEntry::ModeSet(mode) => {
                let mut out = "Mode set to ".to_owned();
                out.append(mode.as_str());
                out
            },
            LogEntry::EmergencyTriggered => "Emergency restore triggered".to_owned(),
            LogEntry::EmergencyComplete => "Emergency restore complete".to_owned(),
            LogEntry::ShutdownStarted => "Clean shutdown started".to_owned(),
            LogEntry::ShutdownComplete => "Clean shutdown complete".to_owned(),
        }
    }
}

/// The line that `message` makes in the log file.
pub fn write_log(timestamp: u64, message: &str) -> (r: String)
    ensures
        r@ == log_line(timestamp, message@),
{
    let mut out = "[".to_owned();
    out.append(decimal_string(timestamp).as_str());
    out.append("] ");
    out.append(message);
    out.append("\n");
    out
}

/// The path of the log file.
pub fn log_file() -> (r: String)
    ensures
        r@ == LOG_DIR@ + "/supaa.log"@,
{
    let mut out = LOG_DIR.to_owned();
    out.append("/supaa.log");
    out
}

/// The path of the temporary file beside the state file.
pub fn state_tmp_file() -> (r: String)
    ensures
        r@ == STATE_FILE@ + ".tmp"@,
{
    let mut out = STATE_FILE.to_owned();
    out.append(".tmp");
    out
}

// ---------------------------------------------------------------------------------------------
//  Laws
// ---------------------------------------------------------------------------------------------

/// The compositor has accepted a request exactly if its answer is `ok`, with or without white space
/// around it.
pub proof fn law_only_ok_is_accepted(left: Seq<char>, answer: Seq<char>, right: Seq<char>)
    requires
        blank(left),
        blank(right),
        answer.len() > 0,
        !is_space(answer[0]),
        !is_space(answer.last()),
    ensures
        accepted(left + answer + right) <==> answer == "ok"@,
        !accepted(left),
{
    reveal_strlit("ok");
    assert("ok"@.len() == 2);
    law_trimming_takes_white_space_only(left, answer, right);
    law_trimming_takes_white_space_only(left, answer, left);
}

/// The hierarchy can be used exactly if its root exists, a file system of the type `cgroup2` is mounted,
/// and the daemon's part can be written.
pub proof fn law_hierarchy_needs_all_three(
    root_exists: bool,
    mounts: Option<String>,
    writable: bool,
)
    ensures
        (SystemReply::Probe { root_exists, mounts, writable }).succeeded() <==> {
            &&& root_exists
            &&& writable
            &&& mounts matches Some(text) && contains(text@, "cgroup2"@)
        },
{
}

/// A signal has succeeded only if it was delivered; a request to the compositor only if it was accepted;
/// a reading only if it gave a text.
pub proof fn law_failures_are_no_success(
    outcome: SignalOutcome,
    answer: Option<String>,
    text: Option<String>,
    ok: bool,
)
    ensures
        SystemReply::Signalled(outcome).succeeded() <==> outcome == SignalOutcome::Delivered,
        SystemReply::Signalled(outcome).signalled() == outcome,
        SystemReply::Answer(answer).succeeded() <==> (answer matches Some(a) && accepted(a@)),
        SystemReply::Text(text).succeeded() <==> text is Some,
        SystemReply::Text(text).text_read() is Some <==> text is Some,
        text matches Some(t) ==> SystemReply::Text(text).text_read() == Some(t@),
        SystemReply::Outcome(ok).succeeded() == ok,
{
}

/// A log entry is one line: its time in brackets, a space, and the message.
pub proof fn law_log_entries_are_lines(timestamp: u64, message: Seq<char>, rest: Seq<char>)
    requires
        !message.contains('\n'),
        message.len() > 0 ==> message.last() != '\r',
    ensures
        lines_of(log_line(timestamp, message) + rest) == seq![
            seq!['['] + decimal(timestamp as nat) + seq![']', ' '] + message,
        ] + lines_of(rest),
{
    reveal_strlit("[");
    reveal_strlit("] ");
    reveal_strlit("\n");
    let line = seq!['['] + decimal(timestamp as nat) + seq![']', ' '] + message;
    law_decimals_have_digits_only(timestamp as nat);
    assert forall|i: int| 0 <= i < line.len() implies line[i] != '\n' by {
        if 1 <= i < 1 + decimal(timestamp as nat).len() {
            assert(line[i] == decimal(timestamp as nat)[i - 1]);
        } else if i >= 3 + decimal(timestamp as nat).len() {
            assert(line[i] == message[i - 3 - decimal(timestamp as nat).len()]);
        }
    }
    assert(!line.contains('\n'));
    assert(log_line(timestamp, message) + rest =~= line + seq!['\n'] + rest);
    law_lines_end_at_line_feeds(line, rest);
    if message.len() > 0 {
        assert(line.last() == message.last());
    } else {
        assert(line.last() == ' ');
    }
}

/// A number of thawed processes is logged as it is, and a mode by the name under which it is shown.
pub proof fn law_log_tells_numbers_and_modes(n: u64, mode: Mode)
    ensures
        log_message(LogEntry::Thawed(n)) == "Thawed "@ + (decimal(n as nat) + " PIDs"@),
        log_message(LogEntry::ModeSet(mode)) == "Mode set to "@ + match mode {
            Mode::Normal => "Normal"@,
            Mode::Supaa => "Supaa"@,
            Mode::SupaaPlus => "Supaa++"@,
        },
{
    assert(log_message(LogEntry::Thawed(n)) =~= "Thawed "@ + (decimal(n as nat) + " PIDs"@));
}

/// A reply that holds no text, no scan or no outcome of a signal counts as unread, as empty or as a
/// failure.
pub proof fn law_other_replies_hold_nothing(reply: SystemReply)
    ensures
        reply !is Signalled ==> reply.signalled() == SignalOutcome::Failed,
        reply !is Text ==> reply.text_read() is None,
        reply !is Table ==> reply.scan().len() == 0,
        reply matches SystemReply::Table(table) ==> reply.scan() == table@ && reply.succeeded(),
{
}

/// A log entry is its time in brackets, a space, the message as it is, and a line feed.
pub proof fn law_messages_are_logged_as_they_are(timestamp: u64, message: Seq<char>)
    ensures
        log_line(timestamp, message) == "["@ + (decimal(timestamp as nat) + ("] "@ + (message
            + "\n"@))),
{
    assert(log_line(timestamp, message) =~= "["@ + (decimal(timestamp as nat) + ("] "@ + (message
        + "\n"@))));
}

} // verus!
