//! The command line: which command its words ask for, and how a response reads.
use vstd::prelude::*;

use crate::modes::{law_name_reads_back, mode_name, mode_named, Mode};
use crate::protocol::{
    infos, Answer, Command, DaemonStatus, Info, ProcessInfo, Request, Response, Status,
};
use crate::text::{
    chars_of, decimal, decimal_string, law_decimal_reads_back, law_decimals_have_digits_only,
    law_lines_end_at_line_feeds, law_padding_fills_with_spaces, lines_of, padded, parse_u32, parsed,
    push_padded, push_repeated, repeated, same_str, strings,
};

verus! {

/// How the program is used.
pub const USAGE: &'static str =
    "supaa — Supaa Focus Resource Manager CLI

USAGE:
  supaa status                    Show daemon status
  supaa mode <MODE>               Switch mode
  supaa focus <PID> [NAME]        Set focus application
  supaa clear-focus               Clear focus application
  supaa ps                        List all processes
  supaa restore                   Emergency restore (keep daemon running)
  supaa shutdown                  Clean daemon shutdown
  supaa emergency-restore [--quit]  Restore + optionally quit daemon

MODE values:
  normal      Baseline — no throttling or freezing
  supaa       Focus gets boosted CPU/IO; background throttled
  supaa++     Extreme focus; background frozen; workspace locked

";

// ---------------------------------------------------------------------------------------------
//  From words to a command
// ---------------------------------------------------------------------------------------------

/// Why the words of a command line ask for no command.
#[derive(Debug)]
pub enum CliError {
    /// There is no command.
    NoCommand,
    /// There is no such command.
    UnknownCommand(String),
    /// There is no mode to change to.
    MissingMode,
    /// There is no such mode.
    UnknownMode(String),
    /// There is no process number, or it cannot be read.
    MissingPid,
}

/// The model of a `CliError`.
pub ghost enum Refusal {
    NoCommand,
    UnknownCommand(Seq<char>),
    MissingMode,
    UnknownMode(Seq<char>),
    MissingPid,
}

impl View for CliError {
    type V = Refusal;

    open spec fn view(&self) -> Refusal {
        match self {
            CliError::NoCommand => Refusal::NoCommand,
            CliError::UnknownCommand(name) => Refusal::UnknownCommand(name@),
            CliError::MissingMode => Refusal::MissingMode,
            CliError::UnknownMode(name) => Refusal::UnknownMode(name@),
            CliError::MissingPid => Refusal::MissingPid,
        }
    }
}

/// The name that a process has as the focus application where none is given.
pub open spec fn default_name(pid: nat) -> Seq<char> {
    "pid:"@ + decimal(pid)
}

/// What `mode` asks for.
pub open spec fn asked_mode(words: Seq<Seq<char>>) -> Result<Request, Refusal> {
    if words.len() < 3 {
        Err(Refusal::MissingMode)
    } else {
        match mode_named(words[2]) {
            Some(mode) => Ok(Request::SetMode { mode }),
            None => Err(Refusal::UnknownMode(words[2])),
        }
    }
}

/// What `focus` asks for.
pub open spec fn asked_focus(words: Seq<Seq<char>>) -> Result<Request, Refusal> {
    if words.len() < 3 {
        Err(Refusal::MissingPid)
    } else {
        match parsed(words[2], u32::MAX as nat) {
            Some(pid) => Ok(
                Request::SetFocusApp {
                    pid: pid as u32,
                    name: if words.len() > 3 {
                        words[3]
                    } else {
                        default_name(pid)
                    },
                },
            ),
            None => Err(Refusal::MissingPid),
        }
    }
}

/// What the words of a command line ask for.  The first word is the name of the program.
pub open spec fn asked(words: Seq<Seq<char>>) -> Result<Request, Refusal> {
    if words.len() < 2 {
        Err(Refusal::NoCommand)
    } else if words[1] == "status"@ {
        Ok(Request::GetStatus)
    } else if words[1] == "mode"@ {
        asked_mode(words)
    } else if words[1] == "focus"@ {
        asked_focus(words)
    } else if words[1] == "clear-focus"@ {
        Ok(Request::ClearFocusApp)
    } else if words[1] == "ps"@ {
        Ok(Request::GetProcessList)
    } else if words[1] == "shutdown"@ {
        Ok(Request::Shutdown)
    } else if words[1] == "restore"@ {
        Ok(Request::EmergencyRestore { quit_after: false })
    } else if words[1] == "emergency-restore"@ {
        Ok(Request::EmergencyRestore { quit_after: words.len() > 2 && words[2] == "--quit"@ })
    } else {
        Err(Refusal::UnknownCommand(words[1]))
    }
}

fn parse_focus(args: &Vec<String>) -> (r: Result<Command, CliError>)
    ensures
        match r {
            Ok(command) => asked_focus(strings(args@)) == Ok::<Request, Refusal>(command@),
            Err(error) => asked_focus(strings(args@)) == Err::<Request, Refusal>(error@),
        },
{
    if args.len() < 3 {
        return Err(CliError::MissingPid);
    }
    match parse_u32(chars_of(args[2].as_str()).as_slice()) {
        Some(pid) => {
            let name = if args.len() > 3 {
                args[3].clone()
            } else {
                let mut name = "pid:".to_owned();
                name.append(decimal_string(pid as u64).as_str());
                name
            };
            Ok(Command::SetFocusApp { pid, name })
        },
        None => Err(CliError::MissingPid),
    }
}

/// The command that the words of a command line ask for.  The first word is the name of the program.
pub fn parse_args(args: &Vec<String>) -> (r: Result<Command, CliError>)
    ensures
        match r {
            Ok(command) => asked(strings(args@)) == Ok::<Request, Refusal>(command@),
            Err(error) => asked(strings(args@)) == Err::<Request, Refusal>(error@),
        },
{
    if args.len() < 2 {
        return Err(CliError::NoCommand);
    }
    let word = args[1].as_str();
    if same_str(word, "status") {
        Ok(Command::GetStatus)
    } else if same_str(word, "mode") {
        if args.len() < 3 {
            return Err(CliError::MissingMode);
        }
        match Mode::from_str(args[2].as_str()) {
            Some(mode) => Ok(Command::SetMode { mode }),
            None => Err(CliError::UnknownMode(args[2].clone())),
        }
    } else if same_str(word, "focus") {
        parse_focus(args)
    } else if same_str(word, "clear-focus") {
        Ok(Command::ClearFocusApp)
    } else if same_str(word, "ps") {
        Ok(Command::GetProcessList)
    } else if same_str(word, "shutdown") {
        Ok(Command::Shutdown)
    } else if same_str(word, "restore") {
        Ok(Command::EmergencyRestore { quit_after: false })
    } else if same_str(word, "emergency-restore") {
        let quit_after = args.len() > 2 && same_str(args[2].as_str(), "--quit");
        Ok(Command::EmergencyRestore { quit_after })
    } else {
        Err(CliError::UnknownCommand(args[1].clone()))
    }
}

/// A mode can be asked for by its name.
pub proof fn law_mode_is_asked_by_name(program: Seq<char>, mode: Mode)
    ensures
        asked(seq![program, "mode"@, mode_name(mode)]) == Ok::<Request, Refusal>(
            Request::SetMode { mode },
        ),
{
    reveal_strlit("status");
    reveal_strlit("mode");
    assert("mode"@.len() != "status"@.len());
    law_name_reads_back(mode);
}

/// A process can be made the focus application by its number, under a name or without one.
pub proof fn law_focus_is_asked_by_number(program: Seq<char>, pid: u32, name: Seq<char>)
    ensures
        asked(seq![program, "focus"@, decimal(pid as nat), name]) == Ok::<Request, Refusal>(
            Request::SetFocusApp { pid, name },
        ),
        asked(seq![program, "focus"@, decimal(pid as nat)]) == Ok::<Request, Refusal>(
            Request::SetFocusApp { pid, name: default_name(pid as nat) },
        ),
{
    reveal_strlit("status");
    reveal_strlit("mode");
    reveal_strlit("focus");
    assert("focus"@.len() != "status"@.len());
    assert("focus"@.len() != "mode"@.len());
    law_decimal_reads_back(pid as nat, u32::MAX as nat);
}

/// What is said of words that ask for no command.
pub open spec fn complaint(refusal: Refusal) -> Seq<char> {
    match refusal {
        Refusal::NoCommand => USAGE@,
        Refusal::UnknownCommand(name) => "Unknown command '"@ + name + "'\n\n"@ + USAGE@,
        Refusal::MissingMode => "Usage: supaa mode <normal|supaa|supaa++>\n"@,
        Refusal::UnknownMode(name) => "Unknown mode '"@ + name
            + "'. Valid: normal, supaa, supaa++\n"@,
        Refusal::MissingPid => "Usage: supaa focus <PID> [name]\n"@,
    }
}

impl CliError {
    /// What is said of words that ask for no command.
    pub fn message(&self) -> (r: String)
        ensures
            r@ == complaint(self@),
    {
        match self {
            CliError::NoCommand => USAGE.to_owned(),
            CliError::UnknownCommand(name) => {
                let mut out = "Unknown command '".to_owned();
                out.append(name.as_str());
                out.append("'\n\n");
                out.append(USAGE);
                out
            },
            CliError::MissingMode => "Usage: supaa mode <normal|supaa|supaa++>\n".to_owned(),
            CliError::UnknownMode(name) => {
                let mut out = "Unknown mode '".to_owned();
                out.append(name.as_str());
                out.append("'. Valid: normal, supaa, supaa++\n");
                out
            },
            CliError::MissingPid => "Usage: supaa focus <PID> [name]\n".to_owned(),
        }
    }
}

// ---------------------------------------------------------------------------------------------
//  From a response to text
// ---------------------------------------------------------------------------------------------

/// The lines that show a status.
pub open spec fn status_text(status: Status) -> Seq<char> {
    let name = match status.focus_app_name {
        Some(name) => name,
        None => "—"@,
    };
    let pid = match status.focus_app_pid {
        Some(pid) => decimal(pid as nat),
        None => "—"@,
    };
    let locked = if status.workspace_locked {
        "YES"@
    } else {
        "no"@
    };
    let clean = if status.state_file_clean {
        "yes"@
    } else {
        "DIRTY (recovery pending)"@
    };
    "Mode           : "@ + mode_name(status.mode) + "\nFocus app      : "@ + name
        + "\nFocus PID      : "@ + pid + "\nFrozen procs   : "@ + decimal(status.frozen_count)
        + "\nWorkspace lock : "@ + locked + "\nState clean    : "@ + clean
        + "\nUptime         : "@ + decimal(status.uptime_secs as nat) + "s\n"@
}

/// A row of the table of processes.
pub open spec fn row(
    pid: Seq<char>,
    frozen: Seq<char>,
    focus: Seq<char>,
    protected: Seq<char>,
    name: Seq<char>,
) -> Seq<char> {
    padded(pid, 8) + " "@ + padded(frozen, 6) + " "@ + padded(focus, 6) + " "@ + padded(
        protected,
        12,
    ) + " "@ + name + "\n"@
}

/// The row of a process.
pub open spec fn process_row(info: Info) -> Seq<char> {
    row(
        decimal(info.pid as nat),
        if info.is_frozen {
            "✓"@
        } else {
            ""@
        },
        if info.is_focus {
            "✓"@
        } else {
            ""@
        },
        if info.is_whitelisted {
            "protected"@
        } else {
            ""@
        },
        info.name,
    )
}

/// The rows of some processes.
pub open spec fn process_rows(list: Seq<Info>) -> Seq<char>
    decreases list.len(),
{
    if list.len() == 0 {
        seq![]
    } else {
        process_rows(list.drop_last()) + process_row(list.last())
    }
}

/// The table of processes.
pub open spec fn process_table(list: Seq<Info>) -> Seq<char> {
    row("PID"@, "FROZ"@, "FOCUS"@, "WLIST"@, "NAME"@) + repeated('─', 50) + "\n"@ + process_rows(
        list,
    )
}

/// How a response reads.
pub open spec fn shown(answer: Answer) -> Seq<char> {
    match answer {
        Answer::Done => "OK\n"@,
        Answer::Error { message } => "Error: "@ + message + "\n"@,
        Answer::Status(status) => status_text(status),
        Answer::ProcessList(list) => process_table(list),
    }
}

fn render_status(status: &DaemonStatus) -> (out: String)
    ensures
        out@ == status_text(status@),
{
    let mut out = "Mode           : ".to_owned();
    out.append(status.mode.as_str());
    out.append("\nFocus app      : ");
    match &status.focus_app_name {
        Some(name) => out.append(name.as_str()),
        None => out.append("—"),
    }
    out.append("\nFocus PID      : ");
    match status.focus_app_pid {
        Some(pid) => out.append(decimal_string(pid as u64).as_str()),
        None => out.append("—"),
    }
    out.append("\nFrozen procs   : ");
    out.append(decimal_string(status.frozen_count as u64).as_str());
    out.append("\nWorkspace lock : ");
    out.append(if status.workspace_locked { "YES" } else { "no" });
    out.append("\nState clean    : ");
    out.append(if status.state_file_clean { "yes" } else { "DIRTY (recovery pending)" });
    out.append("\nUptime         : ");
    out.append(decimal_string(status.uptime_secs).as_str());
    out.append("s\n");
    out
}

fn push_row(out: &mut String, pid: &str, frozen: &str, focus: &str, protected: &str, name: &str)
    ensures
        final(out)@ == old(out)@ + row(pid@, frozen@, focus@, protected@, name@),
{
    push_padded(out, pid, 8);
    out.append(" ");
    push_padded(out, frozen, 6);
    out.append(" ");
    push_padded(out, focus, 6);
    out.append(" ");
    push_padded(out, protected, 12);
    out.append(" ");
    out.append(name);
    out.append("\n");
    proof {
        assert(out@ =~= old(out)@ + row(pid@, frozen@, focus@, protected@, name@));
    }
}

fn render_processes(list: &Vec<ProcessInfo>) -> (out: String)
    ensures
        out@ == process_table(infos(list@)),
{
    let mut out = String::new();
    push_row(&mut out, "PID", "FROZ", "FOCUS", "WLIST", "NAME");
    push_repeated(&mut out, '─', 50);
    out.append("\n");
    let ghost head = out@;
    let ghost all = infos(list@);
    proof {
        assert(head =~= row("PID"@, "FROZ"@, "FOCUS"@, "WLIST"@, "NAME"@) + repeated('─', 50)
            + "\n"@);
        assert(head + process_rows(all.take(0)) =~= head);
    }
    let mut i: usize = 0;
    while i < list.len()
        invariant
            i <= list@.len(),
            all == infos(list@),
            out@ == head + process_rows(all.take(i as int)),
        decreases list@.len() - i,
    {
        let info = &list[i];
        let ghost before = out@;
        push_row(
            &mut out,
            decimal_string(info.pid as u64).as_str(),
            if info.is_frozen { "✓" } else { "" },
            if info.is_focus { "✓" } else { "" },
            if info.is_whitelisted { "protected" } else { "" },
            info.name.as_str(),
        );
        proof {
            assert(all.take(i + 1).drop_last() =~= all.take(i as int));
            assert(all.take(i + 1).last() == info@);
            assert(out@ =~= head + process_rows(all.take(i + 1)));
        }
        i = i + 1;
    }
    proof {
        assert(all.take(i as int) =~= all);
    }
    out
}

/// How a response reads.
pub fn print_response(response: &Response) -> (r: String)
    ensures
        r@ == shown(response@),
{
    match response {
        Response::Done => "OK\n".to_owned(),
        Response::Error { message } => {
            let mut out = "Error: ".to_owned();
            out.append(message.as_str());
            out.append("\n");
            out
        },
        Response::Status(status) => render_status(status),
        Response::ProcessList(list) => render_processes(list),
    }
}

/// Is the response an error, which goes to the error output, and after which the program fails?
pub fn is_failure(response: &Response) -> (r: bool)
    ensures
        r == (response@ is Error),
{
    match response {
        Response::Error { .. } => true,
        _ => false,
    }
}

// ---------------------------------------------------------------------------------------------
//  Laws
// ---------------------------------------------------------------------------------------------

/// Each command is asked for by its word, whatever words come after those that it reads.
pub proof fn law_commands_are_asked_by_word(words: Seq<Seq<char>>)
    requires
        words.len() >= 2,
    ensures
        words[1] == "status"@ ==> asked(words) == Ok::<Request, Refusal>(Request::GetStatus),
        words[1] == "clear-focus"@ ==> asked(words) == Ok::<Request, Refusal>(
            Request::ClearFocusApp,
        ),
        words[1] == "ps"@ ==> asked(words) == Ok::<Request, Refusal>(Request::GetProcessList),
        words[1] == "shutdown"@ ==> asked(words) == Ok::<Request, Refusal>(Request::Shutdown),
        words[1] == "restore"@ ==> asked(words) == Ok::<Request, Refusal>(
            Request::EmergencyRestore { quit_after: false },
        ),
        words[1] == "emergency-restore"@ && words.len() > 2 && words[2] == "--quit"@ ==> asked(
            words,
        ) == Ok::<Request, Refusal>(Request::EmergencyRestore { quit_after: true }),
        words[1] == "emergency-restore"@ && (words.len() == 2 || words[2] != "--quit"@) ==> asked(
            words,
        ) == Ok::<Request, Refusal>(Request::EmergencyRestore { quit_after: false }),
        words[1] == "mode"@ && words.len() > 2 ==> match mode_named(words[2]) {
            Some(mode) => asked(words) == Ok::<Request, Refusal>(Request::SetMode { mode }),
            None => asked(words) == Err::<Request, Refusal>(Refusal::UnknownMode(words[2])),
        },
        words[1] == "mode"@ && words.len() == 2 ==> asked(words) == Err::<Request, Refusal>(
            Refusal::MissingMode,
        ),
        words[1] == "focus"@ && (words.len() == 2 || parsed(words[2], u32::MAX as nat) is None)
            ==> asked(words) == Err::<Request, Refusal>(Refusal::MissingPid),
        words[1] == "focus"@ && words.len() > 2 ==> (parsed(
            words[2],
            u32::MAX as nat,
        ) matches Some(pid) ==> (asked(words) matches Ok(Request::SetFocusApp { pid: p, name })
            && p == pid && name == if words.len() > 3 {
            words[3]
        } else {
            "pid:"@ + decimal(pid)
        })),
{
    reveal_strlit("status");
    reveal_strlit("mode");
    reveal_strlit("focus");
    reveal_strlit("clear-focus");
    reveal_strlit("ps");
    reveal_strlit("shutdown");
    reveal_strlit("restore");
    reveal_strlit("emergency-restore");
    assert("status"@.len() == 6 && "mode"@.len() == 4 && "focus"@.len() == 5
        && "clear-focus"@.len() == 11 && "ps"@.len() == 2 && "shutdown"@.len() == 8
        && "restore"@.len() == 7 && "emergency-restore"@.len() == 17);
}

/// Any other word is refused by name, and so is a command line without one.
pub proof fn law_other_words_are_refused(words: Seq<Seq<char>>)
    requires
        words.len() >= 2 ==> words[1] != "status"@ && words[1] != "mode"@ && words[1] != "focus"@
            && words[1] != "clear-focus"@ && words[1] != "ps"@ && words[1] != "shutdown"@
            && words[1] != "restore"@ && words[1] != "emergency-restore"@,
    ensures
        words.len() >= 2 ==> asked(words) == Err::<Request, Refusal>(
            Refusal::UnknownCommand(words[1]),
        ),
        words.len() < 2 ==> asked(words) == Err::<Request, Refusal>(Refusal::NoCommand),
{
}

/// What is refused is named in the complaint, and the usage follows an unknown command.
pub proof fn law_complaints_name_what_is_refused(name: Seq<char>)
    ensures
        ("Unknown command '"@ + name + "'"@).is_prefix_of(
            complaint(Refusal::UnknownCommand(name)),
        ),
        USAGE@.is_suffix_of(complaint(Refusal::UnknownCommand(name))),
        ("Unknown mode '"@ + name + "'"@).is_prefix_of(complaint(Refusal::UnknownMode(name))),
        "normal, supaa, supaa++\n"@.is_suffix_of(complaint(Refusal::UnknownMode(name))),
        complaint(Refusal::NoCommand) == USAGE@,
{
    reveal_strlit("'");
    reveal_strlit("'\n\n");
    reveal_strlit("'. Valid: normal, supaa, supaa++\n");
    reveal_strlit("normal, supaa, supaa++\n");
    let command = complaint(Refusal::UnknownCommand(name));
    let first = "Unknown command '"@ + name + "'"@;
    assert(command.take(first.len() as int) =~= first);
    assert(command.skip(command.len() - USAGE@.len()) =~= USAGE@);
    let mode = complaint(Refusal::UnknownMode(name));
    let second = "Unknown mode '"@ + name + "'"@;
    assert(mode.take(second.len() as int) =~= second);
    let last = "normal, supaa, supaa++\n"@;
    assert(mode.skip(mode.len() - last.len()) =~= last);
}

proof fn lemma_line_comes_off(line: Seq<char>, rest: Seq<char>)
    requires
        !line.contains('\n'),
        line.len() > 0,
        line.last() != '\r',
    ensures
        lines_of(line + (seq!['\n'] + rest)) == seq![line] + lines_of(rest),
{
    law_lines_end_at_line_feeds(line, rest);
    assert(line + (seq!['\n'] + rest) =~= line + seq!['\n'] + rest);
}

proof fn lemma_label_begins_a_line(
    front: Seq<char>,
    lead: Seq<char>,
    label: Seq<char>,
    value: Seq<char>,
)
    requires
        lead == seq!['\n'] + label,
    ensures
        front + lead + value == front + seq!['\n'] + (label + value),
{
    assert(front + lead + value =~= front + seq!['\n'] + (label + value));
}

proof fn lemma_rest_moves_back(front: Seq<char>, line: Seq<char>, rest: Seq<char>)
    ensures
        front + seq!['\n'] + line + rest == front + (seq!['\n'] + (line + rest)),
{
    assert(front + seq!['\n'] + line + rest =~= front + (seq!['\n'] + (line + rest)));
}

proof fn lemma_seven_lines(
    l0: Seq<char>,
    l1: Seq<char>,
    l2: Seq<char>,
    l3: Seq<char>,
    l4: Seq<char>,
    l5: Seq<char>,
    l6: Seq<char>,
)
    requires
        forall|l: Seq<char>|
            l == l0 || l == l1 || l == l2 || l == l3 || l == l4 || l == l5 || l == l6 ==> {
                &&& !#[trigger] l.contains('\n')
                &&& l.len() > 0
                &&& l.last() != '\r'
            },
    ensures
        ({
            let nl = seq!['\n'];
            lines_of(
                l0 + nl + l1 + nl + l2 + nl + l3 + nl + l4 + nl + l5 + nl + l6 + nl,
            ) == seq![l0, l1, l2, l3, l4, l5, l6]
        }),
{
    let nl = seq!['\n'];
    assert(!l0.contains('\n') && !l1.contains('\n') && !l2.contains('\n') && !l3.contains('\n')
        && !l4.contains('\n') && !l5.contains('\n') && !l6.contains('\n'));
    let s1 = l0 + nl + l1;
    let s2 = s1 + nl + l2;
    let s3 = s2 + nl + l3;
    let s4 = s3 + nl + l4;
    let s5 = s4 + nl + l5;
    let none = Seq::<char>::empty();
    assert(nl =~= nl + none);
    let t6 = l6 + (nl + none);
    let t5 = l5 + (nl + t6);
    let t4 = l4 + (nl + t5);
    let t3 = l3 + (nl + t4);
    let t2 = l2 + (nl + t3);
    let t1 = l1 + (nl + t2);
    lemma_rest_moves_back(s5, l6, nl + none);
    lemma_rest_moves_back(s4, l5, nl + t6);
    lemma_rest_moves_back(s3, l4, nl + t5);
    lemma_rest_moves_back(s2, l3, nl + t4);
    lemma_rest_moves_back(s1, l2, nl + t3);
    lemma_rest_moves_back(l0, l1, nl + t2);
    law_lines_end_at_line_feeds(none, none);
    lemma_line_comes_off(l6, none);
    lemma_line_comes_off(l5, t6);
    lemma_line_comes_off(l4, t5);
    lemma_line_comes_off(l3, t4);
    lemma_line_comes_off(l2, t3);
    lemma_line_comes_off(l1, t2);
    lemma_line_comes_off(l0, t1);
    assert(lines_of(l0 + (nl + t1)) =~= seq![l0, l1, l2, l3, l4, l5, l6]);
}

/// A status is shown on seven lines, each with one value behind its label.
pub proof fn law_status_has_seven_lines(status: Status)
    requires
        status.focus_app_name matches Some(name) ==> !name.contains('\n') && !name.contains('\r'),
    ensures
        lines_of(status_text(status)) == seq![
            "Mode           : "@ + match status.mode {
                Mode::Normal => "Normal"@,
                Mode::Supaa => "Supaa"@,
                Mode::SupaaPlus => "Supaa++"@,
            },
            "Focus app      : "@ + match status.focus_app_name {
                Some(name) => name,
                None => "—"@,
            },
            "Focus PID      : "@ + match status.focus_app_pid {
                Some(pid) => decimal(pid as nat),
                None => "—"@,
            },
            "Frozen procs   : "@ + decimal(status.frozen_count),
            "Workspace lock : "@ + if status.workspace_locked {
                "YES"@
            } else {
                "no"@
            },
            "State clean    : "@ + if status.state_file_clean {
                "yes"@
            } else {
                "DIRTY (recovery pending)"@
            },
            "Uptime         : "@ + decimal(status.uptime_secs as nat) + "s"@,
        ],
{
    let name = match status.focus_app_name {
        Some(name) => name,
        None => "—"@,
    };
    let pid = match status.focus_app_pid {
        Some(pid) => decimal(pid as nat),
        None => "—"@,
    };
    let locked = if status.workspace_locked {
        "YES"@
    } else {
        "no"@
    };
    let clean = if status.state_file_clean {
        "yes"@
    } else {
        "DIRTY (recovery pending)"@
    };
    let secs = decimal(status.uptime_secs as nat);
    let count = decimal(status.frozen_count);
    let mode = mode_name(status.mode);
    let nl = seq!['\n'];
    assert(plain(mode)) by {
        reveal_strlit("Normal");
        reveal_strlit("Supaa");
        reveal_strlit("Supaa++");
    }
    assert(plain(name) && plain(pid)) by {
        reveal_strlit("—");
        if let Some(p) = status.focus_app_pid {
            law_decimals_have_digits_only(p as nat);
        }
    }
    assert(plain(locked) && plain(clean)) by {
        reveal_strlit("YES");
        reveal_strlit("no");
        reveal_strlit("yes");
        reveal_strlit("DIRTY (recovery pending)");
    }
    assert(plain(count) && plain(secs)) by {
        law_decimals_have_digits_only(status.uptime_secs as nat);
        law_decimals_have_digits_only(status.frozen_count);
    }
    assert(plain(secs + "s"@) && "s\n"@ == "s"@ + nl) by {
        reveal_strlit("s");
        reveal_strlit("s\n");
        assert("s\n"@ =~= "s"@ + nl);
    }
    assert(plain("Mode           : "@) && "Mode           : "@.len() > 0) by {
        reveal_strlit("Mode           : ");
    }
    assert(plain("Focus app      : "@) && "Focus app      : "@.len() > 0 && "\nFocus app      : "@ == nl
        + "Focus app      : "@) by {
        reveal_strlit("Focus app      : ");
        reveal_strlit("\nFocus app      : ");
        assert("\nFocus app      : "@ =~= nl + "Focus app      : "@);
    }
    assert(plain("Focus PID      : "@) && "Focus PID      : "@.len() > 0 && "\nFocus PID      : "@ == nl
        + "Focus PID      : "@) by {
        reveal_strlit("Focus PID      : ");
        reveal_strlit("\nFocus PID      : ");
        assert("\nFocus PID      : "@ =~= nl + "Focus PID      : "@);
    }
    assert(plain("Frozen procs   : "@) && "Frozen procs   : "@.len() > 0 && "\nFrozen procs   : "@ == nl
        + "Frozen procs   : "@) by {
        reveal_strlit("Frozen procs   : ");
        reveal_strlit("\nFrozen procs   : ");
        assert("\nFrozen procs   : "@ =~= nl + "Frozen procs   : "@);
    }
    assert(plain("Workspace lock : "@) && "Workspace lock : "@.len() > 0 && "\nWorkspace lock : "@ == nl
        + "Workspace lock : "@) by {
        reveal_strlit("Workspace lock : ");
        reveal_strlit("\nWorkspace lock : ");
        assert("\nWorkspace lock : "@ =~= nl + "Workspace lock : "@);
    }
    assert(plain("State clean    : "@) && "State clean    : "@.len() > 0 && "\nState clean    : "@ == nl
        + "State clean    : "@) by {
        reveal_strlit("State clean    : ");
        reveal_strlit("\nState clean    : ");
        assert("\nState clean    : "@ =~= nl + "State clean    : "@);
    }
    assert(plain("Uptime         : "@) && "Uptime         : "@.len() > 0 && "\nUptime         : "@ == nl
        + "Uptime         : "@) by {
        reveal_strlit("Uptime         : ");
        reveal_strlit("\nUptime         : ");
        assert("\nUptime         : "@ =~= nl + "Uptime         : "@);
    }
    let labels = seq![
        "Mode           : "@,
        "Focus app      : "@,
        "Focus PID      : "@,
        "Frozen procs   : "@,
        "Workspace lock : "@,
        "State clean    : "@,
        "Uptime         : "@,
    ];
    let leads = seq![
        nl + "Mode           : "@,
        "\nFocus app      : "@,
        "\nFocus PID      : "@,
        "\nFrozen procs   : "@,
        "\nWorkspace lock : "@,
        "\nState clean    : "@,
        "\nUptime         : "@,
    ];
    let values = seq![mode, name, pid, count, locked, clean, secs + "s"@];
    lemma_labelled_lines(labels, leads, values);
    let front = "Mode           : "@ + mode + "\nFocus app      : "@ + name
        + "\nFocus PID      : "@ + pid + "\nFrozen procs   : "@ + count + "\nWorkspace lock : "@
        + locked + "\nState clean    : "@ + clean + "\nUptime         : "@;
    lemma_tail_is_regrouped(front, secs, "s"@, nl);
    lemma_tail_is_regrouped("Uptime         : "@, secs, "s"@, Seq::<char>::empty());
}

proof fn lemma_tail_is_regrouped(front: Seq<char>, a: Seq<char>, b: Seq<char>, c: Seq<char>)
    ensures
        front + a + (b + c) == front + (a + b) + c,
        front + a + b == front + (a + b),
{
    assert(front + a + (b + c) =~= front + (a + b) + c);
    assert(front + a + b =~= front + (a + b));
}

proof fn lemma_labelled_lines(
    labels: Seq<Seq<char>>,
    leads: Seq<Seq<char>>,
    values: Seq<Seq<char>>,
)
    requires
        labels.len() == 7,
        leads.len() == 7,
        values.len() == 7,
        forall|i: int|
            0 <= i < 7 ==> plain(#[trigger] labels[i]) && labels[i].len() > 0 && leads[i]
                == seq!['\n'] + labels[i],
        forall|i: int| 0 <= i < 7 ==> plain(#[trigger] values[i]),
    ensures
        lines_of(
            labels[0] + values[0] + leads[1] + values[1] + leads[2] + values[2] + leads[3]
                + values[3] + leads[4] + values[4] + leads[5] + values[5] + leads[6] + values[6]
                + seq!['\n'],
        ) == seq![
            labels[0] + values[0],
            labels[1] + values[1],
            labels[2] + values[2],
            labels[3] + values[3],
            labels[4] + values[4],
            labels[5] + values[5],
            labels[6] + values[6],
        ],
{
    let nl = seq!['\n'];
    let l0 = labels[0] + values[0];
    lemma_plain_line(labels[0], values[0]);
    let l1 = labels[1] + values[1];
    lemma_plain_line(labels[1], values[1]);
    let l2 = labels[2] + values[2];
    lemma_plain_line(labels[2], values[2]);
    let l3 = labels[3] + values[3];
    lemma_plain_line(labels[3], values[3]);
    let l4 = labels[4] + values[4];
    lemma_plain_line(labels[4], values[4]);
    let l5 = labels[5] + values[5];
    lemma_plain_line(labels[5], values[5]);
    let l6 = labels[6] + values[6];
    lemma_plain_line(labels[6], values[6]);
    let s0 = l0;
    let s1 = s0 + nl + l1;
    lemma_label_begins_a_line(s0, leads[1], labels[1], values[1]);
    let s2 = s1 + nl + l2;
    lemma_label_begins_a_line(s1, leads[2], labels[2], values[2]);
    let s3 = s2 + nl + l3;
    lemma_label_begins_a_line(s2, leads[3], labels[3], values[3]);
    let s4 = s3 + nl + l4;
    lemma_label_begins_a_line(s3, leads[4], labels[4], values[4]);
    let s5 = s4 + nl + l5;
    lemma_label_begins_a_line(s4, leads[5], labels[5], values[5]);
    let s6 = s5 + nl + l6;
    lemma_label_begins_a_line(s5, leads[6], labels[6], values[6]);
    lemma_seven_lines(l0, l1, l2, l3, l4, l5, l6);
}

/// Is there no line feed and no carriage return in a text?
spec fn plain(s: Seq<char>) -> bool {
    forall|i: int| 0 <= i < s.len() ==> #[trigger] s[i] != '\n' && s[i] != '\r'
}

proof fn lemma_plain_line(label: Seq<char>, value: Seq<char>)
    requires
        label.len() > 0,
        plain(label),
        plain(value),
    ensures
        !(label + value).contains('\n'),
        (label + value).len() > 0,
        (label + value).last() != '\r',
{
    let line = label + value;
    assert forall|i: int| 0 <= i < line.len() implies line[i] != '\n' && line[i] != '\r' by {
        if i < label.len() {
            assert(line[i] == label[i]);
        } else {
            assert(line[i] == value[i - label.len()]);
        }
    }
}

/// The row of a process begins with its number and ends with its name.  In between it is marked as
/// frozen, as in focus and as protected, each in a column of its own, exactly if it is.
pub proof fn law_rows_mark_what_holds(info: Info)
    ensures
        ({
            let number = decimal(info.pid as nat);
            let width = if number.len() > 8 {
                number.len()
            } else {
                8
            } as int;
            &&& number.is_prefix_of(process_row(info))
            &&& (info.name + "\n"@).is_suffix_of(process_row(info))
            &&& process_row(info).len() == width + 28 + info.name.len() + 1
            &&& process_row(info)[width + 1] == '✓' <==> info.is_frozen
            &&& process_row(info)[width + 8] == '✓' <==> info.is_focus
            &&& process_row(info).subrange(width + 15, width + 24) == "protected"@
                <==> info.is_whitelisted
        }),
{
    reveal_strlit("✓");
    reveal_strlit("");
    reveal_strlit(" ");
    reveal_strlit("\n");
    reveal_strlit("protected");
    let number = decimal(info.pid as nat);
    let frozen = if info.is_frozen {
        "✓"@
    } else {
        ""@
    };
    let focus = if info.is_focus {
        "✓"@
    } else {
        ""@
    };
    let protected = if info.is_whitelisted {
        "protected"@
    } else {
        ""@
    };
    let a = padded(number, 8);
    let b = padded(frozen, 6);
    let c = padded(focus, 6);
    let d = padded(protected, 12);
    law_padding_fills_with_spaces(number, 8);
    law_padding_fills_with_spaces(frozen, 6);
    law_padding_fills_with_spaces(focus, 6);
    law_padding_fills_with_spaces(protected, 12);
    let text = process_row(info);
    let w = a.len() as int;
    assert(text.take(number.len() as int) =~= a.take(number.len() as int));
    assert(text.skip(text.len() - info.name.len() - 1) =~= info.name + "\n"@);
    assert(text[w + 1] == b[0]);
    assert(text[w + 8] == c[0]);
    assert(text.subrange(w + 15, w + 24) =~= d.subrange(0, 9));
    if info.is_frozen {
        assert(b[0] == frozen[0]);
    }
    if info.is_focus {
        assert(c[0] == focus[0]);
    }
    if info.is_whitelisted {
        assert(d.subrange(0, 9) =~= protected);
    } else {
        assert(d.subrange(0, 9)[0] == ' ');
    }
}

/// The table shows the same heading over any list, and below it a row for each process, in the same
/// order.
pub proof fn law_table_has_a_row_for_each(list: Seq<Info>, info: Info)
    ensures
        process_table(list.push(info)) == process_table(list) + process_row(info),
{
    assert(list.push(info).drop_last() =~= list);
    assert(process_table(list.push(info)) =~= process_table(list) + process_row(info));
}

/// An error is shown with its message, a success as `OK`, anything else as its own text.
pub proof fn law_answers_are_shown(message: Seq<char>, status: Status, list: Seq<Info>)
    ensures
        shown(Answer::Done) == "OK\n"@,
        shown(Answer::Error { message }) == "Error: "@ + (message + "\n"@),
        shown(Answer::Status(status)) == status_text(status),
        shown(Answer::ProcessList(list)) == process_table(list),
{
    assert(shown(Answer::Error { message }) =~= "Error: "@ + (message + "\n"@));
}

/// The name of the focus application is shown as it is, whatever stands in it, and does not change what is
/// shown behind it.
pub proof fn law_name_is_shown_as_it_is(status: Status, name: Seq<char>)
    ensures
        ({
            let named = status_text(Status { focus_app_name: Some(name), ..status });
            let unnamed = status_text(Status { focus_app_name: None, ..status });
            let front = "Mode           : "@ + mode_name(status.mode) + "\nFocus app      : "@;
            &&& (front + name).is_prefix_of(named)
            &&& (front + "—"@).is_prefix_of(unnamed)
            &&& named.skip((front.len() + name.len()) as int) == unnamed.skip(
                (front.len() + "—"@.len()) as int,
            )
        }),
{
    let front = "Mode           : "@ + mode_name(status.mode) + "\nFocus app      : "@;
    let pid = match status.focus_app_pid {
        Some(pid) => decimal(pid as nat),
        None => "—"@,
    };
    let locked = if status.workspace_locked {
        "YES"@
    } else {
        "no"@
    };
    let clean = if status.state_file_clean {
        "yes"@
    } else {
        "DIRTY (recovery pending)"@
    };
    lemma_front_comes_off(
        front,
        name,
        "—"@,
        "\nFocus PID      : "@,
        pid,
        "\nFrozen procs   : "@,
        decimal(status.frozen_count),
        "\nWorkspace lock : "@,
        locked,
        "\nState clean    : "@,
        clean,
        "\nUptime         : "@,
        decimal(status.uptime_secs as nat),
        "s\n"@,
    );
}

proof fn lemma_front_comes_off(
    front: Seq<char>,
    x: Seq<char>,
    y: Seq<char>,
    a: Seq<char>,
    b: Seq<char>,
    c: Seq<char>,
    d: Seq<char>,
    e: Seq<char>,
    f: Seq<char>,
    g: Seq<char>,
    h: Seq<char>,
    i: Seq<char>,
    j: Seq<char>,
    k: Seq<char>,
)
    ensures
        (front + x).is_prefix_of(front + x + a + b + c + d + e + f + g + h + i + j + k),
        (front + y).is_prefix_of(front + y + a + b + c + d + e + f + g + h + i + j + k),
        (front + x + a + b + c + d + e + f + g + h + i + j + k).skip(
            (front.len() + x.len()) as int,
        ) == (front + y + a + b + c + d + e + f + g + h + i + j + k).skip(
            (front.len() + y.len()) as int,
        ),
{
    let rest = a + b + c + d + e + f + g + h + i + j + k;
    let p = front + x;
    let q = front + y;
    lemma_front_is_regrouped(p, a, b, c, d, e, f, g, h, i, j, k);
    lemma_front_is_regrouped(q, a, b, c, d, e, f, g, h, i, j, k);
    assert((p + rest).take(p.len() as int) =~= p);
    assert((q + rest).take(q.len() as int) =~= q);
    assert((p + rest).skip(p.len() as int) =~= rest);
    assert((q + rest).skip(q.len() as int) =~= rest);
}

proof fn lemma_front_is_regrouped(
    p: Seq<char>,
    a: Seq<char>,
    b: Seq<char>,
    c: Seq<char>,
    d: Seq<char>,
    e: Seq<char>,
    f: Seq<char>,
    g: Seq<char>,
    h: Seq<char>,
    i: Seq<char>,
    j: Seq<char>,
    k: Seq<char>,
)
    ensures
        p + a + b + c + d + e + f + g + h + i + j + k == p + (a + b + c + d + e + f + g + h + i + j
            + k),
{
    let s1 = a + b;
    let s2 = s1 + c;
    let s3 = s2 + d;
    let s4 = s3 + e;
    let s5 = s4 + f;
    let s6 = s5 + g;
    let s7 = s6 + h;
    let s8 = s7 + i;
    let s9 = s8 + j;
    lemma_tail_is_regrouped(p, a, b, c);
    lemma_tail_is_regrouped(p, s1, c, d);
    lemma_tail_is_regrouped(p, s2, d, e);
    lemma_tail_is_regrouped(p, s3, e, f);
    lemma_tail_is_regrouped(p, s4, f, g);
    lemma_tail_is_regrouped(p, s5, g, h);
    lemma_tail_is_regrouped(p, s6, h, i);
    lemma_tail_is_regrouped(p, s7, i, j);
    lemma_tail_is_regrouped(p, s8, j, k);
    lemma_tail_is_regrouped(p, s9, k, k);
}

} // verus!
