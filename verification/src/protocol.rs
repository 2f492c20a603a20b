//! What clients and the daemon say to each other.
use vstd::prelude::*;

use crate::modes::Mode;
use crate::text::opt_text;

verus! {

/// Path of the socket the daemon listens on.
pub const SOCKET_PATH: &'static str = "/run/supaad.sock";

/// Path of the state file.
pub const STATE_FILE: &'static str = "/var/lib/supaa/state.json";

/// Directory of the log file.
pub const LOG_DIR: &'static str = "/var/log/supaa";

// ---------------------------------------------------------------------------------------------
//  Commands (client to daemon)
// ---------------------------------------------------------------------------------------------

#[derive(Debug, Clone)]
pub enum Command {
    /// Change the operating mode.
    SetMode { mode: Mode },
    /// Make a process the focus application.
    SetFocusApp { pid: u32, name: String },
    /// Have no focus application.
    ClearFocusApp,
    /// Ask for the status of the daemon.
    GetStatus,
    /// Ask for all processes.
    GetProcessList,
    /// Shut the daemon down cleanly.
    Shutdown,
    /// Restore everything, and exit if asked to.
    EmergencyRestore { quit_after: bool },
}

/// The model of a `Command`.
pub ghost enum Request {
    SetMode { mode: Mode },
    SetFocusApp { pid: u32, name: Seq<char> },
    ClearFocusApp,
    GetStatus,
    GetProcessList,
    Shutdown,
    EmergencyRestore { quit_after: bool },
}

impl View for Command {
    type V = Request;

    open spec fn view(&self) -> Request {
        match self {
            Command::SetMode { mode } => Request::SetMode { mode: *mode },
            Command::SetFocusApp { pid, name } => Request::SetFocusApp { pid: *pid, name: name@ },
            Command::ClearFocusApp => Request::ClearFocusApp,
            Command::GetStatus => Request::GetStatus,
            Command::GetProcessList => Request::GetProcessList,
            Command::Shutdown => Request::Shutdown,
            Command::EmergencyRestore { quit_after } => Request::EmergencyRestore {
                quit_after: *quit_after,
            },
        }
    }
}

// ---------------------------------------------------------------------------------------------
//  Responses (daemon to client)
// ---------------------------------------------------------------------------------------------

#[derive(Debug, Clone)]
pub enum Response {
    /// The command was carried out.
    Done,
    Error { message: String },
    Status(DaemonStatus),
    ProcessList(Vec<ProcessInfo>),
}

#[derive(Debug, Clone)]
pub struct DaemonStatus {
    pub mode: Mode,
    pub focus_app_pid: Option<u32>,
    pub focus_app_name: Option<String>,
    pub frozen_count: usize,
    pub workspace_locked: bool,
    pub state_file_clean: bool,
    pub uptime_secs: u64,
}

#[derive(Debug, Clone)]
pub struct ProcessInfo {
    pub pid: u32,
    pub name: String,
    pub is_frozen: bool,
    pub is_focus: bool,
    pub is_whitelisted: bool,
    pub cpu_weight: Option<u64>,
}

/// The model of a `DaemonStatus`.
pub ghost struct Status {
    pub mode: Mode,
    pub focus_app_pid: Option<u32>,
    pub focus_app_name: Option<Seq<char>>,
    pub frozen_count: nat,
    pub workspace_locked: bool,
    pub state_file_clean: bool,
    pub uptime_secs: u64,
}

impl View for DaemonStatus {
    type V = Status;

    open spec fn view(&self) -> Status {
        Status {
            mode: self.mode,
            focus_app_pid: self.focus_app_pid,
            focus_app_name: opt_text(self.focus_app_name),
            frozen_count: self.frozen_count as nat,
            workspace_locked: self.workspace_locked,
            state_file_clean: self.state_file_clean,
            uptime_secs: self.uptime_secs,
        }
    }
}

/// The model of a `ProcessInfo`.
pub ghost struct Info {
    pub pid: u32,
    pub name: Seq<char>,
    pub is_frozen: bool,
    pub is_focus: bool,
    pub is_whitelisted: bool,
    pub cpu_weight: Option<u64>,
}

impl View for ProcessInfo {
    type V = Info;

    open spec fn view(&self) -> Info {
        Info {
            pid: self.pid,
            name: self.name@,
            is_frozen: self.is_frozen,
            is_focus: self.is_focus,
            is_whitelisted: self.is_whitelisted,
            cpu_weight: self.cpu_weight,
        }
    }
}

/// The models of some `ProcessInfo`.
pub open spec fn infos(v: Seq<ProcessInfo>) -> Seq<Info> {
    v.map_values(|p: ProcessInfo| p@)
}

/// The model of a `Response`.
pub ghost enum Answer {
    Done,
    Error { message: Seq<char> },
    Status(Status),
    ProcessList(Seq<Info>),
}

impl View for Response {
    type V = Answer;

    open spec fn view(&self) -> Answer {
        match self {
            Response::Done => Answer::Done,
            Response::Error { message } => Answer::Error { message: message@ },
            Response::Status(s) => Answer::Status(s@),
            Response::ProcessList(list) => Answer::ProcessList(infos(list@)),
        }
    }
}

// ---------------------------------------------------------------------------------------------
//  Framing
// ---------------------------------------------------------------------------------------------

/// A request longer than this is not read to its end.
pub const REQUEST_LIMIT: usize = 65536;

/// A message as it travels: the encoded value, then a line feed.
pub open spec fn framed(payload: Seq<u8>) -> Seq<u8> {
    payload.push(10u8)
}

/// End a message with a line feed.
pub fn frame(payload: Vec<u8>) -> (r: Vec<u8>)
    ensures
        r@ == framed(payload@),
{
    let mut out = payload;
    out.push(10u8);
    out
}

/// Collects the bytes of one request as they arrive.
#[derive(Debug, Clone)]
pub struct RequestBuffer {
    pub bytes: Vec<u8>,
}

/// Is a request that has been read up to `bytes` read no further?
pub open spec fn request_ends(bytes: Seq<u8>) -> bool {
    bytes.len() > REQUEST_LIMIT || bytes.contains(10u8)
}

impl RequestBuffer {
    pub fn new() -> (r: Self)
        ensures
            r.bytes@ == Seq::<u8>::empty(),
    {
        RequestBuffer { bytes: Vec::new() }
    }

    /// Take the next bytes that arrived; none at all means that the client has finished.  Returns
    /// true when the request is complete: the client has finished, a line feed has arrived, or the
    /// limit is passed.
    pub fn feed(&mut self, chunk: &[u8]) -> (done: bool)
        ensures
            final(self).bytes@ == old(self).bytes@ + chunk@,
            done == (chunk@.len() == 0 || request_ends(final(self).bytes@)),
    {
        let mut found = false;
        let mut i: usize = 0;
        while i < self.bytes.len()
            invariant
                i <= self.bytes@.len(),
                self.bytes@ == old(self).bytes@,
                found == self.bytes@.take(i as int).contains(10u8),
            decreases self.bytes@.len() - i,
        {
            proof {
                assert(self.bytes@.take(i + 1) =~= self.bytes@.take(i as int).push(
                    self.bytes@[i as int],
                ));
                lemma_push_contains(self.bytes@.take(i as int), self.bytes@[i as int], 10u8);
            }
            if self.bytes[i] == 10u8 {
                found = true;
            }
            i = i + 1;
        }
        proof {
            assert(self.bytes@.take(i as int) =~= self.bytes@);
            assert(self.bytes@ =~= old(self).bytes@ + chunk@.take(0));
        }
        let mut j: usize = 0;
        while j < chunk.len()
            invariant
                j <= chunk@.len(),
                self.bytes@ == old(self).bytes@ + chunk@.take(j as int),
                found == self.bytes@.contains(10u8),
            decreases chunk@.len() - j,
        {
            let b = chunk[j];
            proof {
                lemma_push_contains(self.bytes@, b, 10u8);
                assert(self.bytes@.push(b) =~= old(self).bytes@ + chunk@.take(j + 1));
            }
            if b == 10u8 {
                found = true;
            }
            self.bytes.push(b);
            j = j + 1;
        }
        proof {
            assert(chunk@.take(j as int) =~= chunk@);
        }
        chunk.len() == 0 || self.bytes.len() > REQUEST_LIMIT || found
    }
}

proof fn lemma_push_contains(s: Seq<u8>, x: u8, y: u8)
    ensures
        s.push(x).contains(y) == (s.contains(y) || x == y),
{
    if s.contains(y) {
        let k = choose|k: int| 0 <= k < s.len() && s[k] == y;
        assert(s.push(x)[k] == y);
    }
    if x == y {
        assert(s.push(x)[s.len() as int] == y);
    }
    if s.push(x).contains(y) && x != y {
        let k = choose|k: int| 0 <= k < s.push(x).len() && s.push(x)[k] == y;
        assert(s[k] == y);
    }
}

/// A message that was framed and holds no line feed of its own is complete as soon as its last
/// byte has arrived, and not before.
pub proof fn law_framed_message_is_complete(payload: Seq<u8>, n: int)
    requires
        !payload.contains(10u8),
        payload.len() <= REQUEST_LIMIT,
        0 <= n <= payload.len(),
    ensures
        request_ends(framed(payload)),
        !request_ends(framed(payload).take(n)),
{
    lemma_push_contains(payload, 10u8, 10u8);
    let part = framed(payload).take(n);
    if part.contains(10u8) {
        let k = choose|k: int| 0 <= k < part.len() && part[k] == 10u8;
        assert(payload[k] == 10u8);
    }
}

/// The answer to a request that could not be decoded.
pub fn parse_error_response(detail: &str) -> (r: Response)
    ensures
        r@ == (Answer::Error { message: "command parse error: "@ + detail@ }),
{
    let mut message = "command parse error: ".to_owned();
    message.append(detail);
    Response::Error { message }
}

/// A frame holds its message and one line feed after it.
pub proof fn law_frame_holds_its_message(payload: Seq<u8>)
    ensures
        framed(payload).drop_last() == payload,
        framed(payload).last() == 10,
        framed(payload).len() == payload.len() + 1,
{
    assert(framed(payload).drop_last() =~= payload);
}

/// A request is read on until a line feed has come, or more than 65536 bytes have.
pub proof fn law_reading_goes_on(bytes: Seq<u8>, byte: u8)
    requires
        !request_ends(bytes),
    ensures
        bytes.len() <= 65536,
        request_ends(bytes.push(byte)) <==> byte == 10 || bytes.len() == 65536,
{
    lemma_push_contains(bytes, byte, 10u8);
}

/// A command asks for what it says.
pub proof fn law_commands_say_what_they_ask(mode: Mode, pid: u32, name: String, quit_after: bool)
    ensures
        (Command::SetMode { mode })@ == (Request::SetMode { mode }),
        (Command::SetFocusApp { pid, name })@ == (Request::SetFocusApp { pid, name: name@ }),
        Command::ClearFocusApp@ == Request::ClearFocusApp,
        Command::GetStatus@ == Request::GetStatus,
        Command::GetProcessList@ == Request::GetProcessList,
        Command::Shutdown@ == Request::Shutdown,
        (Command::EmergencyRestore { quit_after })@ == (Request::EmergencyRestore { quit_after }),
{
}

/// A response answers with what it holds.
pub proof fn law_responses_answer_with_what_they_hold(
    message: String,
    status: DaemonStatus,
    list: Vec<ProcessInfo>,
)
    ensures
        Response::Done@ == Answer::Done,
        (Response::Error { message })@ == (Answer::Error { message: message@ }),
        Response::Status(status)@ matches Answer::Status(s) && {
            &&& s.mode == status.mode
            &&& s.focus_app_pid == status.focus_app_pid
            &&& s.focus_app_name is Some <==> status.focus_app_name is Some
            &&& status.focus_app_name matches Some(name) ==> s.focus_app_name == Some(name@)
            &&& s.frozen_count == status.frozen_count
            &&& s.workspace_locked == status.workspace_locked
            &&& s.state_file_clean == status.state_file_clean
            &&& s.uptime_secs == status.uptime_secs
        },
        Response::ProcessList(list)@ matches Answer::ProcessList(infos) && infos.len() == list@.len()
            && forall|i: int|
            #![trigger infos[i]]
            0 <= i < infos.len() ==> {
                &&& infos[i].pid == list@[i].pid
                &&& infos[i].name == list@[i].name@
                &&& infos[i].is_frozen == list@[i].is_frozen
                &&& infos[i].is_focus == list@[i].is_focus
                &&& infos[i].is_whitelisted == list@[i].is_whitelisted
                &&& infos[i].cpu_weight == list@[i].cpu_weight
            },
{
}

} // verus!
