//! The desktop window, without its widgets: what it shows, and what its events lead to.
//!
//! A toolkit draws a [`Screen`] and hands the events in.  What the daemon is to be asked for comes
//! back as commands.
use vstd::prelude::*;

use crate::modes::Mode;
use crate::plan::{effect, Standing};
use crate::protocol::{
    infos, Answer, Command, DaemonStatus, Info, ProcessInfo, Request, Response, Status,
};
use crate::text::{decimal, decimal_string};

verus! {

/// The identifier of the application.
pub const APP_ID: &'static str = "dev.supaa.Supaa";

/// The time between two polls, in milliseconds.
pub const POLL_INTERVAL_MS: u32 = 2000;

/// The greatest number of processes that are listed.
pub const MAX_PROC_LIST: usize = 100;

/// The classes of the badge that shows the mode.
pub const MODE_CSS_CLASSES: [&'static str; 3] = ["mode-normal", "mode-supaa", "mode-supaaplus"];

/// What stands in place of an empty list.
pub const NO_PROCESSES: &'static str = "— no frozen or focused processes —";

/// Which button of the dialog leaves `SupaaPlus`.
pub const QUIT_BUTTON: i32 = 1;

// ---------------------------------------------------------------------------------------------
//  What the daemon replied
// ---------------------------------------------------------------------------------------------

/// The model of a reply, if there was one.
pub open spec fn answered(reply: Option<Response>) -> Option<Answer> {
    match reply {
        Some(response) => Some(response@),
        None => None,
    }
}

/// The status in the reply to a question for it.
pub fn get_status(reply: Option<Response>) -> (r: Option<DaemonStatus>)
    ensures
        match r {
            Some(status) => answered(reply) == Some(Answer::Status(status@)),
            None => !(answered(reply) matches Some(Answer::Status(_))),
        },
{
    match reply {
        Some(Response::Status(status)) => Some(status),
        _ => None,
    }
}

/// Is the process one that is listed?
pub open spec fn is_interesting(info: Info) -> bool {
    info.is_frozen || info.is_focus
}

/// The first of the processes that are frozen or in focus, as many as are listed.
pub open spec fn interesting(list: Seq<Info>) -> Seq<Info> {
    let all = list.filter(|info: Info| is_interesting(info));
    if all.len() <= MAX_PROC_LIST {
        all
    } else {
        all.take(MAX_PROC_LIST as int)
    }
}

/// The processes in the reply to a question for them.
pub open spec fn listed(reply: Option<Answer>) -> Seq<Info> {
    match reply {
        Some(Answer::ProcessList(list)) => list,
        _ => seq![],
    }
}

proof fn lemma_filter_grows(list: Seq<Info>, n: int)
    requires
        0 <= n < list.len(),
    ensures
        list.take(n + 1).filter(|info: Info| is_interesting(info)) == if is_interesting(list[n]) {
            list.take(n).filter(|info: Info| is_interesting(info)).push(list[n])
        } else {
            list.take(n).filter(|info: Info| is_interesting(info))
        },
{
    reveal(Seq::filter);
    assert(list.take(n + 1).drop_last() =~= list.take(n));
}

proof fn lemma_filter_is_prefix(list: Seq<Info>, n: int)
    requires
        0 <= n <= list.len(),
    ensures
        list.take(n).filter(|info: Info| is_interesting(info)).len() <= list.filter(
            |info: Info| is_interesting(info),
        ).len(),
        list.take(n).filter(|info: Info| is_interesting(info)) == list.filter(
            |info: Info| is_interesting(info),
        ).take(list.take(n).filter(|info: Info| is_interesting(info)).len() as int),
    decreases list.len() - n,
{
    let keep = |info: Info| is_interesting(info);
    if n == list.len() {
        assert(list.take(n) =~= list);
        assert(list.filter(keep).take(list.filter(keep).len() as int) =~= list.filter(keep));
    } else {
        lemma_filter_grows(list, n);
        lemma_filter_is_prefix(list, n + 1);
        let some = list.take(n).filter(keep);
        let more = list.take(n + 1).filter(keep);
        assert(some =~= more.take(some.len() as int));
        assert(some =~= list.filter(keep).take(some.len() as int));
    }
}

/// The processes to list, out of the reply to a question for all: those that are frozen or in
/// focus, up to a limit.
pub fn get_interesting_processes(reply: Option<Response>) -> (r: Vec<ProcessInfo>)
    ensures
        infos(r@) == interesting(listed(answered(reply))),
{
    let mut all = match reply {
        Some(Response::ProcessList(all)) => all,
        _ => Vec::new(),
    };
    let ghost list = infos(all@);
    let ghost keep = |info: Info| is_interesting(info);
    proof {
        assert(list =~= listed(answered(reply)));
        assert(list.take(0) =~= Seq::<Info>::empty());
        reveal(Seq::filter);
        assert(list.take(0).filter(keep) =~= Seq::<Info>::empty());
        assert(list.skip(0) =~= list);
    }
    let mut out: Vec<ProcessInfo> = Vec::new();
    let ghost mut n: int = 0;
    proof {
        assert(infos(out@) =~= list.take(0).filter(keep));
    }
    while all.len() > 0 && out.len() < MAX_PROC_LIST
        invariant
            0 <= n <= list.len(),
            infos(all@) == list.skip(n),
            infos(out@) == list.take(n).filter(|info: Info| is_interesting(info)),
            out@.len() <= MAX_PROC_LIST,
        decreases all@.len(),
    {
        proof {
            assert(infos(all@).len() == all@.len());
            assert(infos(all@)[0] == all@[0]@);
            lemma_filter_grows(list, n);
        }
        let ghost before = all@;
        let info = all.remove(0);
        proof {
            assert forall|i: int| 0 <= i < all@.len() implies #[trigger] infos(all@)[i] == list.skip(
                n + 1,
            )[i] by {
                assert(all@[i] == before[i + 1]);
                assert(infos(before)[i + 1] == list.skip(n)[i + 1]);
            }
            assert(infos(all@) =~= list.skip(n + 1));
        }
        if info.is_frozen || info.is_focus {
            let ghost so_far = out@;
            out.push(info);
            proof {
                assert(infos(out@) =~= infos(so_far).push(info@));
            }
        }
        proof {
            n = n + 1;
        }
    }
    proof {
        assert(infos(all@).len() == all@.len());
        assert(infos(out@).len() == out@.len());
        lemma_filter_is_prefix(list, n);
        if all@.len() == 0 {
            assert(list.take(n) =~= list);
        }
        assert(infos(out@) =~= interesting(list));
    }
    out
}

// ---------------------------------------------------------------------------------------------
//  What the window shows
// ---------------------------------------------------------------------------------------------

/// The class of the badge that shows a mode.
pub open spec fn badge_class(mode: Mode) -> Seq<char> {
    match mode {
        Mode::Normal => "mode-normal"@,
        Mode::Supaa => "mode-supaa"@,
        Mode::SupaaPlus => "mode-supaaplus"@,
    }
}

/// The class of the badge that shows a mode.
pub fn mode_css_class(mode: Mode) -> (r: &'static str)
    ensures
        r@ == badge_class(mode),
{
    match mode {
        Mode::Normal => "mode-normal",
        Mode::Supaa => "mode-supaa",
        Mode::SupaaPlus => "mode-supaaplus",
    }
}

/// The labels of a listed process.
#[derive(Debug)]
pub struct Row {
    pub pid: String,
    pub name: String,
    pub state: &'static str,
    /// The class of the state's label.
    pub class: Option<&'static str>,
}

/// The model of a `Row`.
pub ghost struct RowModel {
    pub pid: Seq<char>,
    pub name: Seq<char>,
    pub state: Seq<char>,
    pub class: Option<Seq<char>>,
}

impl View for Row {
    type V = RowModel;

    open spec fn view(&self) -> RowModel {
        RowModel {
            pid: self.pid@,
            name: self.name@,
            state: self.state@,
            class: match self.class {
                Some(class) => Some(class@),
                None => None,
            },
        }
    }
}

/// The labels of a process.  That it is frozen takes precedence over that it is in focus.
pub open spec fn row_of(info: Info) -> RowModel {
    RowModel {
        pid: decimal(info.pid as nat),
        name: info.name,
        state: if info.is_frozen {
            "❄ frozen"@
        } else if info.is_focus {
            "★ focus"@
        } else {
            ""@
        },
        class: if info.is_frozen {
            Some("proc-frozen"@)
        } else if info.is_focus {
            Some("proc-focus"@)
        } else {
            None
        },
    }
}

/// The labels of a process.
pub fn process_row(info: &ProcessInfo) -> (r: Row)
    ensures
        r@ == row_of(info@),
{
    let pid = decimal_string(info.pid as u64);
    let name = info.name.clone();
    if info.is_frozen {
        Row { pid, name, state: "❄ frozen", class: Some("proc-frozen") }
    } else if info.is_focus {
        Row { pid, name, state: "★ focus", class: Some("proc-focus") }
    } else {
        Row { pid, name, state: "", class: None }
    }
}

/// What the window shows but for the list of processes.
#[derive(Debug)]
pub struct Screen {
    /// The mode that the daemon last said it was in.
    pub mode: Mode,
    /// The mode on the badge.
    pub badge: Mode,
    /// Is the warning about `SupaaPlus` shown?
    pub warning: bool,
    /// Has the daemon not answered?
    pub offline: bool,
    /// What the label for the daemon says.
    pub daemon_text: String,
    /// What the label for the focus application says.
    pub focus_text: String,
    /// The window that can be picked, by its process, class and title: the one that was active last.
    pub window: Option<(u32, String, String)>,
}

/// The model of a `Screen`.
pub ghost struct ScreenModel {
    pub mode: Mode,
    pub badge: Mode,
    pub warning: bool,
    pub offline: bool,
    pub daemon_text: Seq<char>,
    pub focus_text: Seq<char>,
    pub window: Option<WindowModel>,
}

/// The model of a window of the desktop.
pub ghost struct WindowModel {
    pub pid: u32,
    pub class: Seq<char>,
    pub title: Seq<char>,
}

/// The model of a window, if there is one.
pub open spec fn window_of(window: Option<(u32, String, String)>) -> Option<WindowModel> {
    match window {
        Some((pid, class, title)) => Some(WindowModel { pid, class: class@, title: title@ }),
        None => None,
    }
}

impl View for Screen {
    type V = ScreenModel;

    open spec fn view(&self) -> ScreenModel {
        ScreenModel {
            mode: self.mode,
            badge: self.badge,
            warning: self.warning,
            offline: self.offline,
            daemon_text: self.daemon_text@,
            focus_text: self.focus_text@,
            window: window_of(self.window),
        }
    }
}

/// A window that has just been opened.
pub open spec fn opened() -> ScreenModel {
    ScreenModel {
        mode: Mode::Normal,
        badge: Mode::Normal,
        warning: false,
        offline: false,
        daemon_text: "● Connecting…"@,
        focus_text: "No focus app"@,
        window: None,
    }
}

/// What the label for the daemon says of a status.
pub open spec fn uptime_text(status: Status) -> Seq<char> {
    "● supaad  uptime "@ + decimal(status.uptime_secs as nat) + "s"@ + if status.state_file_clean {
        ""@
    } else {
        " ⚠ dirty state"@
    }
}

/// The window after a poll, with a status or without an answer.
pub open spec fn polled(screen: ScreenModel, status: Option<Status>) -> ScreenModel {
    match status {
        Some(status) => ScreenModel {
            mode: status.mode,
            badge: status.mode,
            warning: status.mode == Mode::SupaaPlus,
            offline: false,
            daemon_text: uptime_text(status),
            focus_text: match status.focus_app_name {
                Some(name) => name,
                None => "No focus app"@,
            },
            ..screen
        },
        None => ScreenModel {
            offline: true,
            daemon_text: "● supaad offline"@,
            focus_text: ""@,
            ..screen
        },
    }
}

/// The window after a mode has been asked for, before the daemon has said that it is in it.
pub open spec fn announced(screen: ScreenModel, mode: Mode) -> ScreenModel {
    ScreenModel { badge: mode, warning: mode == Mode::SupaaPlus, ..screen }
}

/// The window after the compositor has said which window is active.
///
/// The own window, which becomes active when it is used, is no window to pick: the last other one
/// stays.
pub open spec fn offered(
    screen: ScreenModel,
    window: Option<WindowModel>,
    own_pid: u32,
) -> ScreenModel {
    if window matches Some(w) && w.pid == own_pid {
        screen
    } else {
        ScreenModel { window, ..screen }
    }
}

/// What the picker says of the window that can be picked.
pub open spec fn picker_text(window: Option<WindowModel>) -> Seq<char> {
    match window {
        Some(w) => w.class + " — "@ + w.title,
        None => "No active window"@,
    }
}

/// What the daemon is asked for when a window is picked: its process becomes the focus application,
/// under the name of its class.
pub open spec fn picked(window: Option<WindowModel>) -> Option<Request> {
    match window {
        Some(w) => Some(Request::SetFocusApp { pid: w.pid, name: w.class }),
        None => None,
    }
}

/// Does a key open the dialog that leaves `SupaaPlus`?
pub open spec fn opens_dialog(
    screen: ScreenModel,
    is_super: bool,
    is_shift: bool,
    is_q: bool,
) -> bool {
    is_super && is_shift && is_q && screen.mode == Mode::SupaaPlus
}

/// What the daemon is asked for after the dialog was answered with a button, or dismissed.
pub open spec fn dialog_requests(button: Option<i32>) -> Seq<Request> {
    if button == Some(QUIT_BUTTON) {
        seq![
            Request::EmergencyRestore { quit_after: false },
            Request::SetMode { mode: Mode::Normal },
        ]
    } else {
        seq![]
    }
}

/// The models of some commands.
pub open spec fn requests(commands: Seq<Command>) -> Seq<Request> {
    commands.map_values(|command: Command| command@)
}

impl Screen {
    /// A window that has just been opened.
    pub fn new() -> (r: Self)
        ensures
            r@ == opened(),
    {
        Screen {
            mode: Mode::Normal,
            badge: Mode::Normal,
            warning: false,
            offline: false,
            daemon_text: "● Connecting…".to_owned(),
            focus_text: "No focus app".to_owned(),
            window: None,
        }
    }

    /// Take the status that a poll brought, if it brought one.
    pub fn poll(&mut self, status: Option<DaemonStatus>)
        ensures
            final(self)@ == polled(
                old(self)@,
                match status {
                    Some(status) => Some(status@),
                    None => None,
                },
            ),
    {
        match status {
            Some(status) => {
                self.mode = status.mode;
                self.badge = status.mode;
                self.warning = status.mode == Mode::SupaaPlus;
                self.offline = false;
                let mut text = "● supaad  uptime ".to_owned();
                text.append(decimal_string(status.uptime_secs).as_str());
                text.append("s");
                text.append(if status.state_file_clean { "" } else { " ⚠ dirty state" });
                self.daemon_text = text;
                self.focus_text = match status.focus_app_name {
                    Some(name) => name,
                    None => "No focus app".to_owned(),
                };
            },
            None => {
                self.offline = true;
                self.daemon_text = "● supaad offline".to_owned();
                self.focus_text = "".to_owned();
            },
        }
    }

    /// The button of a mode was pressed: what the daemon is asked for.
    pub fn set_mode(&mut self, mode: Mode) -> (r: Command)
        ensures
            final(self)@ == announced(old(self)@, mode),
            r@ == (Request::SetMode { mode }),
    {
        self.badge = mode;
        self.warning = mode == Mode::SupaaPlus;
        Command::SetMode { mode }
    }

    /// The button of the emergency restoration was pressed: what the daemon is asked for.
    pub fn emergency_restore(&mut self) -> (r: Command)
        ensures
            final(self)@ == announced(old(self)@, Mode::Normal),
            r@ == (Request::EmergencyRestore { quit_after: false }),
    {
        self.badge = Mode::Normal;
        self.warning = false;
        Command::EmergencyRestore { quit_after: false }
    }

    /// Take the active window, as the compositor named it, and the number of the own process.
    pub fn show_window(&mut self, window: Option<(u32, String, String)>, own_pid: u32)
        ensures
            final(self)@ == offered(old(self)@, window_of(window), own_pid),
    {
        if let Some((pid, _, _)) = &window {
            if *pid == own_pid {
                return;
            }
        }
        self.window = window;
    }

    /// What the picker says of the window that can be picked.
    pub fn window_text(&self) -> (r: String)
        ensures
            r@ == picker_text(self@.window),
    {
        match &self.window {
            Some((_, class, title)) => {
                let mut text = class.clone();
                text.append(" — ");
                text.append(title.as_str());
                text
            },
            None => "No active window".to_owned(),
        }
    }

    /// Does a key open the dialog that leaves `SupaaPlus`?
    pub fn opens_exit_dialog(&self, is_super: bool, is_shift: bool, is_q: bool) -> (r: bool)
        ensures
            r == opens_dialog(self@, is_super, is_shift, is_q),
    {
        is_super && is_shift && is_q && self.mode == Mode::SupaaPlus
    }
}

/// What the daemon is asked for when a window is picked: its process becomes the focus application,
/// under the name of its class.
pub fn pick_focus(window: Option<(u32, String, String)>) -> (r: Option<Command>)
    ensures
        match r {
            Some(command) => picked(window_of(window)) == Some(command@),
            None => window is None,
        },
{
    match window {
        Some((pid, class, _)) => Some(Command::SetFocusApp { pid, name: class }),
        None => None,
    }
}

/// What the daemon is asked for after the dialog was answered with a button, or dismissed.
pub fn exit_dialog_commands(button: Option<i32>) -> (r: Vec<Command>)
    ensures
        requests(r@) == dialog_requests(button),
{
    let mut out: Vec<Command> = Vec::new();
    if let Some(button) = button {
        if button == QUIT_BUTTON {
            out.push(Command::EmergencyRestore { quit_after: false });
            out.push(Command::SetMode { mode: Mode::Normal });
        }
    }
    proof {
        assert(requests(out@) =~= dialog_requests(button));
    }
    out
}

// ---------------------------------------------------------------------------------------------
//  Laws
// ---------------------------------------------------------------------------------------------

/// Only processes that are frozen or in focus are listed, each of them is in the reply, and there
/// are no more than the limit.
pub proof fn law_only_interesting_are_listed(list: Seq<Info>)
    ensures
        interesting(list).len() <= MAX_PROC_LIST,
        forall|i: int|
            0 <= i < interesting(list).len() ==> is_interesting(#[trigger] interesting(list)[i])
                && list.contains(interesting(list)[i]),
{
    let keep = |info: Info| is_interesting(info);
    assert forall|i: int| 0 <= i < interesting(list).len() implies is_interesting(
        #[trigger] interesting(list)[i],
    ) && list.contains(interesting(list)[i]) by {
        list.lemma_filter_pred(keep, i);
        assert(list.filter(keep).contains(interesting(list)[i]));
        list.lemma_filter_contains_rev(keep, interesting(list)[i]);
    }
}

/// No process that is frozen or in focus is left out below the limit.
pub proof fn law_interesting_are_listed(list: Seq<Info>, info: Info)
    requires
        list.contains(info),
        is_interesting(info),
        interesting(list).len() < MAX_PROC_LIST,
    ensures
        interesting(list).contains(info),
{
    let keep = |info: Info| is_interesting(info);
    let i = list.index_of(info);
    list.lemma_filter_contains(keep, i);
}

/// The window shows the mode that the daemon last said it was in, and warns in `SupaaPlus` only.
pub proof fn law_poll_shows_the_mode(screen: ScreenModel, status: Status)
    ensures
        polled(screen, Some(status)).mode == status.mode,
        polled(screen, Some(status)).badge == status.mode,
        polled(screen, Some(status)).warning <==> status.mode == Mode::SupaaPlus,
{
}

/// A poll that finds the daemon in the mode that was asked for confirms what the window shows.
pub proof fn law_poll_confirms_a_mode(screen: ScreenModel, mode: Mode, status: Status)
    requires
        status.mode == mode,
    ensures
        polled(announced(screen, mode), Some(status)).badge == announced(screen, mode).badge,
        polled(announced(screen, mode), Some(status)).warning == announced(screen, mode).warning,
{
}

/// A window that was active and then picked is the focus application when the daemon has carried the
/// command out.
pub proof fn law_picked_window_is_focused(
    screen: ScreenModel,
    window: WindowModel,
    own_pid: u32,
    standing: Standing,
)
    requires
        window.pid != own_pid,
    ensures
        picked(offered(screen, Some(window), own_pid).window) matches Some(request) && {
            let after = effect(standing, request);
            after.focus_pid == Some(window.pid) && after.focus_name == Some(window.class)
        },
{
}

/// The class of every mode is one of those that are taken off the badge before another is put on.
pub proof fn law_badge_classes_are_known(mode: Mode)
    ensures
        exists|i: int|
            0 <= i < MODE_CSS_CLASSES@.len() && (#[trigger] MODE_CSS_CLASSES@[i])@ == badge_class(
                mode,
            ),
{
    assert(MODE_CSS_CLASSES@[0]@ == "mode-normal"@);
    assert(MODE_CSS_CLASSES@[1]@ == "mode-supaa"@);
    assert(MODE_CSS_CLASSES@[2]@ == "mode-supaaplus"@);
}

/// The dialog asks the daemon for something only where it was confirmed.
pub proof fn law_dialog_must_be_confirmed(button: Option<i32>)
    ensures
        dialog_requests(button).len() > 0 <==> button == Some(QUIT_BUTTON),
{
}

/// The list grows by a process that is frozen or in focus, at its end, until it holds a hundred; by any
/// other process it does not change.
pub proof fn law_list_grows_to_its_limit(list: Seq<Info>, info: Info)
    ensures
        interesting(list.push(info)) == if (info.is_frozen || info.is_focus) && interesting(
            list,
        ).len() < 100 {
            interesting(list).push(info)
        } else {
            interesting(list)
        },
        interesting(Seq::<Info>::empty()).len() == 0,
{
    let keep = |info: Info| is_interesting(info);
    let more = list.push(info);
    let n = list.len() as int;
    assert(more.take(n + 1) =~= more);
    assert(more.take(n) =~= list);
    lemma_filter_grows(more, n);
    let before = list.filter(keep);
    let after = more.filter(keep);
    if is_interesting(info) {
        assert(after == before.push(info));
        if before.len() >= 100 {
            assert(after.take(100) =~= before.take(100));
            if before.len() == 100 {
                assert(before.take(100) =~= before);
            }
        }
    }
    assert(Seq::<Info>::empty().filter(keep).len() == 0) by {
        reveal(Seq::filter);
    }
}

/// A row shows the number and the name of its process, and marks it as frozen before it marks it as in
/// focus.
pub proof fn law_rows_mark_frozen_first(info: Info)
    ensures
        row_of(info).pid == decimal(info.pid as nat),
        row_of(info).name == info.name,
        info.is_frozen ==> row_of(info).state == "❄ frozen"@ && row_of(info).class == Some(
            "proc-frozen"@,
        ),
        !info.is_frozen && info.is_focus ==> row_of(info).state == "★ focus"@ && row_of(info).class
            == Some("proc-focus"@),
        !info.is_frozen && !info.is_focus ==> row_of(info).state.len() == 0 && row_of(
            info,
        ).class is None,
{
    reveal_strlit("");
}

/// A poll without an answer says that the daemon is offline, and changes neither the mode that is shown
/// nor the window that can be picked.
pub proof fn law_silence_keeps_the_mode(screen: ScreenModel)
    ensures
        polled(screen, None).offline,
        polled(screen, None).daemon_text == "● supaad offline"@,
        polled(screen, None).focus_text.len() == 0,
        polled(screen, None).mode == screen.mode,
        polled(screen, None).badge == screen.badge,
        polled(screen, None).warning == screen.warning,
        polled(screen, None).window == screen.window,
{
    reveal_strlit("");
}

/// A poll with a status says that the daemon is there, for how long, and what is in focus, whatever was
/// shown before.  A state that is not clean is pointed out.
pub proof fn law_poll_shows_the_status(screen: ScreenModel, status: Status)
    ensures
        !polled(screen, Some(status)).offline,
        polled(screen, Some(status)).window == screen.window,
        status.focus_app_name matches Some(name) ==> polled(screen, Some(status)).focus_text == name,
        status.focus_app_name is None ==> polled(screen, Some(status)).focus_text
            == "No focus app"@,
        status.state_file_clean ==> polled(screen, Some(status)).daemon_text
            == "● supaad  uptime "@ + (decimal(status.uptime_secs as nat) + "s"@),
        !status.state_file_clean ==> polled(screen, Some(status)).daemon_text
            == "● supaad  uptime "@ + (decimal(status.uptime_secs as nat) + "s ⚠ dirty state"@),
{
    reveal_strlit("");
    reveal_strlit("s");
    reveal_strlit(" ⚠ dirty state");
    reveal_strlit("s ⚠ dirty state");
    let secs = decimal(status.uptime_secs as nat);
    if status.state_file_clean {
        assert(uptime_text(status) =~= "● supaad  uptime "@ + (secs + "s"@));
    } else {
        assert("s ⚠ dirty state"@ =~= "s"@ + " ⚠ dirty state"@);
        assert(uptime_text(status) =~= "● supaad  uptime "@ + (secs + "s ⚠ dirty state"@));
    }
}

/// Asking for a mode changes the badge and the warning alone; the mode itself waits for the daemon.
pub proof fn law_asking_waits_for_the_daemon(screen: ScreenModel, mode: Mode)
    ensures
        announced(screen, mode).badge == mode,
        announced(screen, mode).warning <==> mode == Mode::SupaaPlus,
        announced(screen, mode).mode == screen.mode,
        announced(screen, mode).offline == screen.offline,
        announced(screen, mode).daemon_text == screen.daemon_text,
        announced(screen, mode).focus_text == screen.focus_text,
        announced(screen, mode).window == screen.window,
{
}

/// The picker offers the active window, or none where there is none.  Its own window it never offers: then
/// the one before stays.
pub proof fn law_own_window_is_never_offered(
    screen: ScreenModel,
    window: WindowModel,
    own_pid: u32,
)
    ensures
        offered(screen, None, own_pid).window is None,
        window.pid != own_pid ==> offered(screen, Some(window), own_pid).window == Some(window),
        window.pid == own_pid ==> offered(screen, Some(window), own_pid) == screen,
        offered(screen, Some(window), own_pid).mode == screen.mode,
        offered(screen, Some(window), own_pid).badge == screen.badge,
        offered(screen, Some(window), own_pid).warning == screen.warning,
        offered(screen, Some(window), own_pid).offline == screen.offline,
        offered(screen, Some(window), own_pid).daemon_text == screen.daemon_text,
        offered(screen, Some(window), own_pid).focus_text == screen.focus_text,
        window.class.is_prefix_of(picker_text(Some(window))),
        window.title.is_suffix_of(picker_text(Some(window))),
        picked(Some(window)) == Some(
            Request::SetFocusApp { pid: window.pid, name: window.class },
        ),
        picked(None) is None,
{
    let text = picker_text(Some(window));
    assert(text.take(window.class.len() as int) =~= window.class);
    assert(text.skip(text.len() - window.title.len()) =~= window.title);
}

/// The dialog opens on the three keys together and in `SupaaPlus` alone.
pub proof fn law_dialog_takes_all_keys(
    screen: ScreenModel,
    is_super: bool,
    is_shift: bool,
    is_q: bool,
)
    ensures
        screen.mode != Mode::SupaaPlus ==> !opens_dialog(screen, is_super, is_shift, is_q),
        screen.mode == Mode::SupaaPlus ==> opens_dialog(screen, true, true, true),
        !opens_dialog(screen, false, is_shift, is_q),
        !opens_dialog(screen, is_super, false, is_q),
        !opens_dialog(screen, is_super, is_shift, false),
{
}

/// Confirming the dialog restores everything while the daemon goes on, and then asks for `Normal`.
pub proof fn law_confirmed_dialog_restores()
    ensures
        dialog_requests(Some(1)) == seq![
            Request::EmergencyRestore { quit_after: false },
            Request::SetMode { mode: Mode::Normal },
        ],
{
}

/// A reply counts as a list of processes only if it is one.
pub proof fn law_other_replies_list_nothing(reply: Option<Answer>)
    ensures
        reply matches Some(Answer::ProcessList(list)) ==> listed(reply) == list,
        !(reply matches Some(Answer::ProcessList(_))) ==> listed(reply).len() == 0,
{
}

/// A window that is found is known by its process, class and title as they are.
pub proof fn law_windows_are_known_as_they_are(
    screen: ScreenModel,
    pid: u32,
    class: String,
    title: String,
    own_pid: u32,
)
    ensures
        window_of(Some((pid, class, title))) == Some(
            WindowModel { pid, class: class@, title: title@ },
        ),
        window_of(None) is None,
        offered(screen, None, own_pid).mode == screen.mode,
        offered(screen, None, own_pid).badge == screen.badge,
        offered(screen, None, own_pid).warning == screen.warning,
        offered(screen, None, own_pid).offline == screen.offline,
        offered(screen, None, own_pid).daemon_text == screen.daemon_text,
        offered(screen, None, own_pid).focus_text == screen.focus_text,
{
}

} // verus!
