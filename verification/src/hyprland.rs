//! Requests to the Hyprland compositor.
//!
//! Workspace switching is locked in one of two ways.  The first is to enter a submap that has no
//! key bindings, which the user's configuration must define.  Where that fails, every key that
//! switches workspaces is bound to a command that does nothing.
use vstd::prelude::*;

use crate::script::{Script, ScriptRun};
use crate::text::{
    blank, chars_of, decimal, decimal_string, find, find_text, is_digit, is_space,
    law_decimals_are_words, law_decimals_have_digits_only, law_decimals_stand_out,
    lemma_find_is_first, lemma_until_splits, parse_u32, parsed, position_of, string_of, strings,
    trim_start, trimmed_start, until,
};

verus! {

/// A request to the compositor.
#[derive(Debug, Clone, Copy)]
pub enum HyprRequest {
    /// Enter the submap without key bindings.
    LockSubmap,
    /// Leave it.
    ResetSubmap,
    /// Bind a workspace key, by its place among them, to a command that does nothing.
    Bind(usize),
    /// Take that binding back.
    Unbind(usize),
    /// Ask for the active window.
    ActiveWindow,
}

// ---------------------------------------------------------------------------------------------
//  Workspace keys
// ---------------------------------------------------------------------------------------------

/// How many keys switch workspaces.
pub const WORKSPACE_KEYS: usize = 14;

/// The modifiers and the key of the `i`-th combination that switches workspaces: the digits 1 to 9
/// and 0, then the arrows, without and with control.
pub open spec fn workspace_key(i: int) -> (Seq<char>, Seq<char>) {
    if 0 <= i < 9 {
        ("SUPER"@, decimal((i + 1) as nat))
    } else if i == 9 {
        ("SUPER"@, "0"@)
    } else if i == 10 {
        ("SUPER"@, "left"@)
    } else if i == 11 {
        ("SUPER"@, "right"@)
    } else if i == 12 {
        ("SUPER CTRL"@, "left"@)
    } else {
        ("SUPER CTRL"@, "right"@)
    }
}

fn workspace_bind(i: usize) -> (r: (String, String))
    ensures
        (r.0@, r.1@) == workspace_key(i as int),
{
    if i < 9 {
        ("SUPER".to_owned(), decimal_string(i as u64 + 1))
    } else if i == 9 {
        ("SUPER".to_owned(), "0".to_owned())
    } else if i == 10 {
        ("SUPER".to_owned(), "left".to_owned())
    } else if i == 11 {
        ("SUPER".to_owned(), "right".to_owned())
    } else if i == 12 {
        ("SUPER CTRL".to_owned(), "left".to_owned())
    } else {
        ("SUPER CTRL".to_owned(), "right".to_owned())
    }
}

/// The key combinations that switch workspaces.
pub fn workspace_binds() -> (r: Vec<(String, String)>)
    ensures
        r@.len() == WORKSPACE_KEYS,
        forall|i: int| 0 <= i < r@.len() ==> ((#[trigger] r@[i]).0@, r@[i].1@) == workspace_key(i),
{
    let mut out: Vec<(String, String)> = Vec::new();
    let mut i: usize = 0;
    while i < WORKSPACE_KEYS
        invariant
            i <= WORKSPACE_KEYS,
            out@.len() == i,
            forall|j: int|
                0 <= j < i ==> ((#[trigger] out@[j]).0@, out@[j].1@) == workspace_key(j),
        decreases WORKSPACE_KEYS - i,
    {
        out.push(workspace_bind(i));
        i = i + 1;
    }
    out
}

/// The text of a request.
pub open spec fn request_text(request: HyprRequest) -> Seq<char> {
    match request {
        HyprRequest::LockSubmap => "dispatch submap supaa_lock"@,
        HyprRequest::ResetSubmap => "dispatch submap reset"@,
        HyprRequest::Bind(i) => "keyword bind "@ + workspace_key(i as int).0 + ","@ + workspace_key(
            i as int,
        ).1 + ",exec,true"@,
        HyprRequest::Unbind(i) => "keyword unbind "@ + workspace_key(i as int).0 + ","@
            + workspace_key(i as int).1,
        HyprRequest::ActiveWindow => "j/activewindow"@,
    }
}

impl HyprRequest {
    /// The text of the request.
    pub fn text(&self) -> (r: String)
        ensures
            r@ == request_text(*self),
    {
        match self {
            HyprRequest::LockSubmap => "dispatch submap supaa_lock".to_owned(),
            HyprRequest::ResetSubmap => "dispatch submap reset".to_owned(),
            HyprRequest::Bind(i) => {
                let (mods, key) = workspace_bind(*i);
                let mut out = "keyword bind ".to_owned();
                out.append(mods.as_str());
                out.append(",");
                out.append(key.as_str());
                out.append(",exec,true");
                out
            },
            HyprRequest::Unbind(i) => {
                let (mods, key) = workspace_bind(*i);
                let mut out = "keyword unbind ".to_owned();
                out.append(mods.as_str());
                out.append(",");
                out.append(key.as_str());
                out
            },
            HyprRequest::ActiveWindow => "j/activewindow".to_owned(),
        }
    }
}

/// Lock workspace switching: the submap first, the key bindings if that fails.
pub fn lock_workspace_switching() -> (r: ScriptRun)
    ensures
        r == ScriptRun::begin(Script::LockWorkspace),
{
    ScriptRun::start(Script::LockWorkspace)
}

/// Unlock workspace switching, by the same two ways.
pub fn unlock_workspace_switching() -> (r: ScriptRun)
    ensures
        r == ScriptRun::begin(Script::UnlockWorkspace),
{
    ScriptRun::start(Script::UnlockWorkspace)
}

/// Unlock workspace switching by both ways, where workspace keys are bound or may be.
pub fn unlock_workspace_keys() -> (r: ScriptRun)
    ensures
        r == ScriptRun::begin(Script::UnlockKeys),
{
    ScriptRun::start(Script::UnlockKeys)
}

// ---------------------------------------------------------------------------------------------
//  The active window
// ---------------------------------------------------------------------------------------------

/// What follows the first occurrence of `needle`.
pub open spec fn after(s: Seq<char>, needle: Seq<char>) -> Option<Seq<char>> {
    match find(s, needle) {
        Some(i) => Some(s.skip(i + needle.len())),
        None => None,
    }
}

/// The number of leading digits.
pub open spec fn digits_len(s: Seq<char>) -> nat
    decreases s.len(),
{
    if s.len() == 0 || !is_digit(s[0]) {
        0
    } else {
        1 + digits_len(s.skip(1))
    }
}

/// The number that follows the first `"key":` in a text, if one does that fits 32 bits.
pub open spec fn json_number(json: Seq<char>, key: Seq<char>) -> Option<nat> {
    match after(json, "\""@ + key + "\":"@) {
        Some(rest) => {
            let value = trimmed_start(rest);
            parsed(value.take(digits_len(value) as int), u32::MAX as nat)
        },
        None => None,
    }
}

/// The text between quotes at the start of a text.
pub open spec fn quoted(s: Seq<char>) -> Option<Seq<char>> {
    if !opens_quote(s) {
        None
    } else {
        let rest = s.skip(1);
        if until(rest, '"') < rest.len() {
            Some(rest.take(until(rest, '"') as int))
        } else {
            None
        }
    }
}

/// Does a text start with a quote?
pub open spec fn opens_quote(s: Seq<char>) -> bool {
    s.len() > 0 && s[0] == '"'
}

/// The text between quotes that follows the first `"key":` after which one stands, with white space
/// or without.
///
/// It ends at the next quote, and is taken as it stands: a quote that is escaped inside the text ends
/// it too.
pub open spec fn json_text(json: Seq<char>, key: Seq<char>) -> Option<Seq<char>>
    decreases json.len(),
{
    match after(json, "\""@ + key + "\":"@) {
        Some(rest) => if opens_quote(trimmed_start(rest)) {
            quoted(trimmed_start(rest))
        } else {
            proof {
                lemma_after_is_shorter(json, key);
            }
            json_text(rest, key)
        },
        None => None,
    }
}

/// What follows a key is shorter than the whole.
pub proof fn lemma_after_is_shorter(json: Seq<char>, key: Seq<char>)
    ensures
        after(json, "\""@ + key + "\":"@) matches Some(rest) ==> rest.len() < json.len(),
{
    let needle = "\""@ + key + "\":"@;
    reveal_strlit("\"");
    reveal_strlit("\":");
    lemma_find_is_first(json, needle);
}

fn skip_past<'a>(s: &'a [char], needle: &[char]) -> (r: Option<&'a [char]>)
    ensures
        match r {
            Some(rest) => after(s@, needle@) == Some(rest@),
            None => after(s@, needle@) is None,
        },
{
    match find_text(s, needle) {
        Some(i) => {
            let end = s.len();
            let rest = vstd::slice::slice_subrange(s, i + needle.len(), end);
            proof {
                assert(rest@ =~= s@.skip(i + needle@.len()));
            }
            Some(rest)
        },
        None => None,
    }
}

proof fn lemma_digits_len_bound(s: Seq<char>)
    ensures
        digits_len(s) <= s.len(),
    decreases s.len(),
{
    if s.len() > 0 && is_digit(s[0]) {
        lemma_digits_len_bound(s.skip(1));
    }
}

fn count_digits(s: &[char]) -> (r: usize)
    ensures
        r == digits_len(s@),
        r <= s@.len(),
{
    let mut i: usize = 0;
    proof {
        assert(s@.skip(0) =~= s@);
        lemma_digits_len_bound(s@);
    }
    while i < s.len() && '0' <= s[i] && s[i] <= '9'
        invariant
            i <= s@.len(),
            digits_len(s@) == i + digits_len(s@.skip(i as int)),
        decreases s@.len() - i,
    {
        proof {
            assert(s@.skip(i as int).skip(1) =~= s@.skip(i + 1));
        }
        i = i + 1;
    }
    i
}

/// The number that stands under `key` in a reply.
pub fn extract_json_u32(json: &str, key: &str) -> (r: Option<u32>)
    ensures
        match r {
            Some(n) => json_number(json@, key@) == Some(n as nat),
            None => json_number(json@, key@) is None,
        },
{
    let mut needle = "\"".to_owned();
    needle.append(key);
    needle.append("\":");
    let chars = chars_of(json);
    match skip_past(chars.as_slice(), chars_of(needle.as_str()).as_slice()) {
        Some(rest) => {
            let value = trim_start(rest);
            let n = count_digits(value);
            let digits = vstd::slice::slice_subrange(value, 0, n);
            proof {
                assert(digits@ =~= value@.take(n as int));
            }
            parse_u32(digits)
        },
        None => None,
    }
}

fn read_quoted(s: &[char]) -> (r: Option<String>)
    ensures
        match r {
            Some(t) => quoted(s@) == Some(t@),
            None => quoted(s@) is None,
        },
{
    let end = s.len();
    if end == 0 || s[0] != '"' {
        return None;
    }
    let rest = vstd::slice::slice_subrange(s, 1, end);
    proof {
        assert(rest@ =~= s@.skip(1));
    }
    let n = position_of(rest, '"');
    if n < rest.len() {
        let value = vstd::slice::slice_subrange(rest, 0, n);
        proof {
            assert(value@ =~= rest@.take(n as int));
        }
        Some(string_of(value))
    } else {
        None
    }
}

/// The text that stands under `key` in a reply, up to the next quote.
pub fn extract_json_str(json: &str, key: &str) -> (r: Option<String>)
    ensures
        match r {
            Some(t) => json_text(json@, key@) == Some(t@),
            None => json_text(json@, key@) is None,
        },
{
    let mut needle = "\"".to_owned();
    needle.append(key);
    needle.append("\":");
    let wanted = chars_of(needle.as_str());
    let chars = chars_of(json);
    let mut text: &[char] = chars.as_slice();
    loop
        invariant
            wanted@ == "\""@ + key@ + "\":"@,
            json_text(text@, key@) == json_text(json@, key@),
        decreases text@.len(),
    {
        match skip_past(text, wanted.as_slice()) {
            Some(rest) => {
                let value = trim_start(rest);
                if value.len() > 0 && value[0] == '"' {
                    return read_quoted(value);
                }
                proof {
                    lemma_after_is_shorter(text@, key@);
                }
                text = rest;
            },
            None => {
                return None;
            },
        }
    }
}

/// The text of an optional text; empty if there is none.
pub open spec fn text_or_empty(s: Option<Seq<char>>) -> Seq<char> {
    match s {
        Some(t) => t,
        None => seq![],
    }
}

/// The process, class and title of the active window, from the reply of the compositor.
/// Class and title end at the first quote in them, if they hold one, and are empty if missing.
pub fn active_window(reply: Option<&str>) -> (r: Option<(u32, String, String)>)
    ensures
        match reply {
            None => r is None,
            Some(json) => match r {
                Some((pid, class, title)) => {
                    &&& json_number(json@, "pid"@) == Some(pid as nat)
                    &&& class@ == text_or_empty(json_text(json@, "class"@))
                    &&& title@ == text_or_empty(json_text(json@, "title"@))
                },
                None => json_number(json@, "pid"@) is None,
            },
        },
{
    let json = match reply {
        Some(json) => json,
        None => {
            return None;
        },
    };
    let pid = match extract_json_u32(json, "pid") {
        Some(pid) => pid,
        None => {
            return None;
        },
    };
    let class = match extract_json_str(json, "class") {
        Some(text) => text,
        None => String::new(),
    };
    let title = match extract_json_str(json, "title") {
        Some(text) => text,
        None => String::new(),
    };
    Some((pid, class, title))
}

proof fn lemma_spaces_are_trimmed(space: Seq<char>, s: Seq<char>)
    requires
        forall|i: int| 0 <= i < space.len() ==> is_space(#[trigger] space[i]),
        s.len() > 0,
        !is_space(s[0]),
    ensures
        trimmed_start(space + s) == s,
    decreases space.len(),
{
    if space.len() == 0 {
        assert(space + s =~= s);
    } else {
        let all = space + s;
        assert(all[0] == space[0]);
        assert(all.skip(1) =~= space.skip(1) + s);
        lemma_spaces_are_trimmed(space.skip(1), s);
    }
}

/// A text written between quotes under its key is found again, whatever stands before and after
/// it, and with any white space after the colon, as long as it holds no quote and the key does not
/// occur earlier.
pub proof fn law_quoted_text_is_found(
    before: Seq<char>,
    key: Seq<char>,
    space: Seq<char>,
    value: Seq<char>,
    rest: Seq<char>,
)
    requires
        forall|i: int| 0 <= i < space.len() ==> is_space(#[trigger] space[i]),
        !value.contains('"'),
        find(
            before + ("\""@ + key + "\":"@) + space + "\""@ + value + "\""@ + rest,
            "\""@ + key + "\":"@,
        ) == Some(before.len() as int),
    ensures
        json_text(
            before + ("\""@ + key + "\":"@) + space + "\""@ + value + "\""@ + rest,
            key,
        ) == Some(value),
{
    let needle = "\""@ + key + "\":"@;
    let json = before + needle + space + "\""@ + value + "\""@ + rest;
    reveal_strlit("\"");
    let start = "\""@ + value + "\""@ + rest;
    assert(json.skip(before.len() as int + needle.len()) =~= space + start);
    lemma_spaces_are_trimmed(space, start);
    let tail = start.skip(1);
    assert(tail =~= value + "\""@ + rest);
    lemma_until_splits(tail, '"');
    let n = until(tail, '"');
    assert(tail[value.len() as int] == '"');
    if n < value.len() {
        assert(value[n as int] == '"');
    }
    assert(n == value.len());
    assert(tail.take(n as int) =~= value);
}

// ---------------------------------------------------------------------------------------------
//  Finding the socket
// ---------------------------------------------------------------------------------------------

/// The users whose runtime directories are tried: from this one
pub const FIRST_UID: u32 = 1000;

/// and below this one.
pub const END_UID: u32 = 1100;

/// The directory of an instance of the compositor under the runtime directory of a user.
pub open spec fn user_dir(uid: nat, signature: Seq<char>) -> Seq<char> {
    "/run/user/"@ + decimal(uid) + "/hypr/"@ + signature
}

/// Where an instance with a known signature may have its socket.
pub open spec fn signature_dirs(signature: Seq<char>) -> Seq<Seq<char>> {
    seq!["/tmp/hypr/"@ + signature] + Seq::new(
        (END_UID - FIRST_UID) as nat,
        |i: int| user_dir((FIRST_UID + i) as nat, signature),
    )
}

/// The directories that may hold the socket: those of the instance whose signature is known, then
/// what `/tmp/hypr` holds, then what `/run/user/*/hypr` holds.
pub fn candidate_hypr_dirs(
    signature: Option<&str>,
    in_tmp: &Vec<String>,
    in_run: &Vec<String>,
) -> (r: Vec<String>)
    ensures
        strings(r@) == (match signature {
            Some(sig) => signature_dirs(sig@),
            None => seq![],
        }) + strings(in_tmp@) + strings(in_run@),
{
    let mut out: Vec<String> = Vec::new();
    if let Some(sig) = signature {
        let mut first = "/tmp/hypr/".to_owned();
        first.append(sig);
        out.push(first);
        let mut uid: u32 = FIRST_UID;
        proof {
            assert(strings(out@) =~= signature_dirs(sig@).take(1));
        }
        while uid < END_UID
            invariant
                FIRST_UID <= uid <= END_UID,
                strings(out@) == signature_dirs(sig@).take(1 + uid - FIRST_UID),
            decreases END_UID - uid,
        {
            let mut dir = "/run/user/".to_owned();
            dir.append(decimal_string(uid as u64).as_str());
            dir.append("/hypr/");
            dir.append(sig);
            let ghost before = out@;
            out.push(dir);
            uid = uid + 1;
            proof {
                assert(strings(out@) =~= strings(before).push(dir@));
                assert(strings(out@) =~= signature_dirs(sig@).take(1 + uid - FIRST_UID));
            }
        }
        proof {
            assert(signature_dirs(sig@).take(1 + uid - FIRST_UID) =~= signature_dirs(sig@));
        }
    }
    let ghost named = strings(out@);
    proof {
        assert(named =~= match signature {
            Some(sig) => signature_dirs(sig@),
            None => seq![],
        });
    }
    push_all(&mut out, in_tmp);
    push_all(&mut out, in_run);
    out
}

fn push_all(out: &mut Vec<String>, more: &Vec<String>)
    ensures
        strings(final(out)@) == strings(old(out)@) + strings(more@),
{
    let mut i: usize = 0;
    proof {
        assert(strings(out@) =~= strings(old(out)@) + strings(more@).take(0));
    }
    while i < more.len()
        invariant
            i <= more@.len(),
            strings(out@) == strings(old(out)@) + strings(more@).take(i as int),
        decreases more@.len() - i,
    {
        let ghost before = out@;
        out.push(more[i].clone());
        i = i + 1;
        proof {
            assert(strings(out@) =~= strings(before).push(more@[i - 1]@));
            assert(strings(out@) =~= strings(old(out)@) + strings(more@).take(i as int));
        }
    }
    proof {
        assert(strings(more@).take(i as int) =~= strings(more@));
    }
}

/// A file in a directory.
pub open spec fn joined(dir: Seq<char>, file: Seq<char>) -> Seq<char> {
    if dir.len() == 0 || dir.last() == '/' {
        dir + file
    } else {
        dir + "/"@ + file
    }
}

/// The path of the socket in the directory of an instance.
pub fn socket_in(dir: &str) -> (r: String)
    ensures
        r@ == joined(dir@, ".socket.sock"@),
{
    let chars = chars_of(dir);
    let mut out = dir.to_owned();
    if chars.len() > 0 && chars[chars.len() - 1] != '/' {
        out.append("/");
    }
    out.append(".socket.sock");
    out
}

/// The socket of the compositor: the first candidate that exists.  `present` says of each
/// directory whether its socket does.
pub fn hyprland_socket(dirs: &Vec<String>, present: &Vec<bool>) -> (r: Option<String>)
    ensures
        match r {
            Some(path) => exists|i: int|
                #![trigger dirs@[i]]
                0 <= i < dirs@.len() && i < present@.len() && present@[i] && path@ == joined(
                    dirs@[i]@,
                    ".socket.sock"@,
                ) && forall|j: int| 0 <= j < i ==> !#[trigger] present@[j],
            None => forall|j: int|
                0 <= j < dirs@.len() && j < present@.len() ==> !#[trigger] present@[j],
        },
{
    let mut i: usize = 0;
    while i < dirs.len() && i < present.len()
        invariant
            i <= dirs@.len(),
            i <= present@.len(),
            forall|j: int| 0 <= j < i ==> !#[trigger] present@[j],
        decreases dirs@.len() - i,
    {
        if present[i] {
            let dir = &dirs[i];
            return Some(socket_in(dir.as_str()));
        }
        i = i + 1;
    }
    None
}

// ---------------------------------------------------------------------------------------------
//  Laws
// ---------------------------------------------------------------------------------------------

proof fn lemma_digits_are_counted(digits: Seq<char>, rest: Seq<char>)
    requires
        forall|i: int| 0 <= i < digits.len() ==> '0' <= #[trigger] digits[i] <= '9',
        rest.len() > 0 ==> !('0' <= rest[0] <= '9'),
    ensures
        digits_len(digits + rest) == digits.len(),
    decreases digits.len(),
{
    let all = digits + rest;
    if digits.len() == 0 {
        assert(all =~= rest);
    } else {
        assert(all[0] == digits[0]);
        assert(all.skip(1) =~= digits.skip(1) + rest);
        lemma_digits_are_counted(digits.skip(1), rest);
    }
}

/// A number is found where a key in quotes, a colon, any white space and the digits stand, up to what
/// is no digit, as long as it fits 32 bits and the key stands there for the first time.
pub proof fn law_number_is_found(
    before: Seq<char>,
    key: Seq<char>,
    space: Seq<char>,
    n: nat,
    rest: Seq<char>,
)
    requires
        blank(space),
        rest.len() > 0 ==> !('0' <= rest[0] <= '9'),
        find(
            before + ("\""@ + key + "\":"@) + (space + (decimal(n) + rest)),
            "\""@ + key + "\":"@,
        ) == Some(before.len() as int),
    ensures
        json_number(before + ("\""@ + key + "\":"@) + (space + (decimal(n) + rest)), key)
            == if n <= u32::MAX {
            Some(n)
        } else {
            None
        },
{
    let needle = "\""@ + key + "\":"@;
    let value = decimal(n) + rest;
    let json = before + needle + (space + value);
    assert(json.skip(before.len() as int + needle.len()) =~= space + value);
    law_decimals_have_digits_only(n);
    law_decimals_are_words(n);
    assert(value[0] == decimal(n)[0]);
    lemma_spaces_are_trimmed(space, value);
    lemma_digits_are_counted(decimal(n), rest);
    assert(value.take(decimal(n).len() as int) =~= decimal(n));
    let none = Seq::<char>::empty();
    law_decimals_stand_out(none, n, none, u32::MAX as nat);
    assert(none + decimal(n) + none =~= decimal(n));
}

/// Without the key there is neither a number nor a text, and no number where something else follows the
/// first key.
pub proof fn law_nothing_is_found_without_the_key(json: Seq<char>, key: Seq<char>)
    ensures
        find(json, "\""@ + key + "\":"@) is None ==> json_number(json, key) is None && json_text(
            json,
            key,
        ) is None,
        find(json, "\""@ + key + "\":"@) matches Some(i) ==> {
            let value = trimmed_start(json.skip(i + key.len() + 3));
            value.len() > 0 && !('0' <= value[0] <= '9') ==> json_number(json, key) is None
        },
{
    reveal_strlit("\"");
    reveal_strlit("\":");
}

/// The request that takes a binding back names the same keys as the one that made it.
pub proof fn law_bindings_name_their_keys(i: usize)
    ensures
        request_text(HyprRequest::Bind(i)) == "keyword bind "@ + (workspace_key(i as int).0 + ","@
            + workspace_key(i as int).1) + ",exec,true"@,
        request_text(HyprRequest::Unbind(i)) == "keyword unbind "@ + (workspace_key(i as int).0
            + ","@ + workspace_key(i as int).1),
{
    let keys = workspace_key(i as int).0 + ","@ + workspace_key(i as int).1;
    assert(request_text(HyprRequest::Bind(i)) =~= "keyword bind "@ + keys + ",exec,true"@);
    assert(request_text(HyprRequest::Unbind(i)) =~= "keyword unbind "@ + keys);
}

/// The workspace keys are `SUPER` with each digit, `0` last, and with each of two arrows, which also go
/// with control.  The digit keys are numbered from one.
pub proof fn law_workspace_keys(i: int)
    requires
        0 <= i < WORKSPACE_KEYS,
    ensures
        workspace_key(i).0 == if i < 12 {
            "SUPER"@
        } else {
            "SUPER CTRL"@
        },
        i < 10 ==> workspace_key(i).1 == decimal(((i + 1) % 10) as nat),
        i >= 10 ==> workspace_key(i).1 == if i % 2 == 0 {
            "left"@
        } else {
            "right"@
        },
{
    reveal_strlit("0");
    if i == 9 {
        assert(decimal(0) =~= "0"@);
    }
}

/// An instance with a known signature is looked for under `/tmp` first, then under the runtime
/// directories of the users from 1000 to 1099, in this order.
pub proof fn law_instances_are_looked_for_in_order(signature: Seq<char>, uid: int)
    ensures
        signature_dirs(signature).len() == 101,
        signature_dirs(signature)[0] == "/tmp/hypr/"@ + signature,
        1000 <= uid < 1100 ==> signature_dirs(signature)[uid - 999] == "/run/user/"@ + (decimal(
            uid as nat,
        ) + ("/hypr/"@ + signature)),
{
    if 1000 <= uid < 1100 {
        assert(signature_dirs(signature)[uid - 999] =~= "/run/user/"@ + (decimal(uid as nat) + (
        "/hypr/"@ + signature)));
    }
}

/// A file in a directory is reached by exactly one slash between the two.
pub proof fn law_one_slash_joins(dir: Seq<char>, file: Seq<char>)
    requires
        dir.len() > 0,
        dir.last() != '/',
    ensures
        joined(dir, file) == dir + "/"@ + file,
        joined(dir + "/"@, file) == joined(dir, file),
{
    reveal_strlit("/");
    assert((dir + "/"@).last() == '/');
}

/// Any run of digits after the key is read as a number, zeros in front among them.
pub proof fn law_digits_are_read(
    before: Seq<char>,
    key: Seq<char>,
    space: Seq<char>,
    digits: Seq<char>,
    rest: Seq<char>,
)
    requires
        blank(space),
        digits.len() > 0,
        forall|i: int| 0 <= i < digits.len() ==> '0' <= #[trigger] digits[i] <= '9',
        rest.len() > 0 ==> !('0' <= rest[0] <= '9'),
        find(
            before + ("\""@ + key + "\":"@) + (space + (digits + rest)),
            "\""@ + key + "\":"@,
        ) == Some(before.len() as int),
    ensures
        json_number(before + ("\""@ + key + "\":"@) + (space + (digits + rest)), key) == parsed(
            digits,
            u32::MAX as nat,
        ),
{
    let needle = "\""@ + key + "\":"@;
    let value = digits + rest;
    let json = before + needle + (space + value);
    assert(json.skip(before.len() as int + needle.len()) =~= space + value);
    assert(value[0] == digits[0]);
    lemma_spaces_are_trimmed(space, value);
    lemma_digits_are_counted(digits, rest);
    assert(value.take(digits.len() as int) =~= digits);
}

/// A key that no quote follows is passed over: the text is looked for behind it.  A quote that is not
/// closed holds no text.
pub proof fn law_unquoted_keys_are_passed(json: Seq<char>, key: Seq<char>, i: int)
    requires
        find(json, "\""@ + key + "\":"@) == Some(i),
    ensures
        ({
            let rest = json.skip(i + key.len() + 3);
            let value = trimmed_start(rest);
            &&& value.len() == 0 || value[0] != '"' ==> json_text(json, key) == json_text(rest, key)
            &&& value.len() > 0 && value[0] == '"' && !value.skip(1).contains('"') ==> json_text(
                json,
                key,
            ) is None
        }),
{
    reveal_strlit("\"");
    reveal_strlit("\":");
    let value = trimmed_start(json.skip(i + key.len() + 3));
    if value.len() > 0 {
        lemma_until_splits(value.skip(1), '"');
    }
}

/// A text that is missing counts as an empty one.
pub proof fn law_missing_texts_are_empty(text: Seq<char>, file: Seq<char>)
    ensures
        text_or_empty(Some(text)) == text,
        text_or_empty(None).len() == 0,
        joined(Seq::<char>::empty(), file) == file,
{
    assert(joined(Seq::<char>::empty(), file) =~= file);
}

} // verus!
