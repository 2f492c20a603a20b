//! Process whitelist: decides which processes may be frozen or moved, from one scan of the
//! process table.
//!
//! A scan records, for each process, what its entries under `/proc` held.  Everything here is
//! computed from such a scan, so one decision never mixes two states of the system.
use std::collections::HashSet;
use vstd::prelude::*;

use crate::text::{
    blank, chars_of, contains, contains_text, decimal, decimal_string, ends_with, fields,
    fields_of, law_decimal_reads_back, law_decimals_stand_out, law_fields_end_at_separators,
    lemma_until_splits, lines, lines_of, opt_text, parse_u32, parsed, same_text, starts_with,
    string_of, strings, texts, trim, trimmed, until,
};

verus! {

broadcast use vstd::std_specs::hash::group_hash_axioms;

/// Well-known process names that must never be touched.  A name protects every process whose
/// own name starts with it.
pub const WHITELISTED_NAMES: [&'static str; 48] = [
    "systemd",
    "init",
    "dbus-daemon",
    "dbus-broker",
    "login",
    "sddm",
    "gdm",
    "lightdm",
    "greetd",
    "systemd-logind",
    "Hyprland",
    "hyprland",
    "sway",
    "river",
    "weston",
    "xdg-desktop-portal",
    "xdg-desktop-portal-hyprland",
    "xdg-desktop-portal-gtk",
    "xdg-document-portal",
    "xdg-permission-store",
    "pipewire",
    "pipewire-media-session",
    "wireplumber",
    "pulseaudio",
    "NetworkManager",
    "systemd-networkd",
    "systemd-resolved",
    "wpa_supplicant",
    "iwd",
    "dhclient",
    "dhcpcd",
    "gpg-agent",
    "ssh-agent",
    "polkit",
    "supaad",
    "supaa",
    "supaa-ui",
    "kthreadd",
    "migration",
    "rcu_",
    "ksoftirqd",
    "kworker",
    "kdevtmpfs",
    "khungtaskd",
    "oom_reaper",
    "writeback",
    "kcompactd",
    "kswapd",
];

/// How many generations of parents the ancestor check looks at.
pub const ANCESTOR_DEPTH: u32 = 8;

// ---------------------------------------------------------------------------------------------
//  A scan of the process table
// ---------------------------------------------------------------------------------------------

/// What a scan found of one process.
#[derive(Debug, Clone)]
pub struct ProcRecord {
    pub pid: u32,
    /// Does `/proc/<pid>/exe` lead anywhere?  It does not for kernel threads.
    pub has_exe: bool,
    /// The content of `/proc/<pid>/comm`, if it could be read.
    pub comm: Option<String>,
    /// The content of `/proc/<pid>/cgroup`, if it could be read.
    pub cgroup: Option<String>,
    /// The content of `/proc/<pid>/status`, if it could be read.
    pub status: Option<String>,
}

/// One scan of the process table, in the order in which the processes were found.
#[derive(Debug, Clone)]
pub struct ProcTable {
    pub records: Vec<ProcRecord>,
}

/// The model of a `ProcRecord`.
pub ghost struct Proc {
    pub pid: u32,
    pub has_exe: bool,
    pub comm: Option<Seq<char>>,
    pub cgroup: Option<Seq<char>>,
    pub status: Option<Seq<char>>,
}

impl View for ProcRecord {
    type V = Proc;

    open spec fn view(&self) -> Proc {
        Proc {
            pid: self.pid,
            has_exe: self.has_exe,
            comm: opt_text(self.comm),
            cgroup: opt_text(self.cgroup),
            status: opt_text(self.status),
        }
    }
}

impl View for ProcTable {
    type V = Seq<Proc>;

    open spec fn view(&self) -> Seq<Proc> {
        self.records@.map_values(|r: ProcRecord| r@)
    }
}

/// The first entry of the scan for `pid`.
pub open spec fn entry(table: Seq<Proc>, pid: u32) -> Option<Proc>
    decreases table.len(),
{
    if table.len() == 0 {
        None
    } else if table[0].pid == pid {
        Some(table[0])
    } else {
        entry(table.skip(1), pid)
    }
}

impl ProcTable {
    /// The index of the first record for `pid`.
    fn position(&self, pid: u32) -> (r: Option<usize>)
        ensures
            match r {
                Some(i) => i < self.records@.len() && entry(self@, pid) == Some(self@[i as int]),
                None => entry(self@, pid) is None,
            },
    {
        let mut i: usize = 0;
        proof {
            assert(self@.skip(0) =~= self@);
        }
        while i < self.records.len()
            invariant
                i <= self.records@.len(),
                entry(self@, pid) == entry(self@.skip(i as int), pid),
            decreases self.records@.len() - i,
        {
            if self.records[i].pid == pid {
                return Some(i);
            }
            proof {
                assert(self@.skip(i as int).skip(1) =~= self@.skip(i + 1));
            }
            i = i + 1;
        }
        None
    }
}

// ---------------------------------------------------------------------------------------------
//  What the files under /proc say
// ---------------------------------------------------------------------------------------------

/// The process name in the content of a `comm` file.
pub open spec fn comm_in(content: Seq<char>) -> Seq<char> {
    trimmed(content)
}

/// The path that a line of a `cgroup` file gives for the unified hierarchy, which is the one
/// numbered 0.
pub open spec fn unified_path(line: Seq<char>) -> Option<Seq<char>> {
    let parts = fields_of(line, ':', 3);
    if parts.len() == 3 && parts[0] == "0"@ {
        Some(parts[2])
    } else {
        None
    }
}

/// The first path for the unified hierarchy in some lines.
pub open spec fn first_unified_path(ls: Seq<Seq<char>>) -> Option<Seq<char>>
    decreases ls.len(),
{
    if ls.len() == 0 {
        None
    } else if unified_path(ls[0]) is Some {
        unified_path(ls[0])
    } else {
        first_unified_path(ls.skip(1))
    }
}

/// The path of the unified hierarchy in the content of a `cgroup` file.
pub open spec fn cgroup_in(content: Seq<char>) -> Option<Seq<char>> {
    first_unified_path(lines_of(content))
}

/// The parent in the first line that starts with `PPid:`.
pub open spec fn first_ppid(ls: Seq<Seq<char>>) -> Option<nat>
    decreases ls.len(),
{
    if ls.len() == 0 {
        None
    } else if "PPid:"@.is_prefix_of(ls[0]) {
        parsed(trimmed(ls[0].skip("PPid:"@.len() as int)), u32::MAX as nat)
    } else {
        first_ppid(ls.skip(1))
    }
}

/// The parent in the content of a `status` file.
pub open spec fn ppid_in(content: Seq<char>) -> Option<nat> {
    first_ppid(lines_of(content))
}

/// The path of the unified hierarchy in the content of a `cgroup` file.
pub fn parse_cgroup(content: &str) -> (r: Option<String>)
    ensures
        opt_text(r) == cgroup_in(content@),
{
    let chars = chars_of(content);
    let ls = lines(chars.as_slice());
    let ghost all = lines_of(content@);
    let zero = chars_of("0");
    let mut i: usize = 0;
    proof {
        assert(all.skip(0) =~= all);
    }
    while i < ls.len()
        invariant
            i <= ls@.len(),
            zero@ == "0"@,
            all == lines_of(content@),
            texts(ls@) == all,
            cgroup_in(content@) == first_unified_path(all.skip(i as int)),
        decreases ls@.len() - i,
    {
        let line = ls[i];
        proof {
            assert(texts(ls@)[i as int] == line@);
            assert(all.skip(i as int)[0] == line@);
            assert(all.skip(i as int).skip(1) =~= all.skip(i + 1));
        }
        let parts = fields(line, ':', 3);
        let ghost texts_of_parts = fields_of(line@, ':', 3);
        proof {
            assert(texts(parts@).len() == parts@.len());
        }
        if parts.len() == 3 {
            proof {
                assert(texts_of_parts[0] == parts@[0]@);
                assert(texts_of_parts[2] == parts@[2]@);
            }
            if same_text(parts[0], zero.as_slice()) {
                return Some(string_of(parts[2]));
            }
        }
        i = i + 1;
    }
    None
}

/// The parent in the content of a `status` file.
pub fn parse_ppid(content: &str) -> (r: Option<u32>)
    ensures
        match r {
            Some(p) => ppid_in(content@) == Some(p as nat),
            None => ppid_in(content@) is None,
        },
{
    let chars = chars_of(content);
    let ls = lines(chars.as_slice());
    let ghost all = lines_of(content@);
    let key = chars_of("PPid:");
    let mut i: usize = 0;
    proof {
        assert(all.skip(0) =~= all);
    }
    while i < ls.len()
        invariant
            i <= ls@.len(),
            key@ == "PPid:"@,
            all == lines_of(content@),
            texts(ls@) == all,
            ppid_in(content@) == first_ppid(all.skip(i as int)),
        decreases ls@.len() - i,
    {
        let line = ls[i];
        proof {
            assert(texts(ls@)[i as int] == line@);
            assert(all.skip(i as int)[0] == line@);
            assert(all.skip(i as int).skip(1) =~= all.skip(i + 1));
        }
        if starts_with(line, key.as_slice()) {
            let rest = vstd::slice::slice_subrange(line, key.len(), line.len());
            proof {
                assert(rest@ =~= line@.skip("PPid:"@.len() as int));
            }
            return parse_u32(trim(rest));
        }
        i = i + 1;
    }
    None
}

// ---------------------------------------------------------------------------------------------
//  What a scan says of a process
// ---------------------------------------------------------------------------------------------

/// The name of a process.
pub open spec fn comm_of(table: Seq<Proc>, pid: u32) -> Option<Seq<char>> {
    match entry(table, pid) {
        Some(p) => match p.comm {
            Some(c) => Some(comm_in(c)),
            None => None,
        },
        None => None,
    }
}

/// The path of a process in the unified hierarchy.
pub open spec fn cgroup_of(table: Seq<Proc>, pid: u32) -> Option<Seq<char>> {
    match entry(table, pid) {
        Some(p) => match p.cgroup {
            Some(c) => cgroup_in(c),
            None => None,
        },
        None => None,
    }
}

/// The parent of a process.
pub open spec fn parent_of(table: Seq<Proc>, pid: u32) -> Option<u32> {
    match entry(table, pid) {
        Some(p) => match p.status {
            Some(s) => match ppid_in(s) {
                Some(n) => Some(n as u32),
                None => None,
            },
            None => None,
        },
        None => None,
    }
}

/// Does the process have an executable?
pub open spec fn has_exe(table: Seq<Proc>, pid: u32) -> bool {
    match entry(table, pid) {
        Some(p) => p.has_exe,
        None => false,
    }
}

/// The short name of a process, trimmed.
pub fn proc_comm(pid: u32, table: &ProcTable) -> (r: Option<String>)
    ensures
        opt_text(r) == comm_of(table@, pid),
{
    match table.position(pid) {
        Some(i) => match &table.records[i].comm {
            Some(c) => {
                let chars = chars_of(c.as_str());
                Some(string_of(trim(chars.as_slice())))
            },
            None => None,
        },
        None => None,
    }
}

/// The path of a process in the unified hierarchy.
pub fn proc_cgroup(pid: u32, table: &ProcTable) -> (r: Option<String>)
    ensures
        opt_text(r) == cgroup_of(table@, pid),
{
    match table.position(pid) {
        Some(i) => match &table.records[i].cgroup {
            Some(c) => parse_cgroup(c.as_str()),
            None => None,
        },
        None => None,
    }
}

proof fn lemma_ppid_fits(ls: Seq<Seq<char>>)
    ensures
        first_ppid(ls) matches Some(n) ==> n <= u32::MAX,
    decreases ls.len(),
{
    if ls.len() > 0 && !"PPid:"@.is_prefix_of(ls[0]) {
        lemma_ppid_fits(ls.skip(1));
    }
}

/// The parent of a process.
pub fn get_ppid(pid: u32, table: &ProcTable) -> (r: Option<u32>)
    ensures
        r == parent_of(table@, pid),
{
    match table.position(pid) {
        Some(i) => match &table.records[i].status {
            Some(s) => {
                proof {
                    lemma_ppid_fits(lines_of(s@));
                }
                parse_ppid(s.as_str())
            },
            None => None,
        },
        None => None,
    }
}

// ---------------------------------------------------------------------------------------------
//  Whitelist check
// ---------------------------------------------------------------------------------------------

/// Does the name start with one of the protected names?
pub open spec fn name_protected(comm: Seq<char>) -> bool {
    exists|i: int|
        0 <= i < WHITELISTED_NAMES@.len() && (#[trigger] WHITELISTED_NAMES@[i])@.is_prefix_of(comm)
}

/// Is the process known by a protected name?
pub open spec fn named_protected(table: Seq<Proc>, pid: u32) -> bool {
    comm_of(table, pid) matches Some(c) && name_protected(c)
}

/// Is the path one of a system service, of init, or of a login session?
pub open spec fn path_protected(path: Seq<char>) -> bool {
    ||| "/system.slice"@.is_prefix_of(path)
    ||| "/init.scope"@.is_prefix_of(path)
    ||| contains(path, "/session-"@) && ".scope"@.is_suffix_of(path)
}

/// The `k`-th ancestor of `pid`; its 0-th is itself.
pub open spec fn ancestor(table: Seq<Proc>, pid: u32, k: nat) -> Option<u32>
    decreases k,
{
    if k == 0 {
        Some(pid)
    } else {
        match ancestor(table, pid, (k - 1) as nat) {
            Some(p) => parent_of(table, p),
            None => None,
        }
    }
}

/// Is the `k`-th ancestor a new one, and none of 0 and 1?
pub open spec fn new_ancestor(table: Seq<Proc>, pid: u32, k: nat) -> bool {
    &&& ancestor(table, pid, k) matches Some(a) && a > 1
    &&& forall|j: nat| j < k ==> #[trigger] ancestor(table, pid, j) != ancestor(table, pid, k)
}

/// Do the first `k` generations of ancestors of `pid` exist, all different, above process 1?
pub open spec fn lineage(table: Seq<Proc>, pid: u32, k: nat) -> bool {
    forall|j: nat| 1 <= j <= k ==> #[trigger] new_ancestor(table, pid, j)
}

/// Does one of the nearest ancestors of `pid` have a protected name?
pub open spec fn ancestor_protected(table: Seq<Proc>, pid: u32) -> bool {
    exists|k: nat|
        1 <= k <= ANCESTOR_DEPTH && lineage(table, pid, k) && named_protected(
            table,
            #[trigger] ancestor(table, pid, k)->0,
        )
}

/// Is the process protected?
pub open spec fn whitelisted(table: Seq<Proc>, our_pids: Set<u32>, pid: u32) -> bool {
    ||| our_pids.contains(pid)
    ||| pid <= 2
    ||| !has_exe(table, pid)
    ||| named_protected(table, pid)
    ||| (cgroup_of(table, pid) matches Some(path) && path_protected(path))
    ||| ancestor_protected(table, pid)
}

fn is_protected_name(comm: &[char]) -> (r: bool)
    ensures
        r == name_protected(comm@),
{
    let mut i: usize = 0;
    while i < 48
        invariant
            i <= 48,
            WHITELISTED_NAMES@.len() == 48,
            forall|j: int| 0 <= j < i ==> !(#[trigger] WHITELISTED_NAMES@[j])@.is_prefix_of(comm@),
        decreases 48 - i,
    {
        let name = chars_of(WHITELISTED_NAMES[i]);
        if starts_with(comm, name.as_slice()) {
            return true;
        }
        i = i + 1;
    }
    false
}

fn has_protected_name(pid: u32, table: &ProcTable) -> (r: bool)
    ensures
        r == named_protected(table@, pid),
{
    match proc_comm(pid, table) {
        Some(comm) => {
            let chars = chars_of(comm.as_str());
            is_protected_name(chars.as_slice())
        },
        None => false,
    }
}

fn is_protected_path(path: &str) -> (r: bool)
    ensures
        r == path_protected(path@),
{
    let chars = chars_of(path);
    let path = chars.as_slice();
    starts_with(path, chars_of("/system.slice").as_slice()) || starts_with(
        path,
        chars_of("/init.scope").as_slice(),
    ) || (contains_text(path, chars_of("/session-").as_slice()) && ends_with(
        path,
        chars_of(".scope").as_slice(),
    ))
}

/// Is the process protected, so that it must not be touched?
///
/// Protected are the daemon's own processes, processes 1 and 2, kernel threads, processes with a
/// well-known name, system services and login sessions, and the descendants of a process with a
/// well-known name.
pub fn is_whitelisted(pid: u32, our_pids: &HashSet<u32>, table: &ProcTable) -> (r: bool)
    ensures
        r == whitelisted(table@, our_pids@, pid),
{
    if our_pids.contains(&pid) {
        return true;
    }
    if pid <= 2 {
        return true;
    }
    match table.position(pid) {
        Some(i) => {
            if !table.records[i].has_exe {
                return true;
            }
        },
        None => {
            return true;
        },
    }
    if has_protected_name(pid, table) {
        return true;
    }
    if let Some(path) = proc_cgroup(pid, table) {
        if is_protected_path(path.as_str()) {
            return true;
        }
    }
    has_whitelisted_ancestor(pid, table)
}

proof fn lemma_lineage_ends(table: Seq<Proc>, pid: u32, k: nat)
    requires
        !new_ancestor(table, pid, k + 1),
    ensures
        forall|j: nat| #[trigger] lineage(table, pid, j) ==> j <= k,
{
    assert forall|j: nat| #[trigger] lineage(table, pid, j) implies j <= k by {
        if j > k {
            assert(new_ancestor(table, pid, k + 1));
        }
    }
}

/// Walk up the parents of a process.  Does one of them have a protected name?
pub fn has_whitelisted_ancestor(pid: u32, table: &ProcTable) -> (r: bool)
    ensures
        r == ancestor_protected(table@, pid),
{
    let mut current: u32 = pid;
    let mut seen: HashSet<u32> = HashSet::new();
    seen.insert(pid);
    let mut k: u32 = 0;
    while k < ANCESTOR_DEPTH
        invariant
            k <= ANCESTOR_DEPTH,
            ancestor(table@, pid, k as nat) == Some(current),
            lineage(table@, pid, k as nat),
            forall|p: u32|
                seen@.contains(p) <==> exists|j: nat|
                    j <= k && #[trigger] ancestor(table@, pid, j) == Some(p),
            forall|j: nat|
                1 <= j <= k ==> !named_protected(
                    table@,
                    #[trigger] ancestor(table@, pid, j)->0,
                ),
        decreases ANCESTOR_DEPTH - k,
    {
        let parent = get_ppid(current, table);
        proof {
            assert(ancestor(table@, pid, (k + 1) as nat) == parent);
        }
        let ppid = match parent {
            Some(p) => p,
            None => {
                proof {
                    lemma_lineage_ends(table@, pid, k as nat);
                }
                return false;
            },
        };
        if ppid <= 1 || seen.contains(&ppid) {
            proof {
                lemma_lineage_ends(table@, pid, k as nat);
            }
            return false;
        }
        proof {
            assert(new_ancestor(table@, pid, (k + 1) as nat));
            assert(lineage(table@, pid, (k + 1) as nat));
        }
        seen.insert(ppid);
        if has_protected_name(ppid, table) {
            proof {
                assert(named_protected(table@, ancestor(table@, pid, (k + 1) as nat)->0));
            }
            return true;
        }
        current = ppid;
        k = k + 1;
    }
    false
}

// ---------------------------------------------------------------------------------------------
//  Process enumeration
// ---------------------------------------------------------------------------------------------

/// The numbers among some directory names, in the same order.
pub open spec fn pids_named(names: Seq<Seq<char>>) -> Seq<u32>
    decreases names.len(),
{
    if names.len() == 0 {
        seq![]
    } else {
        match parsed(names.last(), u32::MAX as nat) {
            Some(n) => pids_named(names.drop_last()).push(n as u32),
            None => pids_named(names.drop_last()),
        }
    }
}

/// The processes that the names of the entries of `/proc` stand for.
pub fn all_pids(names: &Vec<String>) -> (r: Vec<u32>)
    ensures
        r@ == pids_named(strings(names@)),
{
    let mut out: Vec<u32> = Vec::new();
    let mut i: usize = 0;
    let ghost all = strings(names@);
    while i < names.len()
        invariant
            i <= names@.len(),
            all == strings(names@),
            out@ == pids_named(all.take(i as int)),
        decreases names@.len() - i,
    {
        let chars = chars_of(names[i].as_str());
        proof {
            assert(all.take(i + 1).drop_last() =~= all.take(i as int));
            assert(all.take(i + 1).last() == names@[i as int]@);
        }
        if let Some(pid) = parse_u32(chars.as_slice()) {
            out.push(pid);
        }
        i = i + 1;
    }
    proof {
        assert(all.take(i as int) =~= all);
    }
    out
}

/// The processes of a scan, in its order.
pub open spec fn pids_of(table: Seq<Proc>) -> Seq<u32> {
    table.map_values(|p: Proc| p.pid)
}

/// The path of a file under `/proc` about a process.
pub open spec fn proc_file(pid: u32, file: Seq<char>) -> Seq<char> {
    "/proc/"@ + decimal(pid as nat) + "/"@ + file
}

pub fn proc_path(pid: u32, file: &str) -> (r: String)
    ensures
        r@ == proc_file(pid, file@),
{
    let mut out = "/proc/".to_owned();
    out.append(decimal_string(pid as u64).as_str());
    out.append("/");
    out.append(file);
    out
}

// ---------------------------------------------------------------------------------------------
//  Process trees
// ---------------------------------------------------------------------------------------------

/// Is `child` a process of the scan whose parent is `parent`?
pub open spec fn is_child(table: Seq<Proc>, parent: u32, child: u32) -> bool {
    pids_of(table).contains(child) && parent_of(table, child) == Some(parent)
}

/// A line of descent: each process is the parent of the next.
pub open spec fn descent(table: Seq<Proc>, path: Seq<u32>) -> bool {
    &&& path.len() > 0
    &&& forall|i: int| 0 <= i < path.len() - 1 ==> is_child(table, #[trigger] path[i], path[i + 1])
}

/// Does `path` lead down from `root` to `pid`?
pub open spec fn leads(table: Seq<Proc>, path: Seq<u32>, root: u32, pid: u32) -> bool {
    descent(table, path) && path[0] == root && path.last() == pid
}

/// The process tree of `root`: `root` itself and all its descendants.
pub open spec fn process_tree(table: Seq<Proc>, root: u32) -> Set<u32> {
    Set::new(|pid: u32| exists|path: Seq<u32>| leads(table, path, root, pid))
}

/// A set that holds, with each of its members, the children of that member.
pub open spec fn closed(table: Seq<Proc>, set: Set<u32>) -> bool {
    forall|p: u32, c: u32| set.contains(p) && #[trigger] is_child(table, p, c) ==> set.contains(c)
}

proof fn lemma_descent_stays(table: Seq<Proc>, set: Set<u32>, path: Seq<u32>, n: int)
    requires
        closed(table, set),
        descent(table, path),
        set.contains(path[0]),
        0 <= n < path.len(),
    ensures
        set.contains(path[n]),
    decreases n,
{
    if n > 0 {
        lemma_descent_stays(table, set, path, n - 1);
        assert(is_child(table, path[n - 1], path[n - 1 + 1]));
    }
}

/// The process tree holds its root.
pub proof fn law_tree_holds_root(table: Seq<Proc>, root: u32)
    ensures
        process_tree(table, root).contains(root),
{
    assert(leads(table, seq![root], root, root));
}

/// The process tree holds the children of each of its members.
pub proof fn law_tree_holds_children(table: Seq<Proc>, root: u32)
    ensures
        closed(table, process_tree(table, root)),
{
    let tree = process_tree(table, root);
    assert forall|p: u32, c: u32|
        tree.contains(p) && #[trigger] is_child(table, p, c) implies tree.contains(c) by {
        let path = choose|path: Seq<u32>| leads(table, path, root, p);
        let longer = path.push(c);
        assert forall|i: int| 0 <= i < longer.len() - 1 implies is_child(
            table,
            #[trigger] longer[i],
            longer[i + 1],
        ) by {
            if i < path.len() - 1 {
                assert(is_child(table, path[i], path[i + 1]));
            }
        }
        assert(leads(table, longer, root, c));
    }
}

/// The process tree is the least set that holds the root and the children of its members: it
/// holds nothing that does not descend from the root.
pub proof fn law_tree_is_least(table: Seq<Proc>, root: u32, set: Set<u32>)
    requires
        set.contains(root),
        closed(table, set),
    ensures
        process_tree(table, root).subset_of(set),
{
    assert forall|p: u32| process_tree(table, root).contains(p) implies set.contains(p) by {
        let path = choose|path: Seq<u32>| leads(table, path, root, p);
        lemma_descent_stays(table, set, path, path.len() - 1);
    }
}

/// All pairs of a parent and its child in a scan.
fn families(table: &ProcTable) -> (r: Vec<(u32, u32)>)
    ensures
        forall|p: u32, c: u32| #[trigger] r@.contains((p, c)) <==> is_child(table@, p, c),
{
    let mut out: Vec<(u32, u32)> = Vec::new();
    let ghost pids = pids_of(table@);
    let mut i: usize = 0;
    while i < table.records.len()
        invariant
            i <= table.records@.len(),
            pids == pids_of(table@),
            pids.len() == table.records@.len(),
            forall|p: u32, c: u32| #[trigger]
                out@.contains((p, c)) <==> (pids.take(i as int).contains(c) && parent_of(
                    table@,
                    c,
                ) == Some(p)),
        decreases table.records@.len() - i,
    {
        let pid = table.records[i].pid;
        let ghost before = out@;
        proof {
            assert(pids[i as int] == pid);
            assert(pids.take(i + 1) =~= pids.take(i as int).push(pid));
            assert forall|c: u32| #[trigger] pids.take(i + 1).contains(c) <==> (pids.take(
                i as int,
            ).contains(c) || c == pid) by {
                if pids.take(i as int).contains(c) {
                    let k = choose|k: int|
                        0 <= k < pids.take(i as int).len() && pids.take(i as int)[k] == c;
                    assert(pids.take(i + 1)[k] == c);
                }
                if c == pid {
                    assert(pids.take(i + 1)[i as int] == c);
                }
            }
        }
        if let Some(ppid) = get_ppid(pid, table) {
            out.push((ppid, pid));
            proof {
                assert forall|p: u32, c: u32| #[trigger]
                    out@.contains((p, c)) <==> (before.contains((p, c)) || (p == ppid && c
                        == pid)) by {
                    if before.contains((p, c)) {
                        let k = choose|k: int| 0 <= k < before.len() && before[k] == (p, c);
                        assert(out@[k] == (p, c));
                    }
                    assert(out@[before.len() as int] == (ppid, pid));
                }
            }
        }
        i = i + 1;
    }
    proof {
        assert(pids.take(i as int) =~= pids);
    }
    out
}

/// Add the children of `pid` to `queue`.
fn enqueue_children(family: &Vec<(u32, u32)>, pid: u32, queue: &mut Vec<u32>)
    ensures
        forall|c: u32| #[trigger]
            final(queue)@.contains(c) <==> (old(queue)@.contains(c) || family@.contains((pid, c))),
{
    let mut i: usize = 0;
    while i < family.len()
        invariant
            i <= family@.len(),
            forall|c: u32| #[trigger]
                queue@.contains(c) <==> (old(queue)@.contains(c) || family@.take(
                    i as int,
                ).contains((pid, c))),
        decreases family@.len() - i,
    {
        let (parent, child) = family[i];
        let ghost before = queue@;
        proof {
            let now = family@.take(i as int);
            let then = family@.take(i + 1);
            assert(then =~= now.push((parent, child)));
            assert forall|c: u32| #[trigger] then.contains((pid, c)) <==> (now.contains((pid, c))
                || (parent == pid && child == c)) by {
                if now.contains((pid, c)) {
                    let k = choose|k: int| 0 <= k < now.len() && now[k] == (pid, c);
                    assert(then[k] == (pid, c));
                }
                assert(then[i as int] == (parent, child));
            }
        }
        if parent == pid {
            queue.push(child);
            proof {
                assert forall|c: u32| #[trigger] queue@.contains(c) <==> (before.contains(c) || c
                    == child) by {
                    if before.contains(c) {
                        let k = choose|k: int| 0 <= k < before.len() && before[k] == c;
                        assert(queue@[k] == c);
                    }
                    assert(queue@[before.len() as int] == child);
                }
            }
        }
        i = i + 1;
    }
    proof {
        assert(family@.take(i as int) =~= family@);
    }
}

/// Every process in the tree rooted at `root_pid`, the root included.
pub fn get_process_tree(root_pid: u32, table: &ProcTable) -> (r: HashSet<u32>)
    ensures
        r@ == process_tree(table@, root_pid),
{
    let family = families(table);
    let mut tree: HashSet<u32> = HashSet::new();
    let mut queue: Vec<u32> = Vec::new();
    queue.push(root_pid);
    let ghost goal = process_tree(table@, root_pid);
    let ghost universe = pids_of(table@).to_set().insert(root_pid);
    proof {
        law_tree_holds_root(table@, root_pid);
        law_tree_holds_children(table@, root_pid);
        vstd::seq_lib::seq_to_set_is_finite(pids_of(table@));
        assert(queue@[0] == root_pid);
    }
    while queue.len() > 0
        invariant
            goal == process_tree(table@, root_pid),
            closed(table@, goal),
            universe == pids_of(table@).to_set().insert(root_pid),
            universe.finite(),
            forall|p: u32, c: u32| #[trigger]
                family@.contains((p, c)) <==> is_child(table@, p, c),
            forall|p: u32| #[trigger] tree@.contains(p) ==> goal.contains(p),
            forall|p: u32| #[trigger]
                queue@.contains(p) ==> goal.contains(p) && universe.contains(p),
            tree@.contains(root_pid) || queue@.contains(root_pid),
            forall|p: u32, c: u32|
                tree@.contains(p) && #[trigger] is_child(table@, p, c) ==> tree@.contains(c)
                    || queue@.contains(c),
        decreases universe.difference(tree@).len(), queue@.len(),
    {
        let ghost queue_before = queue@;
        let ghost tree_before = tree@;
        let pid = queue.pop().unwrap();
        proof {
            assert(queue_before.contains(pid)) by {
                assert(queue_before[queue_before.len() - 1] == pid);
            }
            assert forall|p: u32| #[trigger] queue_before.contains(p) implies p == pid
                || queue@.contains(p) by {
                let k = choose|k: int| 0 <= k < queue_before.len() && queue_before[k] == p;
                if k < queue_before.len() - 1 {
                    assert(queue@[k] == p);
                }
            }
            assert forall|p: u32| #[trigger] queue@.contains(p) implies queue_before.contains(
                p,
            ) by {
                let k = choose|k: int| 0 <= k < queue@.len() && queue@[k] == p;
                assert(queue_before[k] == p);
            }
        }
        if tree.insert(pid) {
            let ghost popped = queue@;
            enqueue_children(&family, pid, &mut queue);
            proof {
                assert forall|c: u32| #[trigger] queue@.contains(c) implies goal.contains(c)
                    && universe.contains(c) by {
                    if !popped.contains(c) {
                        assert(is_child(table@, pid, c));
                        assert(pids_of(table@).to_set().contains(c));
                    }
                }
                assert forall|p: u32, c: u32|
                    tree@.contains(p) && #[trigger] is_child(table@, p, c) implies tree@.contains(c)
                    || queue@.contains(c) by {
                    if p == pid {
                        assert(family@.contains((p, c)));
                    } else {
                        assert(tree_before.contains(p));
                    }
                }
                assert(universe.difference(tree@) =~= universe.difference(tree_before).remove(pid));
            }
        } else {
            proof {
                assert(tree@ =~= tree_before);
            }
        }
    }
    proof {
        assert(closed(table@, tree@));
        law_tree_is_least(table@, root_pid, tree@);
        assert(tree@ =~= goal);
    }
    tree
}

// ---------------------------------------------------------------------------------------------
//  Laws of protection
// ---------------------------------------------------------------------------------------------

/// A process that has a protected one above it is protected too, as far up as ancestors are looked
/// for.
pub proof fn law_descendants_are_protected(table: Seq<Proc>, our_pids: Set<u32>, pid: u32, k: nat)
    requires
        1 <= k <= ANCESTOR_DEPTH,
        lineage(table, pid, k),
        named_protected(table, ancestor(table, pid, k)->0),
    ensures
        whitelisted(table, our_pids, pid),
{
}

/// A child of a process with a protected name is protected, unless the parent is the first process.
pub proof fn law_children_are_protected(
    table: Seq<Proc>,
    our_pids: Set<u32>,
    parent: u32,
    child: u32,
)
    requires
        parent_of(table, child) == Some(parent),
        named_protected(table, parent),
        parent > 1,
        parent != child,
    ensures
        whitelisted(table, our_pids, child),
{
    reveal_with_fuel(ancestor, 2);
    assert(ancestor(table, child, 0) == Some(child));
    assert(ancestor(table, child, 1) == Some(parent));
    assert forall|j: nat| 1 <= j <= 1 implies #[trigger] new_ancestor(table, child, j) by {
        assert(j == 1);
        assert forall|i: nat| i < 1 implies #[trigger] ancestor(table, child, i) != ancestor(
            table,
            child,
            1,
        ) by {
            assert(i == 0);
        }
    }
    law_descendants_are_protected(table, our_pids, child, 1);
}

/// Every program whose name starts with `supaa` is protected.
pub proof fn law_own_programs_are_protected(table: Seq<Proc>, our_pids: Set<u32>, pid: u32)
    requires
        comm_of(table, pid) matches Some(comm) && "supaa"@.is_prefix_of(comm),
    ensures
        whitelisted(table, our_pids, pid),
{
    assert(WHITELISTED_NAMES@[35] == "supaa");
}

proof fn lemma_unscanned_has_no_entry(table: Seq<Proc>, pid: u32)
    requires
        !pids_of(table).contains(pid),
    ensures
        entry(table, pid) is None,
    decreases table.len(),
{
    if table.len() > 0 {
        let rest = table.skip(1);
        assert(pids_of(table)[0] == table[0].pid);
        assert forall|i: int| 0 <= i < pids_of(rest).len() implies pids_of(rest)[i] != pid by {
            assert(pids_of(table)[i + 1] == pids_of(rest)[i]);
        }
        lemma_unscanned_has_no_entry(rest, pid);
    }
}

/// The daemon itself, the first two processes, and every process without a program of its own are
/// protected, and so is every process that was not scanned.
pub proof fn law_always_protected(table: Seq<Proc>, our_pids: Set<u32>, pid: u32)
    requires
        our_pids.contains(pid) || pid <= 2 || !has_exe(table, pid) || !pids_of(table).contains(pid),
    ensures
        whitelisted(table, our_pids, pid),
{
    if !pids_of(table).contains(pid) {
        lemma_unscanned_has_no_entry(table, pid);
    }
}

// ---------------------------------------------------------------------------------------------
//  Laws of what is read from /proc
// ---------------------------------------------------------------------------------------------

/// The parent is read from the first line that starts with `PPid:`, whatever the other lines hold.
pub proof fn law_parent_is_read_from_its_line(
    content: Seq<char>,
    i: int,
    left: Seq<char>,
    p: nat,
    right: Seq<char>,
)
    requires
        0 <= i < lines_of(content).len(),
        lines_of(content)[i] == "PPid:"@ + (left + decimal(p) + right),
        blank(left),
        blank(right),
        forall|j: int| 0 <= j < i ==> !"PPid:"@.is_prefix_of(#[trigger] lines_of(content)[j]),
    ensures
        ppid_in(content) == if p <= u32::MAX {
            Some(p)
        } else {
            None
        },
{
    let ls = lines_of(content);
    lemma_first_ppid_at(ls, i);
    let value = left + decimal(p) + right;
    assert(ls[i].take("PPid:"@.len() as int) =~= "PPid:"@);
    assert("PPid:"@.is_prefix_of(ls[i]));
    assert(ls[i].skip("PPid:"@.len() as int) =~= value);
    law_decimals_stand_out(left, p, right, u32::MAX as nat);
}

proof fn lemma_first_ppid_at(ls: Seq<Seq<char>>, i: int)
    requires
        0 <= i <= ls.len(),
        forall|j: int| 0 <= j < i ==> !"PPid:"@.is_prefix_of(#[trigger] ls[j]),
    ensures
        first_ppid(ls) == first_ppid(ls.skip(i)),
    decreases i,
{
    if i == 0 {
        assert(ls.skip(0) =~= ls);
    } else {
        let rest = ls.skip(1);
        assert(!"PPid:"@.is_prefix_of(ls[0]));
        assert forall|j: int| 0 <= j < i - 1 implies !"PPid:"@.is_prefix_of(#[trigger] rest[j]) by {
            assert(rest[j] == ls[j + 1]);
        }
        lemma_first_ppid_at(rest, i - 1);
        assert(rest.skip(i - 1) =~= ls.skip(i));
    }
}

/// Without a line that starts with `PPid:` there is no parent.  With one, the first of them decides, by
/// whether anything but one number stands in it.
pub proof fn law_no_parent_without_a_number(content: Seq<char>, i: int)
    requires
        0 <= i <= lines_of(content).len(),
        forall|j: int| 0 <= j < i ==> !"PPid:"@.is_prefix_of(#[trigger] lines_of(content)[j]),
        i < lines_of(content).len() ==> "PPid:"@.is_prefix_of(lines_of(content)[i]),
    ensures
        i == lines_of(content).len() ==> ppid_in(content) is None,
        i < lines_of(content).len() ==> ppid_in(content) == parsed(
            trimmed(lines_of(content)[i].skip(5)),
            u32::MAX as nat,
        ),
{
    reveal_strlit("PPid:");
    let ls = lines_of(content);
    lemma_first_ppid_at(ls, i);
    if i < ls.len() {
        assert(ls.skip(i)[0] == ls[i]);
    }
}

/// Is this a line about the unified hierarchy, with both its colons?
pub open spec fn about_unified(line: Seq<char>) -> bool {
    "0:"@.is_prefix_of(line) && line.skip(2).contains(':')
}

proof fn lemma_first_path_at(ls: Seq<Seq<char>>, i: int)
    requires
        0 <= i <= ls.len(),
        forall|j: int| 0 <= j < i ==> !about_unified(#[trigger] ls[j]),
    ensures
        first_unified_path(ls) == first_unified_path(ls.skip(i)),
    decreases i,
{
    if i == 0 {
        assert(ls.skip(0) =~= ls);
    } else {
        let rest = ls.skip(1);
        assert(!about_unified(ls[0]));
        lemma_other_lines_give_no_path(ls[0]);
        assert forall|j: int| 0 <= j < i - 1 implies !about_unified(#[trigger] rest[j]) by {
            assert(rest[j] == ls[j + 1]);
        }
        lemma_first_path_at(rest, i - 1);
        assert(rest.skip(i - 1) =~= ls.skip(i));
    }
}

proof fn lemma_other_lines_give_no_path(line: Seq<char>)
    requires
        !about_unified(line),
    ensures
        unified_path(line) is None,
{
    reveal_strlit("0:");
    reveal_strlit("0");
    let n = until(line, ':');
    lemma_until_splits(line, ':');
    let parts = fields_of(line, ':', 3);
    if parts.len() == 3 && parts[0] == "0"@ {
        assert(parts[0] == line.take(n as int));
        assert(n == 1);
        assert(line[0] == parts[0][0] && line[1] == ':');
        assert(line.take(2) =~= "0:"@);
        let rest = line.skip(2);
        assert(line.skip(n as int + 1) =~= rest);
        lemma_until_splits(rest, ':');
        assert(fields_of(rest, ':', 2).len() == 2);
        assert(rest[until(rest, ':') as int] == ':');
    }
}

/// The path in the unified hierarchy is read from the first line that starts with `0:` and has another
/// colon.  It is all that follows the second colon, colons among it.
pub proof fn law_path_is_read_from_its_line(
    content: Seq<char>,
    i: int,
    controllers: Seq<char>,
    path: Seq<char>,
)
    requires
        0 <= i < lines_of(content).len(),
        lines_of(content)[i] == "0:"@ + (controllers + ":"@ + path),
        !controllers.contains(':'),
        forall|j: int| 0 <= j < i ==> !about_unified(#[trigger] lines_of(content)[j]),
    ensures
        cgroup_in(content) == Some(path),
{
    reveal_strlit("0:");
    reveal_strlit("0");
    reveal_strlit(":");
    let ls = lines_of(content);
    lemma_first_path_at(ls, i);
    assert(":"@ =~= seq![':']);
    assert(ls.skip(i)[0] == ls[i]);
    let tail = controllers + seq![':'] + path;
    assert(ls[i] =~= "0"@ + seq![':'] + tail);
    law_fields_end_at_separators("0"@, ':', tail, 1);
    law_fields_end_at_separators(controllers, ':', path, 0);
    let parts = fields_of(ls[i], ':', 3);
    assert(parts =~= seq!["0"@, controllers, path]);
}

/// Without such a line there is no path in the unified hierarchy.
pub proof fn law_no_path_without_its_line(content: Seq<char>)
    requires
        forall|j: int|
            0 <= j < lines_of(content).len() ==> !about_unified(#[trigger] lines_of(content)[j]),
    ensures
        cgroup_in(content) is None,
{
    lemma_first_path_at(lines_of(content), lines_of(content).len() as int);
}

proof fn lemma_entry_at(table: Seq<Proc>, i: int)
    requires
        0 <= i < table.len(),
        forall|j: int| 0 <= j < i ==> (#[trigger] table[j]).pid != table[i].pid,
    ensures
        entry(table, table[i].pid) == Some(table[i]),
    decreases i,
{
    if i > 0 {
        let rest = table.skip(1);
        assert(table[0].pid != table[i].pid);
        assert(rest[i - 1] == table[i]);
        assert forall|j: int| 0 <= j < i - 1 implies (#[trigger] rest[j]).pid != rest[i - 1].pid by {
            assert(rest[j] == table[j + 1]);
        }
        lemma_entry_at(rest, i - 1);
    }
}

/// What is known of a process is what its first record holds: the trimmed name, the path, the parent,
/// and whether there is a program.
pub proof fn law_first_record_decides(table: Seq<Proc>, i: int)
    requires
        0 <= i < table.len(),
        forall|j: int| 0 <= j < i ==> (#[trigger] table[j]).pid != table[i].pid,
    ensures
        pids_of(table).contains(table[i].pid),
        has_exe(table, table[i].pid) == table[i].has_exe,
        comm_of(table, table[i].pid) == match table[i].comm {
            Some(text) => Some(trimmed(text)),
            None => None,
        },
        cgroup_of(table, table[i].pid) == match table[i].cgroup {
            Some(text) => cgroup_in(text),
            None => None,
        },
        match table[i].status {
            Some(text) => match ppid_in(text) {
                Some(p) => parent_of(table, table[i].pid) == Some(p as u32),
                None => parent_of(table, table[i].pid) is None,
            },
            None => parent_of(table, table[i].pid) is None,
        },
{
    lemma_entry_at(table, i);
    assert(pids_of(table)[i] == table[i].pid);
}

/// Of a process without a record nothing is known.
pub proof fn law_unscanned_is_unknown(table: Seq<Proc>, pid: u32)
    requires
        forall|j: int| 0 <= j < table.len() ==> (#[trigger] table[j]).pid != pid,
    ensures
        !pids_of(table).contains(pid),
        !has_exe(table, pid),
        comm_of(table, pid) is None,
        cgroup_of(table, pid) is None,
        parent_of(table, pid) is None,
{
    assert forall|i: int| 0 <= i < pids_of(table).len() implies pids_of(table)[i] != pid by {
        assert(pids_of(table)[i] == table[i].pid);
    }
    lemma_unscanned_has_no_entry(table, pid);
}

/// The processes of a scan are those of its records, in their order.
pub proof fn law_scan_keeps_its_order(table: Seq<Proc>)
    ensures
        pids_of(table).len() == table.len(),
        forall|i: int| 0 <= i < table.len() ==> #[trigger] pids_of(table)[i] == table[i].pid,
{
}

/// Each entry of `/proc` whose name is a number stands for a process, in the order of the entries.
/// The others are passed over.
pub proof fn law_numbers_name_processes(names: Seq<Seq<char>>, name: Seq<char>, pid: u32)
    ensures
        pids_named(Seq::<Seq<char>>::empty()) == Seq::<u32>::empty(),
        pids_named(names.push(decimal(pid as nat))) == pids_named(names).push(pid),
        parsed(name, u32::MAX as nat) is None ==> pids_named(names.push(name)) == pids_named(names),
{
    law_decimal_reads_back(pid as nat, u32::MAX as nat);
    assert(names.push(name).drop_last() =~= names);
    assert(names.push(decimal(pid as nat)).drop_last() =~= names);
}

// ---------------------------------------------------------------------------------------------
//  Laws of lineage
// ---------------------------------------------------------------------------------------------

/// A name is protected exactly if it starts with one of these.
pub proof fn law_protected_names(comm: Seq<char>)
    ensures
        name_protected(comm) <==> {
            ||| "systemd"@.is_prefix_of(comm)
            ||| "init"@.is_prefix_of(comm)
            ||| "dbus-daemon"@.is_prefix_of(comm)
            ||| "dbus-broker"@.is_prefix_of(comm)
            ||| "login"@.is_prefix_of(comm)
            ||| "sddm"@.is_prefix_of(comm)
            ||| "gdm"@.is_prefix_of(comm)
            ||| "lightdm"@.is_prefix_of(comm)
            ||| "greetd"@.is_prefix_of(comm)
            ||| "systemd-logind"@.is_prefix_of(comm)
            ||| "Hyprland"@.is_prefix_of(comm)
            ||| "hyprland"@.is_prefix_of(comm)
            ||| "sway"@.is_prefix_of(comm)
            ||| "river"@.is_prefix_of(comm)
            ||| "weston"@.is_prefix_of(comm)
            ||| "xdg-desktop-portal"@.is_prefix_of(comm)
            ||| "xdg-desktop-portal-hyprland"@.is_prefix_of(comm)
            ||| "xdg-desktop-portal-gtk"@.is_prefix_of(comm)
            ||| "xdg-document-portal"@.is_prefix_of(comm)
            ||| "xdg-permission-store"@.is_prefix_of(comm)
            ||| "pipewire"@.is_prefix_of(comm)
            ||| "pipewire-media-session"@.is_prefix_of(comm)
            ||| "wireplumber"@.is_prefix_of(comm)
            ||| "pulseaudio"@.is_prefix_of(comm)
            ||| "NetworkManager"@.is_prefix_of(comm)
            ||| "systemd-networkd"@.is_prefix_of(comm)
            ||| "systemd-resolved"@.is_prefix_of(comm)
            ||| "wpa_supplicant"@.is_prefix_of(comm)
            ||| "iwd"@.is_prefix_of(comm)
            ||| "dhclient"@.is_prefix_of(comm)
            ||| "dhcpcd"@.is_prefix_of(comm)
            ||| "gpg-agent"@.is_prefix_of(comm)
            ||| "ssh-agent"@.is_prefix_of(comm)
            ||| "polkit"@.is_prefix_of(comm)
            ||| "supaad"@.is_prefix_of(comm)
            ||| "supaa"@.is_prefix_of(comm)
            ||| "supaa-ui"@.is_prefix_of(comm)
            ||| "kthreadd"@.is_prefix_of(comm)
            ||| "migration"@.is_prefix_of(comm)
            ||| "rcu_"@.is_prefix_of(comm)
            ||| "ksoftirqd"@.is_prefix_of(comm)
            ||| "kworker"@.is_prefix_of(comm)
            ||| "kdevtmpfs"@.is_prefix_of(comm)
            ||| "khungtaskd"@.is_prefix_of(comm)
            ||| "oom_reaper"@.is_prefix_of(comm)
            ||| "writeback"@.is_prefix_of(comm)
            ||| "kcompactd"@.is_prefix_of(comm)
            ||| "kswapd"@.is_prefix_of(comm)
        },
{
    assert(WHITELISTED_NAMES@[0] == "systemd");
    assert(WHITELISTED_NAMES@[1] == "init");
    assert(WHITELISTED_NAMES@[2] == "dbus-daemon");
    assert(WHITELISTED_NAMES@[3] == "dbus-broker");
    assert(WHITELISTED_NAMES@[4] == "login");
    assert(WHITELISTED_NAMES@[5] == "sddm");
    assert(WHITELISTED_NAMES@[6] == "gdm");
    assert(WHITELISTED_NAMES@[7] == "lightdm");
    assert(WHITELISTED_NAMES@[8] == "greetd");
    assert(WHITELISTED_NAMES@[9] == "systemd-logind");
    assert(WHITELISTED_NAMES@[10] == "Hyprland");
    assert(WHITELISTED_NAMES@[11] == "hyprland");
    assert(WHITELISTED_NAMES@[12] == "sway");
    assert(WHITELISTED_NAMES@[13] == "river");
    assert(WHITELISTED_NAMES@[14] == "weston");
    assert(WHITELISTED_NAMES@[15] == "xdg-desktop-portal");
    assert(WHITELISTED_NAMES@[16] == "xdg-desktop-portal-hyprland");
    assert(WHITELISTED_NAMES@[17] == "xdg-desktop-portal-gtk");
    assert(WHITELISTED_NAMES@[18] == "xdg-document-portal");
    assert(WHITELISTED_NAMES@[19] == "xdg-permission-store");
    assert(WHITELISTED_NAMES@[20] == "pipewire");
    assert(WHITELISTED_NAMES@[21] == "pipewire-media-session");
    assert(WHITELISTED_NAMES@[22] == "wireplumber");
    assert(WHITELISTED_NAMES@[23] == "pulseaudio");
    assert(WHITELISTED_NAMES@[24] == "NetworkManager");
    assert(WHITELISTED_NAMES@[25] == "systemd-networkd");
    assert(WHITELISTED_NAMES@[26] == "systemd-resolved");
    assert(WHITELISTED_NAMES@[27] == "wpa_supplicant");
    assert(WHITELISTED_NAMES@[28] == "iwd");
    assert(WHITELISTED_NAMES@[29] == "dhclient");
    assert(WHITELISTED_NAMES@[30] == "dhcpcd");
    assert(WHITELISTED_NAMES@[31] == "gpg-agent");
    assert(WHITELISTED_NAMES@[32] == "ssh-agent");
    assert(WHITELISTED_NAMES@[33] == "polkit");
    assert(WHITELISTED_NAMES@[34] == "supaad");
    assert(WHITELISTED_NAMES@[35] == "supaa");
    assert(WHITELISTED_NAMES@[36] == "supaa-ui");
    assert(WHITELISTED_NAMES@[37] == "kthreadd");
    assert(WHITELISTED_NAMES@[38] == "migration");
    assert(WHITELISTED_NAMES@[39] == "rcu_");
    assert(WHITELISTED_NAMES@[40] == "ksoftirqd");
    assert(WHITELISTED_NAMES@[41] == "kworker");
    assert(WHITELISTED_NAMES@[42] == "kdevtmpfs");
    assert(WHITELISTED_NAMES@[43] == "khungtaskd");
    assert(WHITELISTED_NAMES@[44] == "oom_reaper");
    assert(WHITELISTED_NAMES@[45] == "writeback");
    assert(WHITELISTED_NAMES@[46] == "kcompactd");
    assert(WHITELISTED_NAMES@[47] == "kswapd");
}

proof fn lemma_ancestor_on_path(table: Seq<Proc>, path: Seq<u32>, k: nat)
    requires
        k < path.len(),
        forall|i: int|
            0 <= i < path.len() - 1 ==> parent_of(table, #[trigger] path[i]) == Some(path[i + 1]),
    ensures
        ancestor(table, path[0], k) == Some(path[k as int]),
    decreases k,
{
    if k > 0 {
        lemma_ancestor_on_path(table, path, (k - 1) as nat);
        assert(parent_of(table, path[k - 1]) == Some(path[k - 1 + 1]));
    }
}

/// A process is protected if a protected name is found on the way up from it: the parent, the parent's
/// parent and so on, up to eight of them, all different and above the first process.  The order of
/// the numbers on the way does not matter.
pub proof fn law_way_up_protects(table: Seq<Proc>, our_pids: Set<u32>, pid: u32, path: Seq<u32>)
    requires
        2 <= path.len() <= 9,
        path[0] == pid,
        forall|i: int|
            0 <= i < path.len() - 1 ==> parent_of(table, #[trigger] path[i]) == Some(path[i + 1]),
        path.no_duplicates(),
        forall|i: int| 1 <= i < path.len() ==> #[trigger] path[i] > 1,
        comm_of(table, path.last()) matches Some(comm) && name_protected(comm),
    ensures
        ancestor_protected(table, pid),
        whitelisted(table, our_pids, pid),
{
    let k = (path.len() - 1) as nat;
    assert forall|j: nat| 1 <= j <= k implies #[trigger] new_ancestor(table, pid, j) by {
        lemma_ancestor_on_path(table, path, j);
        assert forall|i: nat| i < j implies #[trigger] ancestor(table, pid, i) != ancestor(
            table,
            pid,
            j,
        ) by {
            lemma_ancestor_on_path(table, path, i);
        }
    }
    lemma_ancestor_on_path(table, path, k);
    assert(lineage(table, pid, k) && named_protected(table, ancestor(table, pid, k)->0));
    assert(ancestor_protected(table, pid));
}

/// The ancestors of `pid` up to the `k`-th, from `pid` upwards.
spec fn way_up(table: Seq<Proc>, pid: u32, k: nat) -> Seq<u32> {
    Seq::new(k + 1, |i: int| ancestor(table, pid, i as nat)->0)
}

/// The ancestors of a process protect it only if such a way leads up from it to a protected name.
pub proof fn law_only_a_way_up_protects(table: Seq<Proc>, pid: u32)
    requires
        ancestor_protected(table, pid),
    ensures
        exists|path: Seq<u32>|
            {
                &&& 2 <= path.len() <= 9
                &&& path[0] == pid
                &&& forall|i: int|
                    0 <= i < path.len() - 1 ==> parent_of(table, #[trigger] path[i]) == Some(
                        path[i + 1],
                    )
                &&& #[trigger] path.no_duplicates()
                &&& forall|i: int| 1 <= i < path.len() ==> #[trigger] path[i] > 1
                &&& comm_of(table, path.last()) matches Some(comm) && name_protected(comm)
            },
{
    let k = choose|k: nat|
        1 <= k <= ANCESTOR_DEPTH && lineage(table, pid, k) && named_protected(
            table,
            #[trigger] ancestor(table, pid, k)->0,
        );
    let path = way_up(table, pid, k);
    assert(ancestor(table, pid, 0) == Some(pid));
    assert forall|i: int| 1 <= i < path.len() implies #[trigger] path[i] > 1 && ancestor(
        table,
        pid,
        i as nat,
    ) == Some(path[i]) by {
        assert(new_ancestor(table, pid, i as nat));
    }
    assert forall|i: int| 0 <= i < path.len() - 1 implies parent_of(table, #[trigger] path[i])
        == Some(path[i + 1]) by {
        assert(path[i + 1] > 1);
        assert(path[i + 1] == ancestor(table, pid, (i + 1) as nat)->0);
        if i > 0 {
            assert(path[i] > 1);
        }
        assert(ancestor(table, pid, i as nat) == Some(path[i]));
        assert(ancestor(table, pid, (i + 1) as nat) == parent_of(table, path[i]));
    }
    assert forall|i: int, j: int| 0 <= i < j < path.len() implies path[i] != path[j] by {
        assert(new_ancestor(table, pid, j as nat));
        assert(path[j] > 1);
        if i > 0 {
            assert(path[i] > 1);
        }
        assert(ancestor(table, pid, i as nat) == Some(path[i]));
        assert(ancestor(table, pid, i as nat) != ancestor(table, pid, j as nat));
    }
    assert(path.no_duplicates());
    assert(path.last() == ancestor(table, pid, k)->0);
}

/// A process is protected for no other reasons: it is the daemon's, one of the first two or without a
/// program, its own name or path is protected, or it has a protected name on the way up.
pub proof fn law_nothing_else_protects(table: Seq<Proc>, our_pids: Set<u32>, pid: u32)
    requires
        whitelisted(table, our_pids, pid),
        !our_pids.contains(pid),
        pid > 2,
        has_exe(table, pid),
        !(comm_of(table, pid) matches Some(comm) && name_protected(comm)),
        cgroup_of(table, pid) matches Some(path) ==> {
            &&& !"/system.slice"@.is_prefix_of(path)
            &&& !"/init.scope"@.is_prefix_of(path)
            &&& !(contains(path, "/session-"@) && ".scope"@.is_suffix_of(path))
        },
    ensures
        exists|path: Seq<u32>|
            {
                &&& 2 <= path.len() <= 9
                &&& path[0] == pid
                &&& forall|i: int|
                    0 <= i < path.len() - 1 ==> parent_of(table, #[trigger] path[i]) == Some(
                        path[i + 1],
                    )
                &&& #[trigger] path.no_duplicates()
                &&& forall|i: int| 1 <= i < path.len() ==> #[trigger] path[i] > 1
                &&& comm_of(table, path.last()) matches Some(comm) && name_protected(comm)
            },
{
    law_only_a_way_up_protects(table, pid);
}

/// A process of a system service, of init or of a login session is protected, and so is one with a
/// protected name.
pub proof fn law_services_and_names_are_protected(
    table: Seq<Proc>,
    our_pids: Set<u32>,
    pid: u32,
)
    requires
        ({
            ||| comm_of(table, pid) matches Some(comm) && name_protected(comm)
            ||| cgroup_of(table, pid) matches Some(path) && {
                ||| "/system.slice"@.is_prefix_of(path)
                ||| "/init.scope"@.is_prefix_of(path)
                ||| contains(path, "/session-"@) && ".scope"@.is_suffix_of(path)
            }
        }),
    ensures
        whitelisted(table, our_pids, pid),
{
}

/// The tree of a process holds what a path leads to on which each is the parent of the next, all but
/// the first scanned, and nothing else.
pub proof fn law_tree_is_reached_by_parents(table: Seq<Proc>, root: u32, pid: u32)
    ensures
        process_tree(table, root).contains(pid) <==> exists|path: Seq<u32>|
            {
                &&& path.len() > 0
                &&& #[trigger] path.first() == root
                &&& path.last() == pid
                &&& forall|i: int|
                    1 <= i < path.len() ==> pids_of(table).contains(#[trigger] path[i])
                        && parent_of(table, path[i]) == Some(path[i - 1])
            },
{
    if process_tree(table, root).contains(pid) {
        let path = choose|path: Seq<u32>| leads(table, path, root, pid);
        assert(path.first() == root);
        assert forall|i: int| 1 <= i < path.len() implies pids_of(table).contains(#[trigger] path[i])
            && parent_of(table, path[i]) == Some(path[i - 1]) by {
            assert(is_child(table, path[i - 1], path[i - 1 + 1]));
        }
    }
    if exists|path: Seq<u32>|
        {
            &&& path.len() > 0
            &&& #[trigger] path.first() == root
            &&& path.last() == pid
            &&& forall|i: int|
                1 <= i < path.len() ==> pids_of(table).contains(#[trigger] path[i]) && parent_of(
                    table,
                    path[i],
                ) == Some(path[i - 1])
        } {
        let path = choose|path: Seq<u32>|
            {
                &&& path.len() > 0
                &&& #[trigger] path.first() == root
                &&& path.last() == pid
                &&& forall|i: int|
                    1 <= i < path.len() ==> pids_of(table).contains(#[trigger] path[i])
                        && parent_of(table, path[i]) == Some(path[i - 1])
            };
        assert forall|i: int| 0 <= i < path.len() - 1 implies is_child(
            table,
            #[trigger] path[i],
            path[i + 1],
        ) by {
            assert(pids_of(table).contains(path[i + 1]));
        }
        assert(leads(table, path, root, pid));
    }
}

/// Each file about a process lies in the directory that has its number for a name.
pub proof fn law_files_lie_under_the_number(pid: u32, file: Seq<char>)
    ensures
        proc_file(pid, file) == "/proc/"@ + (decimal(pid as nat) + ("/"@ + file)),
{
    assert(proc_file(pid, file) =~= "/proc/"@ + (decimal(pid as nat) + ("/"@ + file)));
}

/// A scan holds a record for each process that was found, in the same order, with the texts that were
/// read.
pub proof fn law_scan_holds_its_records(table: ProcTable, i: int)
    requires
        0 <= i < table.records@.len(),
    ensures
        table@.len() == table.records@.len(),
        table@[i].pid == table.records@[i].pid,
        table@[i].has_exe == table.records@[i].has_exe,
        table@[i].comm is Some <==> table.records@[i].comm is Some,
        table.records@[i].comm matches Some(text) ==> table@[i].comm == Some(text@),
        table@[i].cgroup is Some <==> table.records@[i].cgroup is Some,
        table.records@[i].cgroup matches Some(text) ==> table@[i].cgroup == Some(text@),
        table@[i].status is Some <==> table.records@[i].status is Some,
        table.records@[i].status matches Some(text) ==> table@[i].status == Some(text@),
{
}

/// A path is protected exactly if it is under `/system.slice` or `/init.scope`, or is the scope of a login
/// session; a name protects a process exactly if it is the name of that process and protected.
pub proof fn law_paths_and_names_protect(table: Seq<Proc>, pid: u32, path: Seq<char>)
    ensures
        "/system.slice"@.is_prefix_of(path) ==> path_protected(path),
        "/init.scope"@.is_prefix_of(path) ==> path_protected(path),
        contains(path, "/session-"@) && ".scope"@.is_suffix_of(path) ==> path_protected(path),
        path_protected(path) && !"/system.slice"@.is_prefix_of(path) && !"/init.scope"@.is_prefix_of(
            path,
        ) ==> contains(path, "/session-"@) && ".scope"@.is_suffix_of(path),
        comm_of(table, pid) is None ==> !named_protected(table, pid),
        comm_of(table, pid) matches Some(comm) ==> named_protected(table, pid) == name_protected(
            comm,
        ),
{
}

} // verus!
