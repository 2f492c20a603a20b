//! The cgroup v2 hierarchy that the daemon manages.
//!
//! ```text
//! /sys/fs/cgroup/supaa/
//!   focus/       the process tree of the focus application
//!   background/  every other user process
//! ```
use std::collections::HashSet;
use vstd::prelude::*;

use crate::modes::DEFAULT_WEIGHT;
use crate::pids::{lists, members};
use crate::script::{Script, ScriptRun};
use crate::system::SystemCall;
use crate::task::Task;
use crate::text::{
    blank, chars_of, contains, contains_text, decimal, decimal_string, is_space,
    law_contained_texts_stand_somewhere, law_decimal_reads_back, law_decimals_are_words,
    law_decimals_stand_out, law_words_end_at_white_space, lines, lines_of, parse_u32, parse_u64,
    parsed, starts_with, texts, trim, trimmed, words, words_of,
};
use crate::whitelist::{
    cgroup_of, get_process_tree, is_whitelisted, pids_of, proc_cgroup, process_tree, whitelisted,
    Proc, ProcTable,
};

verus! {

broadcast use vstd::std_specs::hash::group_hash_axioms;

/// The directories of the hierarchy.
#[derive(Debug, Clone, Copy, PartialEq, Eq, Structural)]
pub enum CgroupDir {
    /// The root of the whole hierarchy.
    Root,
    /// The part that the daemon manages.
    Supaa,
    /// The process tree of the focus application.
    Focus,
    /// Every other user process.
    Background,
}

/// What can be written to a directory of the hierarchy.
#[derive(Debug, Clone, Copy)]
pub enum Setting {
    CpuWeight(u64),
    IoWeight(u64),
    /// The soft memory limit in bytes; `None` is no limit.
    MemoryHigh(Option<u64>),
    /// Move a process into the directory.
    Procs(u32),
    /// Have the directories below controlled for CPU, I/O and memory.
    Controllers,
}

/// The path of a directory.
pub open spec fn dir_path(dir: CgroupDir) -> Seq<char> {
    match dir {
        CgroupDir::Root => "/sys/fs/cgroup"@,
        CgroupDir::Supaa => "/sys/fs/cgroup/supaa"@,
        CgroupDir::Focus => "/sys/fs/cgroup/supaa/focus"@,
        CgroupDir::Background => "/sys/fs/cgroup/supaa/background"@,
    }
}

/// The name of the file that holds a setting.
pub open spec fn setting_file(setting: Setting) -> Seq<char> {
    match setting {
        Setting::CpuWeight(_) => "cpu.weight"@,
        Setting::IoWeight(_) => "io.weight"@,
        Setting::MemoryHigh(_) => "memory.high"@,
        Setting::Procs(_) => "cgroup.procs"@,
        Setting::Controllers => "cgroup.subtree_control"@,
    }
}

/// The text that is written for a setting.
pub open spec fn setting_value(setting: Setting) -> Seq<char> {
    match setting {
        Setting::CpuWeight(weight) => decimal(weight as nat),
        Setting::IoWeight(weight) => "default "@ + decimal(weight as nat),
        Setting::MemoryHigh(Some(bytes)) => decimal(bytes as nat),
        Setting::MemoryHigh(None) => "max"@,
        Setting::Procs(pid) => decimal(pid as nat),
        Setting::Controllers => "+cpu +io +memory"@,
    }
}

impl CgroupDir {
    pub fn path(&self) -> (r: &'static str)
        ensures
            r@ == dir_path(*self),
    {
        match self {
            CgroupDir::Root => "/sys/fs/cgroup",
            CgroupDir::Supaa => "/sys/fs/cgroup/supaa",
            CgroupDir::Focus => "/sys/fs/cgroup/supaa/focus",
            CgroupDir::Background => "/sys/fs/cgroup/supaa/background",
        }
    }

    /// The path of the list of the processes in the directory.
    pub fn procs_path(&self) -> (r: String)
        ensures
            r@ == dir_path(*self) + "/"@ + "cgroup.procs"@,
    {
        let mut path = self.path().to_owned();
        path.append("/");
        path.append("cgroup.procs");
        path
    }
}

impl Setting {
    pub fn file_name(&self) -> (r: &'static str)
        ensures
            r@ == setting_file(*self),
    {
        match self {
            Setting::CpuWeight(_) => "cpu.weight",
            Setting::IoWeight(_) => "io.weight",
            Setting::MemoryHigh(_) => "memory.high",
            Setting::Procs(_) => "cgroup.procs",
            Setting::Controllers => "cgroup.subtree_control",
        }
    }

    pub fn value(&self) -> (r: String)
        ensures
            r@ == setting_value(*self),
    {
        match self {
            Setting::CpuWeight(weight) => decimal_string(*weight),
            Setting::IoWeight(weight) => {
                let mut out = "default ".to_owned();
                out.append(decimal_string(*weight).as_str());
                out
            },
            Setting::MemoryHigh(Some(bytes)) => decimal_string(*bytes),
            Setting::MemoryHigh(None) => "max".to_owned(),
            Setting::Procs(pid) => decimal_string(*pid as u64),
            Setting::Controllers => "+cpu +io +memory".to_owned(),
        }
    }
}

/// The path and the text of writing a setting to a directory.
pub fn write_cgroup(dir: CgroupDir, setting: Setting) -> (r: (String, String))
    ensures
        r.0@ == dir_path(dir) + "/"@ + setting_file(setting),
        r.1@ == setting_value(setting),
{
    let mut path = dir.path().to_owned();
    path.append("/");
    path.append(setting.file_name());
    (path, setting.value())
}

// ---------------------------------------------------------------------------------------------
//  Is cgroup v2 there?
// ---------------------------------------------------------------------------------------------

/// Why the hierarchy cannot be used.
#[derive(Debug, Clone, Copy, PartialEq, Eq, Structural)]
pub enum CgroupError {
    /// `/sys/fs/cgroup` does not exist.
    RootMissing,
    /// `/proc/mounts` cannot be read.
    MountsUnreadable,
    /// The unified hierarchy is not mounted.
    NotUnified,
    /// The daemon's part of the hierarchy cannot be written.
    NotWritable,
}

/// Does the content of `/proc/mounts` name the unified hierarchy?
pub open spec fn mounts_unified(mounts: Seq<char>) -> bool {
    contains(mounts, "cgroup2"@)
}

/// Is cgroup v2 available, and can the daemon's part of it be written?  Given are whether the root
/// of the hierarchy exists, the content of `/proc/mounts` if it could be read, and whether that part
/// can be written.
pub fn check_cgroup_v2(root_exists: bool, mounts: Option<&str>, writable: bool) -> (r: Result<
    (),
    CgroupError,
>)
    ensures
        r == (if !root_exists {
            Err::<(), CgroupError>(CgroupError::RootMissing)
        } else {
            match mounts {
                None => Err(CgroupError::MountsUnreadable),
                Some(text) => if !mounts_unified(text@) {
                    Err(CgroupError::NotUnified)
                } else if !writable {
                    Err(CgroupError::NotWritable)
                } else {
                    Ok(())
                },
            }
        }),
{
    if !root_exists {
        return Err(CgroupError::RootMissing);
    }
    match mounts {
        None => Err(CgroupError::MountsUnreadable),
        Some(text) => {
            let chars = chars_of(text);
            if !contains_text(chars.as_slice(), chars_of("cgroup2").as_slice()) {
                Err(CgroupError::NotUnified)
            } else if !writable {
                Err(CgroupError::NotWritable)
            } else {
                Ok(())
            }
        },
    }
}

/// Have the directories set up, with their controllers.  What is there already stays.
pub fn ensure_cgroups() -> (r: ScriptRun)
    ensures
        r == ScriptRun::begin(Script::EnsureCgroups),
{
    ScriptRun::start(Script::EnsureCgroups)
}

/// Have the directories set up, provided that the hierarchy is the unified one and can be written.
pub fn init_cgroups() -> (r: ScriptRun)
    ensures
        r == ScriptRun::begin(Script::InitCgroups),
{
    ScriptRun::start(Script::InitCgroups)
}

// ---------------------------------------------------------------------------------------------
//  Single calls
// ---------------------------------------------------------------------------------------------

/// Create a directory unless it exists.
pub fn ensure_dir(dir: CgroupDir) -> (r: SystemCall)
    ensures
        r == SystemCall::CreateDir(dir),
{
    SystemCall::CreateDir(dir)
}

/// Have the directories below `dir` controlled.
pub fn enable_controllers(dir: CgroupDir) -> (r: SystemCall)
    ensures
        r == SystemCall::Write(dir, Setting::Controllers),
{
    SystemCall::Write(dir, Setting::Controllers)
}

/// Set the CPU weight of the focus application.
pub fn set_focus_cpu_weight(weight: u64) -> (r: SystemCall)
    ensures
        r == SystemCall::Write(CgroupDir::Focus, Setting::CpuWeight(weight)),
{
    SystemCall::Write(CgroupDir::Focus, Setting::CpuWeight(weight))
}

/// Set the CPU weight of the background.
pub fn set_bg_cpu_weight(weight: u64) -> (r: SystemCall)
    ensures
        r == SystemCall::Write(CgroupDir::Background, Setting::CpuWeight(weight)),
{
    SystemCall::Write(CgroupDir::Background, Setting::CpuWeight(weight))
}

/// Set the I/O weight of the focus application.
pub fn set_focus_io_weight(weight: u64) -> (r: SystemCall)
    ensures
        r == SystemCall::Write(CgroupDir::Focus, Setting::IoWeight(weight)),
{
    SystemCall::Write(CgroupDir::Focus, Setting::IoWeight(weight))
}

/// Set the I/O weight of the background.
pub fn set_bg_io_weight(weight: u64) -> (r: SystemCall)
    ensures
        r == SystemCall::Write(CgroupDir::Background, Setting::IoWeight(weight)),
{
    SystemCall::Write(CgroupDir::Background, Setting::IoWeight(weight))
}

/// Set the soft memory limit of the background; `None` is no limit.
pub fn set_bg_memory_high(bytes: Option<u64>) -> (r: SystemCall)
    ensures
        r == SystemCall::Write(CgroupDir::Background, Setting::MemoryHigh(bytes)),
{
    SystemCall::Write(CgroupDir::Background, Setting::MemoryHigh(bytes))
}

/// Move one process to the focus directory.
pub fn move_to_focus(pid: u32) -> (r: SystemCall)
    ensures
        r == SystemCall::Write(CgroupDir::Focus, Setting::Procs(pid)),
{
    SystemCall::Write(CgroupDir::Focus, Setting::Procs(pid))
}

/// Move one process to the background directory.
pub fn move_to_background(pid: u32) -> (r: SystemCall)
    ensures
        r == SystemCall::Write(CgroupDir::Background, Setting::Procs(pid)),
{
    SystemCall::Write(CgroupDir::Background, Setting::Procs(pid))
}

/// Move one process back to the root of the hierarchy.
pub fn release_pid(pid: u32) -> (r: SystemCall)
    ensures
        r == SystemCall::Write(CgroupDir::Root, Setting::Procs(pid)),
{
    SystemCall::Write(CgroupDir::Root, Setting::Procs(pid))
}

// ---------------------------------------------------------------------------------------------
//  Moving many processes
// ---------------------------------------------------------------------------------------------

/// Move each of some processes to a directory.
pub open spec fn moves(dir: CgroupDir, pids: Seq<u32>) -> Seq<Task> {
    pids.map_values(|pid: u32| Task::Call(SystemCall::Write(dir, Setting::Procs(pid))))
}

fn move_all(dir: CgroupDir, pids: &Vec<u32>) -> (r: Vec<Task>)
    ensures
        r@ == moves(dir, pids@),
{
    let mut out: Vec<Task> = Vec::new();
    let mut i: usize = 0;
    while i < pids.len()
        invariant
            i <= pids@.len(),
            out@ == moves(dir, pids@.take(i as int)),
        decreases pids@.len() - i,
    {
        let pid = pids[i];
        let call = match dir {
            CgroupDir::Root => release_pid(pid),
            CgroupDir::Supaa => SystemCall::Write(dir, Setting::Procs(pid)),
            CgroupDir::Focus => move_to_focus(pid),
            CgroupDir::Background => move_to_background(pid),
        };
        out.push(Task::Call(call));
        i = i + 1;
        proof {
            assert(out@ =~= moves(dir, pids@.take(i as int)));
        }
    }
    proof {
        assert(pids@.take(i as int) =~= pids@);
    }
    out
}

/// Is `tasks` the move of every process of the tree of `root` to `dir`, each once, in some order?
pub open spec fn moves_tree(table: Seq<Proc>, root: u32, dir: CgroupDir, tasks: Seq<Task>) -> bool {
    exists|order: Seq<u32>|
        #[trigger] lists(order, process_tree(table, root)) && tasks == moves(dir, order)
}

/// Move an entire process tree to the focus directory.
pub fn move_tree_to_focus(root_pid: u32, table: &ProcTable) -> (r: Vec<Task>)
    ensures
        moves_tree(table@, root_pid, CgroupDir::Focus, r@),
{
    let order = members(&get_process_tree(root_pid, table));
    move_all(CgroupDir::Focus, &order)
}

/// Move an entire process tree back to the root of the hierarchy.
pub fn release_tree(root_pid: u32, table: &ProcTable) -> (r: Vec<Task>)
    ensures
        moves_tree(table@, root_pid, CgroupDir::Root, r@),
{
    let order = members(&get_process_tree(root_pid, table));
    move_all(CgroupDir::Root, &order)
}

/// The process tree of the focus application, if there is one.
pub open spec fn focus_tree(table: Seq<Proc>, focus_pid: Option<u32>) -> Set<u32> {
    match focus_pid {
        Some(pid) => process_tree(table, pid),
        None => Set::empty(),
    }
}

pub fn get_focus_tree(focus_pid: Option<u32>, table: &ProcTable) -> (r: HashSet<u32>)
    ensures
        r@ == focus_tree(table@, focus_pid),
{
    match focus_pid {
        Some(pid) => get_process_tree(pid, table),
        None => HashSet::new(),
    }
}

/// Is the process one of a user, or one that the daemon already manages?
pub open spec fn user_process(table: Seq<Proc>, pid: u32) -> bool {
    cgroup_of(table, pid) matches Some(path) && ("/user.slice"@.is_prefix_of(path)
        || "/supaa"@.is_prefix_of(path))
}

/// Is the process one of a user, as opposed to one of the system?
pub fn is_user_process(pid: u32, table: &ProcTable) -> (r: bool)
    ensures
        r == user_process(table@, pid),
{
    match proc_cgroup(pid, table) {
        Some(path) => {
            let chars = chars_of(path.as_str());
            starts_with(chars.as_slice(), chars_of("/user.slice").as_slice()) || starts_with(
                chars.as_slice(),
                chars_of("/supaa").as_slice(),
            )
        },
        None => false,
    }
}

/// Does the process belong in the background?
pub open spec fn belongs_in_background(
    table: Seq<Proc>,
    focus_pid: Option<u32>,
    our_pids: Set<u32>,
    pid: u32,
) -> bool {
    &&& !focus_tree(table, focus_pid).contains(pid)
    &&& !whitelisted(table, our_pids, pid)
    &&& user_process(table, pid)
}

/// The processes of a scan that belong in the background, in its order.
pub open spec fn background_pids(
    table: Seq<Proc>,
    focus_pid: Option<u32>,
    our_pids: Set<u32>,
) -> Seq<u32> {
    pids_of(table).filter(|pid: u32| belongs_in_background(table, focus_pid, our_pids, pid))
}

/// Move all user processes that are neither in the focus tree nor protected to the background
/// directory.
pub fn populate_background(
    focus_pid: Option<u32>,
    our_pids: &HashSet<u32>,
    table: &ProcTable,
) -> (r: Vec<Task>)
    ensures
        r@ == moves(CgroupDir::Background, background_pids(table@, focus_pid, our_pids@)),
{
    let tree = get_focus_tree(focus_pid, table);
    let mut chosen: Vec<u32> = Vec::new();
    let ghost pids = pids_of(table@);
    let ghost belongs = |pid: u32| belongs_in_background(table@, focus_pid, our_pids@, pid);
    let mut i: usize = 0;
    proof {
        reveal(Seq::filter);
    }
    while i < table.records.len()
        invariant
            i <= table.records@.len(),
            pids == pids_of(table@),
            belongs == (|pid: u32| belongs_in_background(table@, focus_pid, our_pids@, pid)),
            tree@ == focus_tree(table@, focus_pid),
            chosen@ == pids.take(i as int).filter(belongs),
        decreases table.records@.len() - i,
    {
        let pid = table.records[i].pid;
        proof {
            reveal(Seq::filter);
            assert(pids.take(i + 1).drop_last() =~= pids.take(i as int));
            assert(pids.take(i + 1).last() == pid);
        }
        if !tree.contains(&pid) && !is_whitelisted(pid, our_pids, table) && is_user_process(
            pid,
            table,
        ) {
            chosen.push(pid);
        }
        i = i + 1;
    }
    proof {
        assert(pids.take(i as int) =~= pids);
    }
    move_all(CgroupDir::Background, &chosen)
}

// ---------------------------------------------------------------------------------------------
//  Teardown
// ---------------------------------------------------------------------------------------------

/// Give the focus directory and the background directory their default weights, and the
/// background no memory limit.
pub open spec fn reset_tasks() -> Seq<Task> {
    seq![
        Task::Call(SystemCall::Write(CgroupDir::Focus, Setting::CpuWeight(DEFAULT_WEIGHT))),
        Task::Call(SystemCall::Write(CgroupDir::Background, Setting::CpuWeight(DEFAULT_WEIGHT))),
        Task::Call(SystemCall::Write(CgroupDir::Focus, Setting::IoWeight(DEFAULT_WEIGHT))),
        Task::Call(SystemCall::Write(CgroupDir::Background, Setting::IoWeight(DEFAULT_WEIGHT))),
        Task::Call(SystemCall::Write(CgroupDir::Background, Setting::MemoryHigh(None))),
    ]
}

pub fn reset_weights() -> (r: Vec<Task>)
    ensures
        r@ == reset_tasks(),
{
    let mut out: Vec<Task> = Vec::new();
    out.push(Task::Call(set_focus_cpu_weight(DEFAULT_WEIGHT)));
    out.push(Task::Call(set_bg_cpu_weight(DEFAULT_WEIGHT)));
    out.push(Task::Call(set_focus_io_weight(DEFAULT_WEIGHT)));
    out.push(Task::Call(set_bg_io_weight(DEFAULT_WEIGHT)));
    out.push(Task::Call(set_bg_memory_high(None)));
    out
}

/// Reset the weights, empty the two directories, and remove them and the one above them.
pub open spec fn teardown_tasks() -> Seq<Task> {
    reset_tasks() + seq![
        Task::Drain(CgroupDir::Focus),
        Task::Drain(CgroupDir::Background),
        Task::Call(SystemCall::RemoveDir(CgroupDir::Focus)),
        Task::Call(SystemCall::RemoveDir(CgroupDir::Background)),
        Task::Call(SystemCall::RemoveDir(CgroupDir::Supaa)),
    ]
}

/// Reset the weights to their defaults and remove the directories.
pub fn teardown_cgroups() -> (r: Vec<Task>)
    ensures
        r@ == teardown_tasks(),
{
    let mut out = reset_weights();
    out.push(Task::Drain(CgroupDir::Focus));
    out.push(Task::Drain(CgroupDir::Background));
    out.push(Task::Call(SystemCall::RemoveDir(CgroupDir::Focus)));
    out.push(Task::Call(SystemCall::RemoveDir(CgroupDir::Background)));
    out.push(Task::Call(SystemCall::RemoveDir(CgroupDir::Supaa)));
    proof {
        assert(out@ =~= teardown_tasks());
    }
    out
}

/// The processes that some lines name, one on each; other lines do not count.
pub open spec fn pids_on(ls: Seq<Seq<char>>) -> Seq<u32>
    decreases ls.len(),
{
    if ls.len() == 0 {
        seq![]
    } else {
        match parsed(trimmed(ls.last()), u32::MAX as nat) {
            Some(n) => pids_on(ls.drop_last()).push(n as u32),
            None => pids_on(ls.drop_last()),
        }
    }
}

/// The processes in the content of a `cgroup.procs` file; none if it could not be read.
pub open spec fn pids_listed(procs: Option<Seq<char>>) -> Seq<u32> {
    match procs {
        Some(text) => pids_on(lines_of(text)),
        None => seq![],
    }
}

/// Move every process that a `cgroup.procs` file lists back to the root of the hierarchy.
pub fn drain_cgroup(procs: Option<&str>) -> (r: Vec<Task>)
    ensures
        r@ == moves(
            CgroupDir::Root,
            pids_listed(
                match procs {
                    Some(text) => Some(text@),
                    None => None,
                },
            ),
        ),
{
    let mut pids: Vec<u32> = Vec::new();
    if let Some(text) = procs {
        let chars = chars_of(text);
        let ls = lines(chars.as_slice());
        let ghost all = lines_of(text@);
        let mut i: usize = 0;
        while i < ls.len()
            invariant
                i <= ls@.len(),
                all == texts(ls@),
                pids@ == pids_on(all.take(i as int)),
            decreases ls@.len() - i,
        {
            proof {
                assert(all.take(i + 1).drop_last() =~= all.take(i as int));
                assert(all.take(i + 1).last() == ls@[i as int]@);
            }
            if let Some(pid) = parse_u32(trim(ls[i])) {
                pids.push(pid);
            }
            i = i + 1;
        }
        proof {
            assert(all.take(i as int) =~= all);
        }
    }
    move_all(CgroupDir::Root, &pids)
}

// ---------------------------------------------------------------------------------------------
//  Memory
// ---------------------------------------------------------------------------------------------

/// The number of kilobytes that a line of `/proc/meminfo` gives for the installed memory.
pub open spec fn total_kb(line: Seq<char>) -> Option<nat> {
    if "MemTotal:"@.is_prefix_of(line) && words_of(line).len() > 1 {
        parsed(words_of(line)[1], u64::MAX as nat)
    } else {
        None
    }
}

/// The first such number in some lines; 0 if there is none.
pub open spec fn first_total_kb(ls: Seq<Seq<char>>) -> nat
    decreases ls.len(),
{
    if ls.len() == 0 {
        0
    } else {
        match total_kb(ls[0]) {
            Some(kb) => kb,
            None => first_total_kb(ls.skip(1)),
        }
    }
}

/// The number of kilobytes of installed memory; 0 if it is not known.
pub open spec fn installed_kb(meminfo: Option<Seq<char>>) -> nat {
    match meminfo {
        Some(text) => first_total_kb(lines_of(text)),
        None => 0,
    }
}

/// The low 64 bits of a number.
pub open spec fn wrapped(n: nat) -> nat {
    n % 0x1_0000_0000_0000_0000
}

/// The installed memory in bytes, from the content of `/proc/meminfo`; 0 if it is not known.
/// More than 64 bits can hold wraps around.
pub fn total_memory_bytes(meminfo: Option<&str>) -> (r: u64)
    ensures
        r == wrapped(
            installed_kb(
                match meminfo {
                    Some(text) => Some(text@),
                    None => None,
                },
            ) * 1024,
        ),
{
    let text = match meminfo {
        Some(t) => t,
        None => {
            return 0;
        },
    };
    let chars = chars_of(text);
    let ls = lines(chars.as_slice());
    let key = chars_of("MemTotal:");
    let ghost all = lines_of(text@);
    let mut i: usize = 0;
    proof {
        assert(all.skip(0) =~= all);
    }
    while i < ls.len()
        invariant
            i <= ls@.len(),
            key@ == "MemTotal:"@,
            meminfo matches Some(t) && t@ == text@,
            all == lines_of(text@),
            texts(ls@) == all,
            first_total_kb(all) == first_total_kb(all.skip(i as int)),
        decreases ls@.len() - i,
    {
        let line = ls[i];
        proof {
            assert(texts(ls@)[i as int] == line@);
            assert(all.skip(i as int)[0] == line@);
            assert(all.skip(i as int).skip(1) =~= all.skip(i + 1));
        }
        if starts_with(line, key.as_slice()) {
            let parts = words(line);
            proof {
                assert(texts(parts@).len() == parts@.len());
            }
            if parts.len() > 1 {
                proof {
                    assert(words_of(line@)[1] == parts@[1]@);
                }
                if let Some(kb) = parse_u64(parts[1]) {
                    return kb.wrapping_mul(1024);
                }
            }
        }
        i = i + 1;
    }
    0
}

/// A share of the installed memory, in bytes.
pub open spec fn memory_share(meminfo: Option<Seq<char>>, percent: u64) -> nat {
    wrapped(wrapped(installed_kb(meminfo) * 1024) * percent as nat) / 100
}

/// A share of the installed memory, in bytes, from the content of `/proc/meminfo`.
pub fn memory_limit(meminfo: Option<&str>, percent: u64) -> (r: u64)
    ensures
        r == memory_share(
            match meminfo {
                Some(text) => Some(text@),
                None => None,
            },
            percent,
        ),
{
    total_memory_bytes(meminfo).wrapping_mul(percent) / 100
}

/// On a machine with less than 2^47 kilobytes the limit is the exact share, rounded down, and no
/// more than what is installed.
pub proof fn law_memory_share_is_exact(meminfo: Option<Seq<char>>, percent: u64)
    requires
        percent <= 100,
        installed_kb(meminfo) < 0x8000_0000_0000,
    ensures
        memory_share(meminfo, percent) == installed_kb(meminfo) * 1024 * percent as nat / 100,
        memory_share(meminfo, percent) <= installed_kb(meminfo) * 1024,
{
    let total = installed_kb(meminfo) * 1024;
    assert(total * percent as nat <= total * 100) by (nonlinear_arith)
        requires
            percent <= 100,
    ;
    assert(total * 100 < 0x1_0000_0000_0000_0000);
}

// ---------------------------------------------------------------------------------------------
//  Laws
// ---------------------------------------------------------------------------------------------

/// Filling the background moves every scanned process that is outside the focus tree, not protected,
/// and has its path under `/user.slice` or `/supaa`, whatever follows.  It moves no other.
pub proof fn law_background_takes_user_processes(
    table: Seq<Proc>,
    focus_pid: Option<u32>,
    our_pids: Set<u32>,
    pid: u32,
)
    ensures
        moves(CgroupDir::Background, background_pids(table, focus_pid, our_pids)).contains(
            Task::Call(SystemCall::Write(CgroupDir::Background, Setting::Procs(pid))),
        ) <==> {
            &&& pids_of(table).contains(pid)
            &&& focus_pid matches Some(root) ==> !process_tree(table, root).contains(pid)
            &&& !whitelisted(table, our_pids, pid)
            &&& cgroup_of(table, pid) matches Some(path) && ("/user.slice"@.is_prefix_of(path)
                || "/supaa"@.is_prefix_of(path))
        },
{
    let all = pids_of(table);
    let pred = |p: u32| belongs_in_background(table, focus_pid, our_pids, p);
    let chosen = background_pids(table, focus_pid, our_pids);
    let tasks = moves(CgroupDir::Background, chosen);
    let task = Task::Call(SystemCall::Write(CgroupDir::Background, Setting::Procs(pid)));
    if tasks.contains(task) {
        let i = choose|i: int| 0 <= i < tasks.len() && tasks[i] == task;
        assert(chosen[i] == pid);
        all.lemma_filter_contains_rev(pred, pid);
        all.lemma_filter_pred(pred, i);
    }
    if all.contains(pid) && belongs_in_background(table, focus_pid, our_pids, pid) {
        let j = choose|j: int| 0 <= j < all.len() && all[j] == pid;
        all.lemma_filter_contains(pred, j);
        assert(chosen.contains(pid));
        let i = choose|i: int| 0 <= i < chosen.len() && chosen[i] == pid;
        assert(tasks[i] == task);
    }
}

/// Moving some processes to a directory writes the number of each to it, in the same order, and does
/// nothing else.
pub proof fn law_moves_write_each_number(dir: CgroupDir, pids: Seq<u32>)
    ensures
        moves(dir, pids).len() == pids.len(),
        forall|i: int|
            0 <= i < pids.len() ==> #[trigger] moves(dir, pids)[i] == Task::Call(
                SystemCall::Write(dir, Setting::Procs(pids[i])),
            ),
{
}

/// Moving a tree moves each process of it once, and no other.
pub proof fn law_tree_is_moved_whole(
    table: Seq<Proc>,
    root: u32,
    dir: CgroupDir,
    tasks: Seq<Task>,
    pid: u32,
)
    requires
        moves_tree(table, root, dir, tasks),
    ensures
        tasks.contains(Task::Call(SystemCall::Write(dir, Setting::Procs(pid)))) <==> process_tree(
            table,
            root,
        ).contains(pid),
        forall|i: int|
            0 <= i < tasks.len() ==> (#[trigger] tasks[i] matches Task::Call(
                SystemCall::Write(to, Setting::Procs(_)),
            ) && to == dir),
        tasks.no_duplicates(),
{
    let order = choose|order: Seq<u32>|
        #[trigger] lists(order, process_tree(table, root)) && tasks == moves(dir, order);
    let task = Task::Call(SystemCall::Write(dir, Setting::Procs(pid)));
    if tasks.contains(task) {
        let i = choose|i: int| 0 <= i < tasks.len() && tasks[i] == task;
        assert(order[i] == pid);
        assert(order.contains(pid));
        assert(order.to_set().contains(pid));
    }
    if process_tree(table, root).contains(pid) {
        assert(order.to_set().contains(pid));
        let i = choose|i: int| 0 <= i < order.len() && order[i] == pid;
        assert(tasks[i] == task);
    }
}

proof fn lemma_total_at(ls: Seq<Seq<char>>, i: int)
    requires
        0 <= i <= ls.len(),
        forall|j: int| 0 <= j < i ==> !"MemTotal:"@.is_prefix_of(#[trigger] ls[j]),
    ensures
        first_total_kb(ls) == first_total_kb(ls.skip(i)),
    decreases i,
{
    if i == 0 {
        assert(ls.skip(0) =~= ls);
    } else {
        let rest = ls.skip(1);
        assert(!"MemTotal:"@.is_prefix_of(ls[0]));
        assert forall|j: int| 0 <= j < i - 1 implies !"MemTotal:"@.is_prefix_of(
            #[trigger] rest[j],
        ) by {
            assert(rest[j] == ls[j + 1]);
        }
        lemma_total_at(rest, i - 1);
        assert(rest.skip(i - 1) =~= ls.skip(i));
    }
}

/// The installed memory is read in kilobytes from the first line that starts with `MemTotal:`.  Up to
/// 2^47 of them, the total is that number times 1024, and a limit is the exact share of it, rounded
/// down.
pub proof fn law_installed_memory_is_read_from_its_line(
    meminfo: Seq<char>,
    i: int,
    left: Seq<char>,
    kb: nat,
    right: Seq<char>,
    percent: u64,
)
    requires
        0 <= i < lines_of(meminfo).len(),
        lines_of(meminfo)[i] == "MemTotal:"@ + (left + decimal(kb) + right),
        left.len() > 0,
        blank(left),
        right.len() > 0 ==> is_space(right[0]),
        forall|j: int| 0 <= j < i ==> !"MemTotal:"@.is_prefix_of(#[trigger] lines_of(meminfo)[j]),
        kb <= 0x8000_0000_0000,
        percent <= 100,
    ensures
        wrapped(installed_kb(Some(meminfo)) * 1024) == kb * 1024,
        memory_share(Some(meminfo), percent) == kb * 1024 * percent as nat / 100,
{
    reveal_strlit("MemTotal:");
    let key = "MemTotal:"@;
    let ls = lines_of(meminfo);
    let value = left + decimal(kb) + right;
    let line = key + value;
    lemma_total_at(ls, i);
    assert(ls.skip(i)[0] == line);
    assert(line.take(key.len() as int) =~= key);
    assert(key.is_prefix_of(line));
    assert forall|j: int| 0 <= j < key.len() implies !is_space(#[trigger] key[j]) by {}
    let none = Seq::<char>::empty();
    assert(value[0] == left[0]);
    law_words_end_at_white_space(none, key, value);
    assert(none + key + value =~= line);
    law_decimal_reads_back(kb, u64::MAX as nat);
    law_decimals_are_words(kb);
    law_words_end_at_white_space(left, decimal(kb), right);
    assert(words_of(line)[1] == decimal(kb));
    assert(installed_kb(Some(meminfo)) == kb);
    let total = kb * 1024;
    assert(total * percent as nat <= total * 100) by (nonlinear_arith)
        requires
            percent <= 100,
    ;
    assert(total * 100 < 0x1_0000_0000_0000_0000);
}

/// Where no line starts with `MemTotal:`, or nothing could be read, nothing is known to be installed.
pub proof fn law_unread_memory_is_zero(meminfo: Option<Seq<char>>, percent: u64)
    requires
        meminfo matches Some(text) ==> forall|j: int|
            0 <= j < lines_of(text).len() ==> !"MemTotal:"@.is_prefix_of(
                #[trigger] lines_of(text)[j],
            ),
    ensures
        memory_share(meminfo, percent) == 0,
{
    if let Some(text) = meminfo {
        lemma_total_at(lines_of(text), lines_of(text).len() as int);
    }
    assert(0 * (percent as nat) == 0) by (nonlinear_arith);
}

/// The processes of a directory are the numbers on the lines of its list, in the same order, with white
/// space around them or not.
pub proof fn law_listed_numbers_are_processes(
    ls: Seq<Seq<char>>,
    left: Seq<char>,
    pid: u32,
    right: Seq<char>,
    other: Seq<char>,
)
    requires
        blank(left),
        blank(right),
    ensures
        pids_listed(None) == Seq::<u32>::empty(),
        pids_on(Seq::<Seq<char>>::empty()) == Seq::<u32>::empty(),
        pids_on(ls.push(left + decimal(pid as nat) + right)) == pids_on(ls).push(pid),
        parsed(trimmed(other), u32::MAX as nat) is None ==> pids_on(ls.push(other)) == pids_on(ls),
{
    law_decimals_stand_out(left, pid as nat, right, u32::MAX as nat);
    assert(ls.push(left + decimal(pid as nat) + right).drop_last() =~= ls);
    assert(ls.push(other).drop_last() =~= ls);
}

/// The processes of a directory are read from the lines of its list.
pub proof fn law_list_is_read_by_lines(text: Seq<char>)
    ensures
        pids_listed(Some(text)) == pids_on(lines_of(text)),
{
}

/// The directories lie inside one another, and each has a path of its own.
pub proof fn law_directories_are_nested()
    ensures
        dir_path(CgroupDir::Root) == "/sys/fs/cgroup"@,
        dir_path(CgroupDir::Supaa) == dir_path(CgroupDir::Root) + "/supaa"@,
        dir_path(CgroupDir::Focus) == dir_path(CgroupDir::Supaa) + "/focus"@,
        dir_path(CgroupDir::Background) == dir_path(CgroupDir::Supaa) + "/background"@,
{
    reveal_strlit("/sys/fs/cgroup");
    reveal_strlit("/supaa");
    reveal_strlit("/focus");
    reveal_strlit("/background");
    reveal_strlit("/sys/fs/cgroup/supaa");
    reveal_strlit("/sys/fs/cgroup/supaa/focus");
    reveal_strlit("/sys/fs/cgroup/supaa/background");
    assert(dir_path(CgroupDir::Supaa) =~= dir_path(CgroupDir::Root) + "/supaa"@);
    assert(dir_path(CgroupDir::Focus) =~= dir_path(CgroupDir::Supaa) + "/focus"@);
    assert(dir_path(CgroupDir::Background) =~= dir_path(CgroupDir::Supaa) + "/background"@);
}

/// What is written for a number reads back as the number: a weight of the processor, a memory limit
/// and a process as they are, a weight of the disks after the word that names the default.
pub proof fn law_settings_read_back(n: u64, pid: u32)
    ensures
        parsed(setting_value(Setting::CpuWeight(n)), u64::MAX as nat) == Some(n as nat),
        parsed(setting_value(Setting::MemoryHigh(Some(n))), u64::MAX as nat) == Some(n as nat),
        parsed(setting_value(Setting::Procs(pid)), u32::MAX as nat) == Some(pid as nat),
        "default "@.is_prefix_of(setting_value(Setting::IoWeight(n))),
        parsed(setting_value(Setting::IoWeight(n)).skip(8), u64::MAX as nat) == Some(n as nat),
{
    reveal_strlit("default ");
    law_decimal_reads_back(n as nat, u64::MAX as nat);
    law_decimal_reads_back(pid as nat, u32::MAX as nat);
    assert(setting_value(Setting::IoWeight(n)).skip(8) =~= decimal(n as nat));
    assert(setting_value(Setting::IoWeight(n)).take(8) =~= "default "@);
}

/// A full teardown begins with the reset, which writes the kernel's default to each setting of each
/// directory that a mode may have changed, and changes nothing else.
pub proof fn law_reset_writes_defaults(task: Task)
    ensures
        reset_tasks().contains(task) <==> {
            ||| task == Task::Call(SystemCall::Write(CgroupDir::Focus, Setting::CpuWeight(100)))
            ||| task == Task::Call(SystemCall::Write(CgroupDir::Focus, Setting::IoWeight(100)))
            ||| task == Task::Call(SystemCall::Write(CgroupDir::Background, Setting::CpuWeight(100)))
            ||| task == Task::Call(SystemCall::Write(CgroupDir::Background, Setting::IoWeight(100)))
            ||| task == Task::Call(
                SystemCall::Write(CgroupDir::Background, Setting::MemoryHigh(None)),
            )
        },
        reset_tasks().is_prefix_of(teardown_tasks()),
{
    let tasks = reset_tasks();
    assert(teardown_tasks().take(tasks.len() as int) =~= tasks);
    assert(tasks.contains(tasks[0]) && tasks.contains(tasks[1]) && tasks.contains(tasks[2])
        && tasks.contains(tasks[3]) && tasks.contains(tasks[4]));
}

/// Does this line tell how much memory is installed?
pub open spec fn tells_memory(line: Seq<char>) -> bool {
    "MemTotal:"@.is_prefix_of(line) && words_of(line).len() > 1 && parsed(
        words_of(line)[1],
        u64::MAX as nat,
    ) is Some
}

proof fn lemma_telling_line(ls: Seq<Seq<char>>, i: int)
    requires
        0 <= i <= ls.len(),
        forall|j: int| 0 <= j < i ==> !tells_memory(#[trigger] ls[j]),
    ensures
        first_total_kb(ls) == first_total_kb(ls.skip(i)),
    decreases i,
{
    if i == 0 {
        assert(ls.skip(0) =~= ls);
    } else {
        let rest = ls.skip(1);
        assert(!tells_memory(ls[0]));
        assert forall|j: int| 0 <= j < i - 1 implies !tells_memory(#[trigger] rest[j]) by {
            assert(rest[j] == ls[j + 1]);
        }
        lemma_telling_line(rest, i - 1);
        assert(rest.skip(i - 1) =~= ls.skip(i));
    }
}

/// The first line counts that starts with `MemTotal:` and has a number of 64 bits for its second word,
/// however large.  Lines without such a number are passed over.  Too large a total wraps around.
pub proof fn law_first_readable_total_counts(meminfo: Seq<char>, i: int)
    requires
        0 <= i <= lines_of(meminfo).len(),
        forall|j: int| 0 <= j < i ==> !tells_memory(#[trigger] lines_of(meminfo)[j]),
        i < lines_of(meminfo).len() ==> tells_memory(lines_of(meminfo)[i]),
    ensures
        i == lines_of(meminfo).len() ==> installed_kb(Some(meminfo)) == 0,
        i < lines_of(meminfo).len() ==> Some(installed_kb(Some(meminfo))) == parsed(
            words_of(lines_of(meminfo)[i])[1],
            u64::MAX as nat,
        ),
        wrapped(installed_kb(Some(meminfo)) * 1024) == (installed_kb(Some(meminfo)) * 1024)
            % 0x1_0000_0000_0000_0000,
        forall|percent: u64|
            #[trigger] memory_share(Some(meminfo), percent) == ((installed_kb(Some(meminfo)) * 1024)
                % 0x1_0000_0000_0000_0000) * (percent as nat) % 0x1_0000_0000_0000_0000 / 100,
{
    lemma_telling_line(lines_of(meminfo), i);
}

/// A setting goes to the same file whatever its value.
pub proof fn law_settings_have_files(n: u64, bytes: Option<u64>, pid: u32)
    ensures
        setting_file(Setting::CpuWeight(n)) == "cpu.weight"@,
        setting_file(Setting::IoWeight(n)) == "io.weight"@,
        setting_file(Setting::MemoryHigh(bytes)) == "memory.high"@,
        setting_file(Setting::Procs(pid)) == "cgroup.procs"@,
        setting_file(Setting::Controllers) == "cgroup.subtree_control"@,
        setting_value(Setting::MemoryHigh(None)) == "max"@,
        setting_value(Setting::Controllers) == "+cpu +io +memory"@,
{
}

/// The hierarchy is the unified one exactly if the table of mounts names the type `cgroup2` somewhere.
pub proof fn law_unified_is_named(before: Seq<char>, after: Seq<char>, other: Seq<char>)
    ensures
        mounts_unified(before + "cgroup2"@ + after),
        mounts_unified(other) ==> exists|i: int|
            0 <= i && i + 7 <= other.len() && #[trigger] other.subrange(i, i + 7) == "cgroup2"@,
{
    reveal_strlit("cgroup2");
    let text = before + "cgroup2"@ + after;
    law_contained_texts_stand_somewhere(text, "cgroup2"@);
    assert(text.subrange(before.len() as int, before.len() as int + "cgroup2"@.len()) =~= "cgroup2"@);
    law_contained_texts_stand_somewhere(other, "cgroup2"@);
}

/// A process is one of the user's wherever its path starts with `/user.slice` or `/supaa`, and nowhere
/// else; without a path it is not.
pub proof fn law_user_processes_are_told_by_their_path(table: Seq<Proc>, pid: u32, root: u32)
    ensures
        cgroup_of(table, pid) is None ==> !user_process(table, pid),
        cgroup_of(table, pid) matches Some(path) ==> {
            &&& "/user.slice"@.is_prefix_of(path) ==> user_process(table, pid)
            &&& "/supaa"@.is_prefix_of(path) ==> user_process(table, pid)
            &&& user_process(table, pid) ==> "/user.slice"@.is_prefix_of(path)
                || "/supaa"@.is_prefix_of(path)
        },
        focus_tree(table, Some(root)) == process_tree(table, root),
        focus_tree(table, None).is_empty(),
{
}

} // verus!
