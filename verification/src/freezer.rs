//! Freezing and thawing processes.
//!
//! A process is frozen with `SIGSTOP`, which it can neither catch nor ignore, and thawed with
//! `SIGCONT`.  The whitelist is asked before every freeze, and what was frozen is remembered so that
//! it can always be thawed.
use std::collections::HashSet;
use vstd::prelude::*;

use crate::cgroup::{focus_tree, get_focus_tree};
use crate::pids::{lists, members};
use crate::system::{Signal, SignalOutcome, SystemCall, SystemReply};
use crate::task::Task;
use crate::whitelist::{is_whitelisted, pids_of, process_tree, whitelisted, Proc, ProcTable};

verus! {

broadcast use vstd::std_specs::hash::group_hash_axioms;

/// The processes that are frozen.
pub type FrozenSet = HashSet<u32>;

pub fn new_frozen_set() -> (r: FrozenSet)
    ensures
        r@ == Set::<u32>::empty(),
{
    HashSet::new()
}

/// A signal that could not be delivered.
#[derive(Debug, Clone, Copy)]
pub struct SignalError {
    pub pid: u32,
    pub signal: Signal,
}

/// The number by which the kernel knows a process, as the signal call takes it.
pub open spec fn kernel_pid(pid: u32) -> int {
    if pid <= i32::MAX {
        pid as int
    } else {
        pid - 0x1_0000_0000
    }
}

/// The number by which the kernel knows a process, as the signal call takes it.
pub fn raw_pid(pid: u32) -> (r: i32)
    ensures
        r == kernel_pid(pid),
{
    assert(pid <= 0x7fff_ffff ==> (pid as i32) == pid) by (bit_vector);
    assert(pid > 0x7fff_ffff ==> (pid as i32) == pid - 0x1_0000_0000) by (bit_vector);
    pid as i32
}

/// Calls `nix::sys::signal::kill`, which sends `SIGSTOP` or `SIGCONT` to what `pid` stands for.
///
/// What comes of it rests with the kernel, so nothing is promised of the result.
#[verifier::external_body]
fn kill(pid: i32, signal: Signal) -> (r: SignalOutcome) {
    let signal = match signal {
        Signal::Stop => nix::sys::signal::Signal::SIGSTOP,
        Signal::Continue => nix::sys::signal::Signal::SIGCONT,
    };
    match nix::sys::signal::kill(nix::unistd::Pid::from_raw(pid), signal) {
        Ok(()) => SignalOutcome::Delivered,
        Err(nix::errno::Errno::ESRCH) => SignalOutcome::NoSuchProcess,
        Err(_) => SignalOutcome::Failed,
    }
}

/// Send a signal to a process, and reply with what became of it.
pub fn send_signal(pid: u32, signal: Signal) -> (r: SystemReply)
    ensures
        r is Signalled,
{
    SystemReply::Signalled(kill(raw_pid(pid), signal))
}

// ---------------------------------------------------------------------------------------------
//  One process
// ---------------------------------------------------------------------------------------------

/// May the process be frozen?  It may unless it is protected or frozen already.
pub open spec fn may_freeze(
    table: Seq<Proc>,
    our_pids: Set<u32>,
    frozen: Set<u32>,
    pid: u32,
) -> bool {
    !whitelisted(table, our_pids, pid) && !frozen.contains(pid)
}

/// The signal that freezes a process, if it may be frozen.
pub fn freeze_pid(
    pid: u32,
    frozen: &FrozenSet,
    our_pids: &HashSet<u32>,
    table: &ProcTable,
) -> (r: Option<SystemCall>)
    ensures
        r == (if may_freeze(table@, our_pids@, frozen@, pid) {
            Some(SystemCall::Signal(pid, Signal::Stop))
        } else {
            None
        }),
{
    if is_whitelisted(pid, our_pids, table) {
        return None;
    }
    if frozen.contains(&pid) {
        return None;
    }
    Some(SystemCall::Signal(pid, Signal::Stop))
}

/// Remember what became of the signal that freezes a process.
pub fn record_freeze(
    pid: u32,
    outcome: SignalOutcome,
    frozen: &mut FrozenSet,
) -> (r: Result<(), SignalError>)
    ensures
        outcome == SignalOutcome::Delivered ==> r is Ok && final(frozen)@ == old(
            frozen,
        )@.insert(pid),
        outcome != SignalOutcome::Delivered ==> r == Err::<(), SignalError>(
            SignalError { pid, signal: Signal::Stop },
        ) && final(frozen)@ == old(frozen)@,
{
    if outcome == SignalOutcome::Delivered {
        frozen.insert(pid);
        Ok(())
    } else {
        Err(SignalError { pid, signal: Signal::Stop })
    }
}

/// The signal that thaws a process.
pub fn thaw_pid(pid: u32) -> (r: SystemCall)
    ensures
        r == SystemCall::Signal(pid, Signal::Continue),
{
    SystemCall::Signal(pid, Signal::Continue)
}

/// Remember what became of the signal that thaws a process.  One that no longer exists counts as
/// thawed.
pub fn record_thaw(
    pid: u32,
    outcome: SignalOutcome,
    frozen: &mut FrozenSet,
) -> (r: Result<(), SignalError>)
    ensures
        outcome != SignalOutcome::Failed ==> r is Ok && final(frozen)@ == old(frozen)@.remove(pid),
        outcome == SignalOutcome::Failed ==> r == Err::<(), SignalError>(
            SignalError { pid, signal: Signal::Continue },
        ) && final(frozen)@ == old(frozen)@,
{
    if outcome == SignalOutcome::Failed {
        return Err(SignalError { pid, signal: Signal::Continue });
    }
    frozen.remove(&pid);
    Ok(())
}

// ---------------------------------------------------------------------------------------------
//  Many processes
// ---------------------------------------------------------------------------------------------

/// Freeze each of some processes.
pub open spec fn freezes(pids: Seq<u32>) -> Seq<Task> {
    pids.map_values(|pid: u32| Task::Freeze(pid))
}

/// Thaw each of some processes.
pub open spec fn thaws(pids: Seq<u32>) -> Seq<Task> {
    pids.map_values(|pid: u32| Task::Thaw(pid))
}

/// The processes of a scan that are neither in the focus tree nor protected, in its order.
pub open spec fn freezable_pids(
    table: Seq<Proc>,
    focus_pid: Option<u32>,
    our_pids: Set<u32>,
) -> Seq<u32> {
    pids_of(table).filter(
        |pid: u32|
            !focus_tree(table, focus_pid).contains(pid) && !whitelisted(table, our_pids, pid),
    )
}

/// The processes of a scan that are neither in the focus tree nor protected, in its order.
pub fn freezable(
    focus_pid: Option<u32>,
    our_pids: &HashSet<u32>,
    table: &ProcTable,
) -> (r: Vec<u32>)
    ensures
        r@ == freezable_pids(table@, focus_pid, our_pids@),
{
    let tree = get_focus_tree(focus_pid, table);
    let mut out: Vec<u32> = Vec::new();
    let ghost pids = pids_of(table@);
    let ghost chosen = |pid: u32|
        !focus_tree(table@, focus_pid).contains(pid) && !whitelisted(table@, our_pids@, pid);
    let mut i: usize = 0;
    proof {
        reveal(Seq::filter);
    }
    while i < table.records.len()
        invariant
            i <= table.records@.len(),
            pids == pids_of(table@),
            chosen == (|pid: u32|
                !focus_tree(table@, focus_pid).contains(pid) && !whitelisted(
                    table@,
                    our_pids@,
                    pid,
                )),
            tree@ == focus_tree(table@, focus_pid),
            out@ == pids.take(i as int).filter(chosen),
        decreases table.records@.len() - i,
    {
        let pid = table.records[i].pid;
        proof {
            reveal(Seq::filter);
            assert(pids.take(i + 1).drop_last() =~= pids.take(i as int));
            assert(pids.take(i + 1).last() == pid);
        }
        if !tree.contains(&pid) && !is_whitelisted(pid, our_pids, table) {
            out.push(pid);
        }
        i = i + 1;
    }
    proof {
        assert(pids.take(i as int) =~= pids);
    }
    out
}

/// Freeze all background processes that are not protected.  The focus application is left alone,
/// and with it all its descendants, which covers launchers that spawn the real program.
pub fn freeze_all_background(
    focus_pid: Option<u32>,
    our_pids: &HashSet<u32>,
    table: &ProcTable,
) -> (r: Vec<Task>)
    ensures
        r@ == freezes(freezable_pids(table@, focus_pid, our_pids@)),
{
    let pids = freezable(focus_pid, our_pids, table);
    let mut out: Vec<Task> = Vec::new();
    let mut i: usize = 0;
    while i < pids.len()
        invariant
            i <= pids@.len(),
            out@ == freezes(pids@.take(i as int)),
        decreases pids@.len() - i,
    {
        out.push(Task::Freeze(pids[i]));
        i = i + 1;
        proof {
            assert(out@ =~= freezes(pids@.take(i as int)));
        }
    }
    proof {
        assert(pids@.take(i as int) =~= pids@);
    }
    out
}

/// Thaw every process in the set, in an order that is not fixed.
pub fn thaw_all(frozen: &FrozenSet) -> (r: Vec<Task>)
    ensures
        exists|order: Seq<u32>| #[trigger] lists(order, frozen@) && r@ == thaws(order),
{
    let order = members(frozen);
    let r = thaw_pid_list(&order);
    proof {
        assert(lists(order@, frozen@));
    }
    r
}

/// Thaw every process in the list.
pub fn thaw_pid_list(pids: &Vec<u32>) -> (r: Vec<Task>)
    ensures
        r@ == thaws(pids@),
{
    let mut out: Vec<Task> = Vec::new();
    let mut i: usize = 0;
    while i < pids.len()
        invariant
            i <= pids@.len(),
            out@ == thaws(pids@.take(i as int)),
        decreases pids@.len() - i,
    {
        out.push(Task::Thaw(pids[i]));
        i = i + 1;
        proof {
            assert(out@ =~= thaws(pids@.take(i as int)));
        }
    }
    proof {
        assert(pids@.take(i as int) =~= pids@);
    }
    out
}

/// What is chosen to be frozen may be frozen, unless it is frozen already.
pub proof fn law_chosen_may_be_frozen(
    table: Seq<Proc>,
    focus_pid: Option<u32>,
    our_pids: Set<u32>,
    frozen: Set<u32>,
    pid: u32,
)
    requires
        freezable_pids(table, focus_pid, our_pids).contains(pid),
    ensures
        may_freeze(table, our_pids, frozen, pid) <==> !frozen.contains(pid),
        !focus_tree(table, focus_pid).contains(pid),
{
    let keep = |pid: u32|
        !focus_tree(table, focus_pid).contains(pid) && !whitelisted(table, our_pids, pid);
    let i = freezable_pids(table, focus_pid, our_pids).index_of(pid);
    pids_of(table).lemma_filter_pred(keep, i);
}

/// Freezing takes every scanned process that is outside the focus tree and not protected, and no other.
pub proof fn law_every_other_process_is_chosen(
    table: Seq<Proc>,
    focus_pid: Option<u32>,
    our_pids: Set<u32>,
    pid: u32,
)
    ensures
        freezes(freezable_pids(table, focus_pid, our_pids)).contains(Task::Freeze(pid)) <==> {
            &&& pids_of(table).contains(pid)
            &&& focus_pid matches Some(root) ==> !process_tree(table, root).contains(pid)
            &&& !whitelisted(table, our_pids, pid)
        },
{
    let all = pids_of(table);
    let pred = |pid: u32|
        !focus_tree(table, focus_pid).contains(pid) && !whitelisted(table, our_pids, pid);
    let chosen = freezable_pids(table, focus_pid, our_pids);
    let tasks = freezes(chosen);
    if tasks.contains(Task::Freeze(pid)) {
        let i = choose|i: int| 0 <= i < tasks.len() && tasks[i] == Task::Freeze(pid);
        assert(chosen[i] == pid);
        all.lemma_filter_contains_rev(pred, pid);
        all.lemma_filter_pred(pred, i);
    }
    if all.contains(pid) && pred(pid) {
        let j = choose|j: int| 0 <= j < all.len() && all[j] == pid;
        all.lemma_filter_contains(pred, j);
        assert(chosen.contains(pid));
        let i = choose|i: int| 0 <= i < chosen.len() && chosen[i] == pid;
        assert(tasks[i] == Task::Freeze(pid));
    }
}

/// Freezing or thawing some processes is a task for each, in the same order, and nothing else.
pub proof fn law_each_process_has_its_task(pids: Seq<u32>)
    ensures
        freezes(pids).len() == pids.len(),
        thaws(pids).len() == pids.len(),
        forall|i: int| 0 <= i < pids.len() ==> #[trigger] freezes(pids)[i] == Task::Freeze(pids[i]),
        forall|i: int| 0 <= i < pids.len() ==> #[trigger] thaws(pids)[i] == Task::Thaw(pids[i]),
{
}

/// A process may be frozen exactly if it is not protected and not frozen.
pub proof fn law_frozen_or_protected_may_not_be_frozen(
    table: Seq<Proc>,
    our_pids: Set<u32>,
    frozen: Set<u32>,
    pid: u32,
)
    ensures
        whitelisted(table, our_pids, pid) ==> !may_freeze(table, our_pids, frozen, pid),
        !may_freeze(table, our_pids, frozen.insert(pid), pid),
        may_freeze(table, our_pids, frozen.remove(pid), pid) <==> !whitelisted(table, our_pids, pid),
{
}

/// The kernel's number of a process fits 32 bits with a sign, and is the process's own up to a multiple
/// of 2^32.
pub proof fn law_kernel_numbers_wrap(pid: u32)
    ensures
        -0x8000_0000 <= kernel_pid(pid) < 0x8000_0000,
        (pid - kernel_pid(pid)) % 0x1_0000_0000 == 0,
{
}

} // verus!
