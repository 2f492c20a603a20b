//! Fixed sequences of calls in which the outcome of one decides whether the next is made.
use vstd::prelude::*;

use crate::cgroup::{enable_controllers, ensure_dir, CgroupDir, Setting};
use crate::hyprland::{HyprRequest, WORKSPACE_KEYS};
use crate::system::{LogEntry, SystemCall, SystemReply};

verus! {

/// What the outcome of a step means for the rest of the script.
#[derive(Debug, Clone, Copy, PartialEq, Eq, Structural)]
pub enum Policy {
    /// Nothing.
    Ignore,
    /// If the step fails, the script has failed, and the rest is left out.
    Require,
    /// If the step succeeds, the rest is left out.
    StopOnSuccess,
}

/// A call, and what its outcome means.
#[derive(Debug, Clone, Copy)]
pub struct Step {
    pub call: SystemCall,
    pub policy: Policy,
}

/// The scripts.
#[derive(Debug, Clone, Copy, PartialEq, Eq, Structural)]
pub enum Script {
    /// Create the cgroup directories and enable their controllers.
    EnsureCgroups,
    /// The same, after a look at whether cgroup v2 is there.
    InitCgroups,
    /// Lock workspace switching.
    LockWorkspace,
    /// Unlock workspace switching.
    UnlockWorkspace,
    /// Unlock workspace switching, and take the bindings of all workspace keys back in any case.
    UnlockKeys,
    /// Write the state file.
    SaveState,
    /// Write the state file at the end of a recovery, and log that it is complete.
    SaveRecovered,
}

pub open spec fn step(call: SystemCall, policy: Policy) -> Step {
    Step { call, policy }
}

/// Create the directories and enable the controllers.  That the controllers cannot be enabled at
/// the root is no failure: the service manager may have done it.
pub open spec fn ensure_steps() -> Seq<Step> {
    seq![
        step(SystemCall::CreateDir(CgroupDir::Supaa), Policy::Require),
        step(SystemCall::Write(CgroupDir::Root, Setting::Controllers), Policy::Ignore),
        step(SystemCall::Write(CgroupDir::Supaa, Setting::Controllers), Policy::Require),
        step(SystemCall::CreateDir(CgroupDir::Focus), Policy::Require),
        step(SystemCall::CreateDir(CgroupDir::Background), Policy::Require),
    ]
}

/// Enter the submap, and bind every workspace key where the compositor refuses.
pub open spec fn lock_steps() -> Seq<Step> {
    seq![step(SystemCall::Hyprland(HyprRequest::LockSubmap), Policy::StopOnSuccess)] + Seq::new(
        WORKSPACE_KEYS as nat,
        |i: int| step(SystemCall::Hyprland(HyprRequest::Bind(i as usize)), Policy::Ignore),
    )
}

/// Leave the submap, and take the binding of every workspace key back: where the compositor refuses,
/// or, with `Policy::Ignore`, in any case.
pub open spec fn unlock_steps(policy: Policy) -> Seq<Step> {
    seq![step(SystemCall::Hyprland(HyprRequest::ResetSubmap), policy)] + Seq::new(
        WORKSPACE_KEYS as nat,
        |i: int| step(SystemCall::Hyprland(HyprRequest::Unbind(i as usize)), Policy::Ignore),
    )
}

/// The state goes to a temporary file first, which then replaces the state file.
pub open spec fn save_steps() -> Seq<Step> {
    seq![
        step(SystemCall::CreateStateDir, Policy::Require),
        step(SystemCall::WriteStateTmp, Policy::Require),
        step(SystemCall::RenameState, Policy::Require),
    ]
}

/// The steps of a script.
pub open spec fn steps_of(script: Script) -> Seq<Step> {
    match script {
        Script::EnsureCgroups => ensure_steps(),
        Script::InitCgroups => seq![step(SystemCall::ProbeCgroup, Policy::Require)]
            + ensure_steps(),
        Script::LockWorkspace => lock_steps(),
        Script::UnlockWorkspace => unlock_steps(Policy::StopOnSuccess),
        Script::UnlockKeys => unlock_steps(Policy::Ignore),
        Script::SaveState => save_steps(),
        Script::SaveRecovered => save_steps().push(
            step(SystemCall::AppendLog(LogEntry::RecoveryComplete), Policy::Ignore),
        ),
    }
}

fn push_ensure(out: &mut Vec<Step>)
    ensures
        final(out)@ == old(out)@ + ensure_steps(),
{
    out.push(Step { call: ensure_dir(CgroupDir::Supaa), policy: Policy::Require });
    out.push(Step { call: enable_controllers(CgroupDir::Root), policy: Policy::Ignore });
    out.push(Step { call: enable_controllers(CgroupDir::Supaa), policy: Policy::Require });
    out.push(Step { call: ensure_dir(CgroupDir::Focus), policy: Policy::Require });
    out.push(Step { call: ensure_dir(CgroupDir::Background), policy: Policy::Require });
    proof {
        assert(out@ =~= old(out)@ + ensure_steps());
    }
}

fn save() -> (r: Vec<Step>)
    ensures
        r@ == save_steps(),
{
    let mut out: Vec<Step> = Vec::new();
    out.push(Step { call: SystemCall::CreateStateDir, policy: Policy::Require });
    out.push(Step { call: SystemCall::WriteStateTmp, policy: Policy::Require });
    out.push(Step { call: SystemCall::RenameState, policy: Policy::Require });
    out
}

fn keys(lock: bool, policy: Policy) -> (r: Vec<Step>)
    requires
        lock ==> policy == Policy::StopOnSuccess,
    ensures
        r@ == (if lock {
            lock_steps()
        } else {
            unlock_steps(policy)
        }),
{
    let mut out: Vec<Step> = Vec::new();
    let ghost all = if lock {
        lock_steps()
    } else {
        unlock_steps(policy)
    };
    let submap = if lock {
        HyprRequest::LockSubmap
    } else {
        HyprRequest::ResetSubmap
    };
    out.push(Step { call: SystemCall::Hyprland(submap), policy });
    let mut i: usize = 0;
    proof {
        assert(out@ =~= all.take(1));
    }
    while i < WORKSPACE_KEYS
        invariant
            i <= WORKSPACE_KEYS,
            all == (if lock {
                lock_steps()
            } else {
                unlock_steps(policy)
            }),
            out@ == all.take(i + 1),
        decreases WORKSPACE_KEYS - i,
    {
        let request = if lock {
            HyprRequest::Bind(i)
        } else {
            HyprRequest::Unbind(i)
        };
        out.push(Step { call: SystemCall::Hyprland(request), policy: Policy::Ignore });
        i = i + 1;
        proof {
            assert(out@ =~= all.take(i + 1));
        }
    }
    proof {
        assert(all.take(i + 1) =~= all);
    }
    out
}

impl Script {
    /// The steps of the script.
    pub fn steps(&self) -> (r: Vec<Step>)
        ensures
            r@ == steps_of(*self),
    {
        match self {
            Script::EnsureCgroups => {
                let mut out: Vec<Step> = Vec::new();
                push_ensure(&mut out);
                proof {
                    assert(out@ =~= ensure_steps());
                }
                out
            },
            Script::InitCgroups => {
                let mut out: Vec<Step> = Vec::new();
                out.push(Step { call: SystemCall::ProbeCgroup, policy: Policy::Require });
                push_ensure(&mut out);
                out
            },
            Script::LockWorkspace => keys(true, Policy::StopOnSuccess),
            Script::UnlockWorkspace => keys(false, Policy::StopOnSuccess),
            Script::UnlockKeys => keys(false, Policy::Ignore),
            Script::SaveState => save(),
            Script::SaveRecovered => {
                let mut out = save();
                out.push(
                    Step {
                        call: SystemCall::AppendLog(LogEntry::RecoveryComplete),
                        policy: Policy::Ignore,
                    },
                );
                out
            },
        }
    }
}

/// How far a script has come.
#[derive(Debug, Clone, Copy)]
pub struct ScriptRun {
    pub script: Script,
    /// The number of the next step.
    pub at: usize,
    /// Has any step succeeded?
    pub any_ok: bool,
    /// Has a required step failed?
    pub failed: bool,
}

impl ScriptRun {
    /// A script none of whose steps has been made.
    pub open spec fn begin(script: Script) -> ScriptRun {
        ScriptRun { script, at: 0, any_ok: false, failed: false }
    }

    /// Is there no step left?
    pub open spec fn done(self) -> bool {
        self.at >= steps_of(self.script).len()
    }

    /// The next step.
    pub open spec fn next_step(self) -> Step {
        steps_of(self.script)[self.at as int]
    }

    /// The script after a step with the given outcome.
    pub open spec fn fed(self, ok: bool) -> ScriptRun {
        if self.done() {
            self
        } else {
            let policy = self.next_step().policy;
            let failed = policy == Policy::Require && !ok;
            let stop = failed || policy == Policy::StopOnSuccess && ok;
            ScriptRun {
                script: self.script,
                at: if stop {
                    steps_of(self.script).len() as usize
                } else {
                    (self.at + 1) as usize
                },
                any_ok: self.any_ok || ok,
                failed: self.failed || failed,
            }
        }
    }

    /// Begin a script.
    pub fn start(script: Script) -> (r: ScriptRun)
        ensures
            r == ScriptRun::begin(script),
    {
        ScriptRun { script, at: 0, any_ok: false, failed: false }
    }

    /// The next step, if there is one.
    pub fn current(&self) -> (r: Option<Step>)
        ensures
            r == (if self.done() {
                None
            } else {
                Some(self.next_step())
            }),
    {
        let steps = self.script.steps();
        if self.at < steps.len() {
            Some(steps[self.at])
        } else {
            None
        }
    }

    /// Take the outcome of the next step.
    pub fn feed(&self, ok: bool) -> (r: ScriptRun)
        ensures
            r == self.fed(ok),
    {
        let steps = self.script.steps();
        if self.at >= steps.len() {
            return *self;
        }
        let policy = steps[self.at].policy;
        let failed = policy == Policy::Require && !ok;
        let stop = failed || (policy == Policy::StopOnSuccess && ok);
        let at = if stop {
            steps.len()
        } else {
            self.at + 1
        };
        ScriptRun {
            script: self.script,
            at,
            any_ok: self.any_ok || ok,
            failed: self.failed || failed,
        }
    }
}

/// A script after its first steps have had the given outcomes.
pub open spec fn fed_all(run: ScriptRun, outcomes: Seq<bool>) -> ScriptRun
    decreases outcomes.len(),
{
    if outcomes.len() == 0 {
        run
    } else {
        fed_all(run, outcomes.drop_last()).fed(outcomes.last())
    }
}

/// The calls that a script has made when its steps have had the given outcomes.
pub open spec fn calls_made(run: ScriptRun, outcomes: Seq<bool>) -> Seq<SystemCall>
    decreases outcomes.len(),
{
    if outcomes.len() == 0 {
        seq![]
    } else {
        let before = fed_all(run, outcomes.drop_last());
        if before.done() {
            calls_made(run, outcomes.drop_last())
        } else {
            calls_made(run, outcomes.drop_last()).push(before.next_step().call)
        }
    }
}

/// Is one of the outcomes a success?
pub open spec fn any_success(outcomes: Seq<bool>) -> bool {
    exists|i: int| 0 <= i < outcomes.len() && #[trigger] outcomes[i]
}

/// Is the script one that locks or unlocks workspace switching?
pub open spec fn workspace_script(script: Script) -> bool {
    script == Script::LockWorkspace || script == Script::UnlockWorkspace
}

/// Where the submap works, it is all that is asked of the compositor, and the script has succeeded.
pub proof fn law_submap_suffices(script: Script)
    requires
        workspace_script(script),
    ensures
        ScriptRun::begin(script).fed(true).done(),
        ScriptRun::begin(script).fed(true).any_ok,
        !ScriptRun::begin(script).fed(true).failed,
{
}

/// Where the submap does not work, every workspace key is tried in turn, whatever becomes of the
/// others, and the script has succeeded exactly if one of them did.
pub proof fn law_keys_are_the_fallback(script: Script, outcomes: Seq<bool>)
    requires
        workspace_script(script),
        0 < outcomes.len() <= WORKSPACE_KEYS + 1,
        !outcomes[0],
    ensures
        fed_all(ScriptRun::begin(script), outcomes).at == outcomes.len(),
        fed_all(ScriptRun::begin(script), outcomes).any_ok == any_success(outcomes),
        !fed_all(ScriptRun::begin(script), outcomes).failed,
        fed_all(ScriptRun::begin(script), outcomes).script == script,
        calls_made(ScriptRun::begin(script), outcomes) == steps_of(script).take(
            outcomes.len() as int,
        ).map_values(|s: Step| s.call),
    decreases outcomes.len(),
{
    let run = ScriptRun::begin(script);
    let earlier = outcomes.drop_last();
    let calls = |s: Step| s.call;
    assert(steps_of(script).len() == WORKSPACE_KEYS + 1);
    if outcomes.len() == 1 {
        assert(earlier =~= seq![]);
        assert(fed_all(run, earlier) == run);
        assert(calls_made(run, earlier) =~= seq![]);
    } else {
        law_keys_are_the_fallback(script, earlier);
        assert(steps_of(script)[earlier.len() as int].policy == Policy::Ignore);
    }
    assert(calls_made(run, outcomes) =~= steps_of(script).take(
        outcomes.len() as int,
    ).map_values(calls));
    if outcomes.last() {
        assert(outcomes[outcomes.len() - 1]);
    }
    if any_success(earlier) {
        let i = choose|i: int| 0 <= i < earlier.len() && #[trigger] earlier[i];
        assert(outcomes[i]);
    }
    if any_success(outcomes) && !outcomes.last() {
        let i = choose|i: int| 0 <= i < outcomes.len() && #[trigger] outcomes[i];
        assert(earlier[i]);
    }
}

/// Whether each of some replies reports success.
pub open spec fn outcomes_of(replies: Seq<SystemReply>) -> Seq<bool> {
    replies.map_values(|reply: SystemReply| reply.succeeded())
}

/// Where the compositor answers the request for the submap with an error, or not at all, every
/// workspace key is bound or unbound in its turn, and the script has succeeded exactly if the
/// compositor accepted one of these requests.
pub proof fn law_refused_submap_reaches_the_keys(script: Script, replies: Seq<SystemReply>)
    requires
        workspace_script(script),
        replies.len() == WORKSPACE_KEYS + 1,
        !replies[0].succeeded(),
    ensures
        calls_made(ScriptRun::begin(script), outcomes_of(replies)) == steps_of(script).map_values(
            |s: Step| s.call,
        ),
        fed_all(ScriptRun::begin(script), outcomes_of(replies)).done(),
        fed_all(ScriptRun::begin(script), outcomes_of(replies)).any_ok <==> exists|i: int|
            1 <= i < replies.len() && (#[trigger] replies[i]).succeeded(),
{
    let outcomes = outcomes_of(replies);
    law_keys_are_the_fallback(script, outcomes);
    assert(steps_of(script).len() == WORKSPACE_KEYS + 1);
    assert(steps_of(script).take(outcomes.len() as int) =~= steps_of(script));
    if any_success(outcomes) {
        let i = choose|i: int| 0 <= i < outcomes.len() && #[trigger] outcomes[i];
        assert(replies[i].succeeded());
    }
    if exists|i: int| 1 <= i < replies.len() && (#[trigger] replies[i]).succeeded() {
        let i = choose|i: int| 1 <= i < replies.len() && (#[trigger] replies[i]).succeeded();
        assert(outcomes[i]);
    }
}

/// Unlocking mirrors locking: for each key that locking binds there is, at the same place, the
/// request that takes this binding back.
pub proof fn law_unlock_mirrors_lock(i: int)
    requires
        1 <= i < steps_of(Script::LockWorkspace).len(),
    ensures
        steps_of(Script::UnlockWorkspace).len() == steps_of(Script::LockWorkspace).len(),
        steps_of(Script::UnlockKeys).len() == steps_of(Script::LockWorkspace).len(),
        steps_of(Script::LockWorkspace)[i].call matches SystemCall::Hyprland(HyprRequest::Bind(key))
            && steps_of(Script::UnlockWorkspace)[i].call == SystemCall::Hyprland(
            HyprRequest::Unbind(key),
        ) && steps_of(Script::UnlockKeys)[i].call == SystemCall::Hyprland(HyprRequest::Unbind(key)),
{
}

/// Are workspace keys bound after a call, given whether some were before?  They are from the first
/// binding that is asked for until the last one has been asked back.
pub open spec fn bound_after(call: SystemCall, bound: bool) -> bool {
    match call {
        SystemCall::Hyprland(HyprRequest::Bind(_)) => true,
        SystemCall::Hyprland(HyprRequest::Unbind(key)) => bound && key + 1 != WORKSPACE_KEYS,
        _ => bound,
    }
}

/// Are workspace keys bound after some calls, one after the other?
pub open spec fn bound_by(calls: Seq<SystemCall>, bound: bool) -> bool
    decreases calls.len(),
{
    if calls.len() == 0 {
        bound
    } else {
        bound_after(calls.last(), bound_by(calls.drop_last(), bound))
    }
}

/// Are workspace keys bound after a call?
pub fn binds_after(call: SystemCall, bound: bool) -> (r: bool)
    ensures
        r == bound_after(call, bound),
{
    match call {
        SystemCall::Hyprland(HyprRequest::Bind(_)) => true,
        SystemCall::Hyprland(HyprRequest::Unbind(key)) => bound && key != WORKSPACE_KEYS - 1,
        _ => bound,
    }
}

/// The script that unlocks workspace switching, given whether workspace keys are bound.
pub open spec fn unlock_script(bound: bool) -> Script {
    if bound {
        Script::UnlockKeys
    } else {
        Script::UnlockWorkspace
    }
}

proof fn lemma_lock_leaves_keys_bound(outcomes: Seq<bool>, bound: bool)
    ensures
        calls_made(ScriptRun::begin(Script::LockWorkspace), outcomes).len() > 1 ==> bound_by(
            calls_made(ScriptRun::begin(Script::LockWorkspace), outcomes),
            bound,
        ),
    decreases outcomes.len(),
{
    let run = ScriptRun::begin(Script::LockWorkspace);
    if outcomes.len() > 0 {
        let earlier = outcomes.drop_last();
        lemma_lock_leaves_keys_bound(earlier, bound);
        lemma_calls_follow_steps(run, earlier);
        lemma_calls_follow_steps(run, outcomes);
        let calls = calls_made(run, outcomes);
        if !fed_all(run, earlier).done() {
            assert(calls.drop_last() =~= calls_made(run, earlier));
            if calls.len() > 1 {
                assert(calls.last() == steps_of(Script::LockWorkspace)[calls.len() - 1].call);
            }
        }
    }
}

proof fn lemma_all_keys_are_asked_back(outcomes: Seq<bool>)
    requires
        outcomes.len() <= WORKSPACE_KEYS + 1,
    ensures
        fed_all(ScriptRun::begin(Script::UnlockKeys), outcomes).at == outcomes.len(),
        fed_all(ScriptRun::begin(Script::UnlockKeys), outcomes).script == Script::UnlockKeys,
        calls_made(ScriptRun::begin(Script::UnlockKeys), outcomes).len() == outcomes.len(),
    decreases outcomes.len(),
{
    assert(steps_of(Script::UnlockKeys).len() == WORKSPACE_KEYS + 1);
    if outcomes.len() > 0 {
        let earlier = outcomes.drop_last();
        lemma_all_keys_are_asked_back(earlier);
        assert(steps_of(Script::UnlockKeys)[earlier.len() as int].policy == Policy::Ignore);
    }
}

/// Unlocking takes every binding back that locking asked for, whatever the compositor answers to
/// either.
pub proof fn law_unlock_takes_every_binding_back(
    lock: Seq<SystemReply>,
    unlock: Seq<SystemReply>,
    key: usize,
)
    requires
        calls_made(ScriptRun::begin(Script::LockWorkspace), outcomes_of(lock)).contains(
            SystemCall::Hyprland(HyprRequest::Bind(key)),
        ),
        unlock.len() == WORKSPACE_KEYS + 1,
    ensures
        ({
            let locking = calls_made(ScriptRun::begin(Script::LockWorkspace), outcomes_of(lock));
            let unlocking = unlock_script(bound_by(locking, false));
            calls_made(ScriptRun::begin(unlocking), outcomes_of(unlock)).contains(
                SystemCall::Hyprland(HyprRequest::Unbind(key)),
            )
        }),
{
    let run = ScriptRun::begin(Script::LockWorkspace);
    let locking = calls_made(run, outcomes_of(lock));
    let i = locking.index_of(SystemCall::Hyprland(HyprRequest::Bind(key)));
    lemma_calls_follow_steps(run, outcomes_of(lock));
    assert(steps_of(Script::LockWorkspace)[i].call == locking[i]);
    assert(i == key + 1);
    lemma_lock_leaves_keys_bound(outcomes_of(lock), false);
    let back = ScriptRun::begin(Script::UnlockKeys);
    let unlocking = calls_made(back, outcomes_of(unlock));
    lemma_all_keys_are_asked_back(outcomes_of(unlock));
    lemma_calls_follow_steps(back, outcomes_of(unlock));
    assert(unlocking[i] == steps_of(Script::UnlockKeys)[i].call);
}

/// The state file is replaced only after the new state has been written out in full: the rename is
/// asked for only if the directory and the temporary file were both made.
pub proof fn law_state_is_replaced_whole(script: Script, outcomes: Seq<bool>, i: int)
    requires
        script == Script::SaveState || script == Script::SaveRecovered,
        0 <= i < calls_made(ScriptRun::begin(script), outcomes).len(),
        calls_made(ScriptRun::begin(script), outcomes)[i] == SystemCall::RenameState,
    ensures
        i == 2,
        outcomes.len() > 2,
        outcomes[0] && outcomes[1],
        calls_made(ScriptRun::begin(script), outcomes)[1] == SystemCall::WriteStateTmp,
{
    lemma_calls_follow_steps(ScriptRun::begin(script), outcomes);
    let run = ScriptRun::begin(script);
    let calls = calls_made(run, outcomes);
    assert(calls[i] == steps_of(script)[i].call);
    assert(i == 2);
    assert(calls[1] == steps_of(script)[1].call);
    lemma_required_steps_succeeded(run, outcomes, 0);
    lemma_required_steps_succeeded(run, outcomes, 1);
}

/// The calls that a script makes are its steps, one after the other.
proof fn lemma_calls_follow_steps(run: ScriptRun, outcomes: Seq<bool>)
    requires
        run.at == 0,
    ensures
        calls_made(run, outcomes).len() <= outcomes.len(),
        calls_made(run, outcomes).len() <= steps_of(run.script).len(),
        fed_all(run, outcomes).script == run.script,
        !fed_all(run, outcomes).done() ==> fed_all(run, outcomes).at == calls_made(
            run,
            outcomes,
        ).len() && calls_made(run, outcomes).len() == outcomes.len(),
        forall|i: int|
            0 <= i < calls_made(run, outcomes).len() ==> #[trigger] calls_made(run, outcomes)[i]
                == steps_of(run.script)[i].call,
    decreases outcomes.len(),
{
    if outcomes.len() > 0 {
        lemma_calls_follow_steps(run, outcomes.drop_last());
    }
}

/// If a script came past a required step, that step succeeded.
proof fn lemma_required_steps_succeeded(run: ScriptRun, outcomes: Seq<bool>, i: int)
    requires
        run.at == 0,
        0 <= i,
        i + 1 < calls_made(run, outcomes).len(),
        steps_of(run.script)[i].policy == Policy::Require,
    ensures
        i < outcomes.len(),
        outcomes[i],
    decreases outcomes.len(),
{
    lemma_calls_follow_steps(run, outcomes);
    let earlier = outcomes.drop_last();
    lemma_calls_follow_steps(run, earlier);
    if i + 1 < calls_made(run, earlier).len() {
        lemma_required_steps_succeeded(run, earlier, i);
    } else {
        // The last outcome is that of step i + 1, so step i was the one before it.
        assert(!fed_all(run, earlier).done());
        assert(earlier.len() == i + 1);
        lemma_calls_follow_steps(run, earlier.drop_last());
        assert(fed_all(run, earlier) == fed_all(run, earlier.drop_last()).fed(earlier.last()));
        assert(!fed_all(run, earlier.drop_last()).done());
        assert(fed_all(run, earlier.drop_last()).at == i);
    }
}

/// A step that is required ends its script where it fails, and the script has failed.  A step that is
/// not required never fails its script.  A success is remembered, and so is a failure.
pub proof fn law_required_steps_decide(run: ScriptRun, ok: bool)
    requires
        !run.done(),
    ensures
        run.next_step().policy == Policy::Require && !ok ==> run.fed(ok).done() && run.fed(
            ok,
        ).failed,
        run.next_step().policy == Policy::Require && ok ==> run.fed(ok).at == run.at + 1
            && run.fed(ok).failed == run.failed,
        run.next_step().policy == Policy::Ignore ==> run.fed(ok).at == run.at + 1 && run.fed(
            ok,
        ).failed == run.failed,
        run.next_step().policy == Policy::StopOnSuccess && ok ==> run.fed(ok).done(),
        run.next_step().policy == Policy::StopOnSuccess && !ok ==> run.fed(ok).at == run.at + 1,
        run.next_step().policy == Policy::StopOnSuccess ==> run.fed(ok).failed == run.failed,
        run.fed(ok).any_ok == (run.any_ok || ok),
        run.fed(ok).script == run.script,
{
    assert(steps_of(run.script).len() <= WORKSPACE_KEYS + 1);
}

/// The directories are made from the outside in: the daemon's own first, then its controllers, then the
/// two inside it.  Only enabling the controllers at the root may fail.
pub proof fn law_directories_are_made_from_the_outside_in(i: int)
    requires
        0 <= i < 5,
    ensures
        steps_of(Script::EnsureCgroups).len() == 5,
        steps_of(Script::EnsureCgroups)[i].policy == if i == 1 {
            Policy::Ignore
        } else {
            Policy::Require
        },
        steps_of(Script::EnsureCgroups)[0].call == SystemCall::CreateDir(CgroupDir::Supaa),
        steps_of(Script::EnsureCgroups)[1].call == SystemCall::Write(
            CgroupDir::Root,
            Setting::Controllers,
        ),
        steps_of(Script::EnsureCgroups)[2].call == SystemCall::Write(
            CgroupDir::Supaa,
            Setting::Controllers,
        ),
        steps_of(Script::EnsureCgroups)[3].call == SystemCall::CreateDir(CgroupDir::Focus),
        steps_of(Script::EnsureCgroups)[4].call == SystemCall::CreateDir(CgroupDir::Background),
        steps_of(Script::InitCgroups).len() == 6,
        steps_of(Script::InitCgroups)[0].call == SystemCall::ProbeCgroup,
        steps_of(Script::InitCgroups)[0].policy == Policy::Require,
        steps_of(Script::InitCgroups)[i + 1] == steps_of(Script::EnsureCgroups)[i],
{
}

/// Nothing is made where the hierarchy cannot be used.
pub proof fn law_nothing_is_made_without_the_hierarchy(outcomes: Seq<bool>)
    requires
        outcomes.len() > 0,
        !outcomes[0],
    ensures
        calls_made(ScriptRun::begin(Script::InitCgroups), outcomes) == seq![
            SystemCall::ProbeCgroup,
        ],
        fed_all(ScriptRun::begin(Script::InitCgroups), outcomes).failed,
    decreases outcomes.len(),
{
    let run = ScriptRun::begin(Script::InitCgroups);
    let earlier = outcomes.drop_last();
    if outcomes.len() == 1 {
        assert(earlier =~= seq![]);
        assert(fed_all(run, earlier) == run);
        assert(calls_made(run, earlier) =~= seq![]);
        assert(calls_made(run, outcomes) =~= seq![SystemCall::ProbeCgroup]);
    } else {
        law_nothing_is_made_without_the_hierarchy(earlier);
        lemma_failed_scripts_are_over(run, earlier);
    }
}

proof fn lemma_failed_scripts_are_over(run: ScriptRun, outcomes: Seq<bool>)
    requires
        !run.failed,
    ensures
        fed_all(run, outcomes).failed ==> fed_all(run, outcomes).done(),
    decreases outcomes.len(),
{
    if outcomes.len() > 0 {
        lemma_failed_scripts_are_over(run, outcomes.drop_last());
    }
}

/// The submap is tried before any key: locking enters it, unlocking leaves it.  Then come the keys in
/// their order, each once, and none of them can end the script.
pub proof fn law_submap_comes_before_the_keys(key: int)
    requires
        0 <= key < 14,
    ensures
        steps_of(Script::LockWorkspace).len() == 15,
        steps_of(Script::LockWorkspace)[0] == (Step {
            call: SystemCall::Hyprland(HyprRequest::LockSubmap),
            policy: Policy::StopOnSuccess,
        }),
        steps_of(Script::LockWorkspace)[key + 1] == (Step {
            call: SystemCall::Hyprland(HyprRequest::Bind(key as usize)),
            policy: Policy::Ignore,
        }),
        steps_of(Script::UnlockWorkspace)[0] == (Step {
            call: SystemCall::Hyprland(HyprRequest::ResetSubmap),
            policy: Policy::StopOnSuccess,
        }),
        steps_of(Script::UnlockWorkspace)[key + 1].policy == Policy::Ignore,
        steps_of(Script::UnlockKeys)[0] == (Step {
            call: SystemCall::Hyprland(HyprRequest::ResetSubmap),
            policy: Policy::Ignore,
        }),
        steps_of(Script::UnlockKeys)[key + 1].policy == Policy::Ignore,
{
}

/// Saving the state takes three steps, each of which is required.  After a recovery a log entry follows.
pub proof fn law_saving_takes_three_steps()
    ensures
        steps_of(Script::SaveState) == seq![
            Step { call: SystemCall::CreateStateDir, policy: Policy::Require },
            Step { call: SystemCall::WriteStateTmp, policy: Policy::Require },
            Step { call: SystemCall::RenameState, policy: Policy::Require },
        ],
        steps_of(Script::SaveRecovered).drop_last() == steps_of(Script::SaveState),
        steps_of(Script::SaveRecovered).last() == (Step {
            call: SystemCall::AppendLog(LogEntry::RecoveryComplete),
            policy: Policy::Ignore,
        }),
{
    assert(steps_of(Script::SaveRecovered).drop_last() =~= steps_of(Script::SaveState));
}

/// Keys count as bound from the first one that is bound until the last one is asked back, whatever else
/// is called.
pub proof fn law_bindings_are_remembered(call: SystemCall, bound: bool, key: usize)
    ensures
        bound_after(SystemCall::Hyprland(HyprRequest::Bind(key)), bound),
        !bound_after(SystemCall::Hyprland(HyprRequest::Unbind(13)), bound),
        key != 13 ==> bound_after(SystemCall::Hyprland(HyprRequest::Unbind(key)), bound) == bound,
        call !is Hyprland ==> bound_after(call, bound) == bound,
        bound_after(SystemCall::Hyprland(HyprRequest::LockSubmap), bound) == bound,
        bound_after(SystemCall::Hyprland(HyprRequest::ResetSubmap), bound) == bound,
        unlock_script(true) == Script::UnlockKeys,
        unlock_script(false) == Script::UnlockWorkspace,
{
}

} // verus!
