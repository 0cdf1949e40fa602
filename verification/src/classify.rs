//! The classifier: pure, total, fail-closed. `Reapable` requires every gate
//! affirmatively clean; any load-bearing `None` refuses `Unknown`. Refusals
//! accumulate all reasons. `Admitted` is the parse-don't-validate proof: only
//! this module can construct it, so `plan()` cannot receive a refused
//! candidate by construction.

use crate::model::{
    clone_pids, unprobed_facts, CandidateView, Disposition, Facts, FactsView, GitFacts, GitView, HeadState, HeadView, LockState, LockView,
    ReasonView, RefusalReason, SafetyClass,
};
use crate::policy::{first_match, idle_floor, Policy, PolicyView};
use crate::text::{clone_text_option, lemma_views_push, views};
use vstd::prelude::*;

verus! {

/// A gate that could not establish the fact it rests on.
pub open spec fn unknown_fact(what: Seq<char>) -> Seq<ReasonView> {
    seq![ReasonView::Unknown { what }]
}

/// A protected path is refused with the pattern that protects it.
pub open spec fn protect_gate(f: FactsView, p: PolicyView) -> Seq<ReasonView> {
    match first_match(p.protect, f.candidate.path) {
        Some(pattern) => seq![ReasonView::Protected { pattern }],
        None => seq![],
    }
}

/// Shared caches are opt-in.
pub open spec fn cache_gate(f: FactsView, p: PolicyView) -> Seq<ReasonView> {
    if f.candidate.safety_class is PackageCache && !p.include_caches {
        seq![ReasonView::CachesExcluded]
    } else {
        seq![]
    }
}

/// No process may live inside the candidate.
pub open spec fn live_gate(f: FactsView) -> Seq<ReasonView> {
    match f.live_pids {
        Some(pids) => if pids.len() == 0 {
            seq![]
        } else {
            seq![ReasonView::LiveProcess { pids }]
        },
        None => unknown_fact("live_pids"@),
    }
}

/// No build may be writing.
pub open spec fn build_gate(f: FactsView) -> Seq<ReasonView> {
    match f.active_build {
        Some(false) => seq![],
        Some(true) => seq![
            ReasonView::ActiveBuild {
                pids: match f.live_pids {
                    Some(pids) => pids,
                    None => seq![],
                },
            },
        ],
        None => unknown_fact("active_build"@),
    }
}

/// The candidate must lie on the device of the scanned root.
pub open spec fn device_gate(f: FactsView) -> Seq<ReasonView> {
    match f.same_device {
        Some(true) => seq![],
        Some(false) => seq![ReasonView::CrossDevice],
        None => unknown_fact("same_device"@),
    }
}

/// No cloud placeholder may lie inside.
pub open spec fn cloud_gate(f: FactsView) -> Seq<ReasonView> {
    match f.cloud_backed {
        Some(false) => seq![],
        Some(true) => seq![ReasonView::CloudBacked],
        None => unknown_fact("cloud_backed"@),
    }
}

/// The candidate must have been idle for the floor of its class.
pub open spec fn idle_gate(f: FactsView, p: PolicyView) -> Seq<ReasonView> {
    let min_idle_days = idle_floor(p.min_idle, f.candidate.safety_class);
    match f.idle_days {
        Some(idle_days) => if idle_days >= min_idle_days {
            seq![]
        } else {
            seq![ReasonView::TooRecent { idle_days, min_idle_days }]
        },
        None => unknown_fact("idle_days"@),
    }
}

/// The candidate must be worth the while.
pub open spec fn size_gate(f: FactsView, p: PolicyView) -> Seq<ReasonView> {
    match f.size_bytes {
        Some(size_bytes) => if size_bytes >= p.min_size_bytes {
            seq![]
        } else {
            seq![ReasonView::TooSmall { size_bytes, min_size_bytes: p.min_size_bytes }]
        },
        None => unknown_fact("size_bytes"@),
    }
}

/// No uncommitted change.
pub open spec fn dirty_gate(g: GitView) -> Seq<ReasonView> {
    match g.dirty_entries {
        Some(entries) => if entries == 0 {
            seq![]
        } else {
            seq![ReasonView::Dirty { entries }]
        },
        None => unknown_fact("git.dirty_entries"@),
    }
}

/// No commit that exists only here.
pub open spec fn unpushed_gate(g: GitView) -> Seq<ReasonView> {
    match g.unpushed_commits {
        Some(count) => if count == 0 {
            seq![]
        } else {
            seq![ReasonView::UnpushedCommits { count }]
        },
        None => unknown_fact("git.unpushed_commits"@),
    }
}

/// Not locked.
pub open spec fn lock_gate(g: GitView) -> Seq<ReasonView> {
    match g.lock {
        Some(LockView::Unlocked) => seq![],
        Some(LockView::Locked { note }) => seq![ReasonView::Locked { note }],
        None => unknown_fact("git.lock"@),
    }
}

/// On a branch: a detached worktree is refused even where no commit would die
/// with it.
pub open spec fn head_gate(g: GitView) -> Seq<ReasonView> {
    match g.head {
        Some(HeadView::Attached { .. }) => seq![],
        Some(HeadView::Detached { unreachable_commits }) => seq![
            ReasonView::Detached { unreachable_commits },
        ],
        None => unknown_fact("git.head"@),
    }
}

/// Git facts are load-bearing for worktrees only.
pub open spec fn git_gate(f: FactsView) -> Seq<ReasonView> {
    if f.candidate.safety_class is GitWorktree {
        match f.git {
            None => unknown_fact("git"@),
            Some(g) => dirty_gate(g) + unpushed_gate(g) + lock_gate(g) + head_gate(g),
        }
    } else {
        seq![]
    }
}

/// Every reason for which `f` is refused under `p`, in gate order.
pub open spec fn refusals(f: FactsView, p: PolicyView) -> Seq<ReasonView> {
    protect_gate(f, p) + cache_gate(f, p) + live_gate(f) + build_gate(f) + device_gate(f)
        + cloud_gate(f) + idle_gate(f, p) + size_gate(f, p) + git_gate(f)
}

/// Every fact that the verdict rests on is established and clean.
pub open spec fn all_clean(f: FactsView, p: PolicyView) -> bool {
    &&& first_match(p.protect, f.candidate.path) is None
    &&& f.candidate.safety_class is PackageCache ==> p.include_caches
    &&& f.live_pids matches Some(pids) && pids.len() == 0
    &&& f.active_build == Some(false)
    &&& f.same_device == Some(true)
    &&& f.cloud_backed == Some(false)
    &&& f.idle_days matches Some(days) && days >= idle_floor(
        p.min_idle,
        f.candidate.safety_class,
    )
    &&& f.size_bytes matches Some(size) && size >= p.min_size_bytes
    &&& f.candidate.safety_class is GitWorktree ==> git_clean(f)
}

/// The worktree is clean, pushed, unlocked and on a branch.
pub open spec fn git_clean(f: FactsView) -> bool {
    &&& f.git matches Some(g)
    &&& g.dirty_entries == Some(0usize)
    &&& g.unpushed_commits == Some(0u64)
    &&& g.lock == Some(LockView::Unlocked)
    &&& g.head matches Some(HeadView::Attached { .. })
}

/// Proof that `facts` passed every gate under some policy. No public
/// constructor: [`admit_facts`] is the only way in.
#[derive(Debug)]
pub struct Admitted {
    facts: Facts,
}

impl Admitted {
    #[verifier::type_invariant]
    spec fn passed(self) -> bool {
        admissible(self.facts@)
    }
}

/// The facts pass every gate under some policy.
pub open spec fn admissible(f: FactsView) -> bool {
    exists|p: PolicyView| #[trigger] all_clean(f, p)
}

impl View for Admitted {
    type V = FactsView;

    closed spec fn view(&self) -> FactsView {
        self.facts@
    }
}

impl Clone for Admitted {
    fn clone(&self) -> (r: Self)
        ensures
            r@ == self@,
    {
        proof {
            use_type_invariant(self);
        }
        Admitted { facts: self.facts.clone() }
    }
}

impl Admitted {
    /// The facts that were admitted: they passed every gate under some policy.
    pub fn facts(&self) -> (r: &Facts)
        ensures
            r@ == self@,
            admissible(r@),
    {
        proof {
            use_type_invariant(self);
        }
        &self.facts
    }
}

fn unknown(what: &str) -> (r: RefusalReason)
    ensures
        r@ == (ReasonView::Unknown { what: what@ }),
{
    RefusalReason::Unknown { what: what.to_owned() }
}

/// What a disposition says, as the reasons for which it refuses, or `None` where it
/// is reapable.
pub open spec fn verdict_reasons(d: Disposition) -> Option<Seq<ReasonView>> {
    match d {
        Disposition::Reapable => None,
        Disposition::Refused { reasons } => Some(views(reasons@)),
    }
}

/// The verdict that the gates give.
pub open spec fn verdict(f: FactsView, p: PolicyView) -> Option<Seq<ReasonView>> {
    if all_clean(f, p) {
        None
    } else {
        Some(refusals(f, p))
    }
}

/// The single verdict function.
pub fn classify(facts: &Facts, policy: &Policy) -> (r: Disposition)
    ensures
        verdict_reasons(r) == verdict(facts@, policy@),
{
    match admit_facts(facts, policy) {
        Ok(_) => Disposition::Reapable,
        Err(reasons) => Disposition::Refused { reasons },
    }
}

/// Runs the full gate battery; returns the proof or every reason it failed.
pub fn admit_facts(facts: &Facts, policy: &Policy) -> (r: Result<Admitted, Vec<RefusalReason>>)
    ensures
        r is Ok <==> all_clean(facts@, policy@),
        r matches Ok(admitted) ==> admitted@ == facts@,
        r matches Err(reasons) ==> views(reasons@) == refusals(facts@, policy@),
{
    let mut reasons: Vec<RefusalReason> = Vec::new();
    assert(views(reasons@) =~= seq![]);
    check_scope(facts, policy, &mut reasons);
    check_activity(facts, &mut reasons);
    check_storage(facts, &mut reasons);
    check_floors(facts, policy, &mut reasons);
    // Git facts are load-bearing only for worktrees; a target/ dir with no
    // git story is fine.
    if matches!(&facts.candidate.safety_class, SafetyClass::GitWorktree) {
        match &facts.git {
            None => refuse(&mut reasons, unknown("git")),
            Some(git) => check_git(git, &mut reasons),
        }
    }
    proof {
        assert(views(reasons@) =~= refusals(facts@, policy@));
        lemma_refused_iff_not_clean(facts@, policy@);
    }
    if reasons.len() == 0 {
        Ok(Admitted { facts: facts.clone() })
    } else {
        Err(reasons)
    }
}

fn refuse(reasons: &mut Vec<RefusalReason>, reason: RefusalReason)
    ensures
        views(final(reasons)@) == views(old(reasons)@) + seq![reason@],
{
    broadcast use lemma_views_push;

    reasons.push(reason);
    assert(views(old(reasons)@).push(reason@) =~= views(old(reasons)@) + seq![reason@]);
}

fn check_scope(facts: &Facts, policy: &Policy, reasons: &mut Vec<RefusalReason>)
    ensures
        views(final(reasons)@) == views(old(reasons)@) + protect_gate(facts@, policy@)
            + cache_gate(facts@, policy@),
{
    // The protect list wins over everything.
    if let Some(pattern) = policy.protected_by(facts.candidate.path.as_str()) {
        refuse(reasons, RefusalReason::Protected { pattern: pattern.to_owned() });
    }
    // Shared caches are opt-in: higher blast radius.
    if matches!(&facts.candidate.safety_class, SafetyClass::PackageCache) && !policy.include_caches {
        refuse(reasons, RefusalReason::CachesExcluded);
    }
}

fn check_activity(facts: &Facts, reasons: &mut Vec<RefusalReason>)
    ensures
        views(final(reasons)@) == views(old(reasons)@) + live_gate(facts@) + build_gate(facts@),
{
    match &facts.live_pids {
        Some(pids) => {
            if pids.len() != 0 {
                refuse(reasons, RefusalReason::LiveProcess { pids: clone_pids(pids) });
            }
        },
        None => refuse(reasons, unknown("live_pids")),
    }
    match facts.active_build {
        Some(active) => {
            if active {
                let pids = match &facts.live_pids {
                    Some(pids) => clone_pids(pids),
                    None => Vec::new(),
                };
                assert(facts@.live_pids is None ==> pids@ =~= seq![]);
                refuse(reasons, RefusalReason::ActiveBuild { pids });
            }
        },
        None => refuse(reasons, unknown("active_build")),
    }
}

fn check_storage(facts: &Facts, reasons: &mut Vec<RefusalReason>)
    ensures
        views(final(reasons)@) == views(old(reasons)@) + device_gate(facts@) + cloud_gate(facts@),
{
    match facts.same_device {
        Some(same) => {
            if !same {
                refuse(reasons, RefusalReason::CrossDevice);
            }
        },
        None => refuse(reasons, unknown("same_device")),
    }
    match facts.cloud_backed {
        Some(cloud) => {
            if cloud {
                refuse(reasons, RefusalReason::CloudBacked);
            }
        },
        None => refuse(reasons, unknown("cloud_backed")),
    }
}

fn check_floors(facts: &Facts, policy: &Policy, reasons: &mut Vec<RefusalReason>)
    ensures
        views(final(reasons)@) == views(old(reasons)@) + idle_gate(facts@, policy@) + size_gate(
            facts@,
            policy@,
        ),
{
    let min_idle_days: u64 = policy.min_idle.floor_days(&facts.candidate.safety_class);
    match facts.idle_days {
        Some(idle_days) => {
            if idle_days < min_idle_days {
                refuse(reasons, RefusalReason::TooRecent { idle_days, min_idle_days });
            }
        },
        None => refuse(reasons, unknown("idle_days")),
    }
    let min_size_bytes: u64 = policy.min_size_bytes;
    match facts.size_bytes {
        Some(size_bytes) => {
            if size_bytes < min_size_bytes {
                refuse(reasons, RefusalReason::TooSmall { size_bytes, min_size_bytes });
            }
        },
        None => refuse(reasons, unknown("size_bytes")),
    }
}

fn check_git(git: &GitFacts, reasons: &mut Vec<RefusalReason>)
    ensures
        views(final(reasons)@) == views(old(reasons)@) + (dirty_gate(git@) + unpushed_gate(git@)
            + lock_gate(git@) + head_gate(git@)),
{
    check_work(git, reasons);
    check_refs(git, reasons);
}

fn check_work(git: &GitFacts, reasons: &mut Vec<RefusalReason>)
    ensures
        views(final(reasons)@) == views(old(reasons)@) + dirty_gate(git@) + unpushed_gate(git@),
{
    match git.dirty_entries {
        Some(entries) => {
            if entries != 0 {
                refuse(reasons, RefusalReason::Dirty { entries });
            }
        },
        None => refuse(reasons, unknown("git.dirty_entries")),
    }
    match git.unpushed_commits {
        Some(count) => {
            if count != 0 {
                refuse(reasons, RefusalReason::UnpushedCommits { count });
            }
        },
        None => refuse(reasons, unknown("git.unpushed_commits")),
    }
}

fn check_refs(git: &GitFacts, reasons: &mut Vec<RefusalReason>)
    ensures
        views(final(reasons)@) == views(old(reasons)@) + lock_gate(git@) + head_gate(git@),
{
    match &git.lock {
        Some(LockState::Unlocked) => {},
        Some(LockState::Locked { note }) => {
            refuse(reasons, RefusalReason::Locked { note: clone_text_option(note) });
        },
        None => refuse(reasons, unknown("git.lock")),
    }
    match &git.head {
        Some(HeadState::Attached { .. }) => {},
        Some(HeadState::Detached { unreachable_commits }) => {
            refuse(
                reasons,
                RefusalReason::Detached { unreachable_commits: *unreachable_commits },
            );
        },
        None => refuse(reasons, unknown("git.head")),
    }
}

/// `Reapable` requires every gate affirmatively clean, and nothing more: there
/// is no reason to refuse exactly where every fact is established and clean.
pub proof fn lemma_refused_iff_not_clean(f: FactsView, p: PolicyView)
    ensures
        refusals(f, p).len() == 0 <==> all_clean(f, p),
{
}

/// `what` names a fact that the verdict on `f` rests on and that no probe
/// established.
pub open spec fn missing(f: FactsView, what: Seq<char>) -> bool {
    ||| what == "live_pids"@ && f.live_pids is None
    ||| what == "active_build"@ && f.active_build is None
    ||| what == "same_device"@ && f.same_device is None
    ||| what == "cloud_backed"@ && f.cloud_backed is None
    ||| what == "idle_days"@ && f.idle_days is None
    ||| what == "size_bytes"@ && f.size_bytes is None
    ||| f.candidate.safety_class is GitWorktree && missing_git(f, what)
}

/// The facts that only the verdict on a worktree rests on.
pub open spec fn missing_git(f: FactsView, what: Seq<char>) -> bool {
    match f.git {
        None => what == "git"@,
        Some(g) => {
            ||| what == "git.dirty_entries"@ && g.dirty_entries is None
            ||| what == "git.unpushed_commits"@ && g.unpushed_commits is None
            ||| what == "git.lock"@ && g.lock is None
            ||| what == "git.head"@ && g.head is None
        },
    }
}

/// `r` is the reason of a gate that `f` violates under `p`.
pub open spec fn violated(f: FactsView, p: PolicyView, r: ReasonView) -> bool {
    let class = f.candidate.safety_class;
    let git = if class is GitWorktree {
        f.git
    } else {
        None
    };
    match r {
        ReasonView::Dirty { entries } => git matches Some(g) && g.dirty_entries == Some(entries)
            && entries > 0,
        ReasonView::UnpushedCommits { count } => git matches Some(g) && g.unpushed_commits == Some(
            count,
        ) && count > 0,
        ReasonView::Locked { note } => git matches Some(g) && g.lock == Some(
            LockView::Locked { note },
        ),
        ReasonView::Detached { unreachable_commits } => git matches Some(g) && g.head == Some(
            HeadView::Detached { unreachable_commits },
        ),
        ReasonView::LiveProcess { pids } => f.live_pids == Some(pids) && pids.len() > 0,
        ReasonView::ActiveBuild { pids } => f.active_build == Some(true) && pids == (
        match f.live_pids {
            Some(live) => live,
            None => Seq::empty(),
        }),
        ReasonView::CrossDevice => f.same_device == Some(false),
        ReasonView::CloudBacked => f.cloud_backed == Some(true),
        ReasonView::Protected { pattern } => first_match(p.protect, f.candidate.path) == Some(
            pattern,
        ),
        ReasonView::CachesExcluded => class is PackageCache && !p.include_caches,
        ReasonView::TooRecent { idle_days, min_idle_days } => f.idle_days == Some(idle_days)
            && min_idle_days == idle_floor(p.min_idle, class) && idle_days < min_idle_days,
        ReasonView::TooSmall { size_bytes, min_size_bytes } => f.size_bytes == Some(size_bytes)
            && min_size_bytes == p.min_size_bytes && size_bytes < min_size_bytes,
        ReasonView::Unknown { what } => missing(f, what),
    }
}

proof fn lemma_either_contains<A>(a: Seq<A>, b: Seq<A>, x: A)
    ensures
        (a + b).contains(x) <==> a.contains(x) || b.contains(x),
{
    if a.contains(x) {
        let i = choose|i: int| 0 <= i < a.len() && a[i] == x;
        assert((a + b)[i] == x);
    }
    if b.contains(x) {
        let i = choose|i: int| 0 <= i < b.len() && b[i] == x;
        assert((a + b)[a.len() + i] == x);
    }
}

proof fn lemma_one_of_four<A>(a: Seq<A>, b: Seq<A>, c: Seq<A>, d: Seq<A>, x: A)
    ensures
        (a + b + c + d).contains(x) <==> a.contains(x) || b.contains(x) || c.contains(x)
            || d.contains(x),
{
    lemma_either_contains(a, b, x);
    lemma_either_contains(a + b, c, x);
    lemma_either_contains(a + b + c, d, x);
}

/// The reasons of a gate that gives the reason `x` or none.
proof fn lemma_at_most_one<A>(s: Seq<A>, x: A, r: A)
    requires
        s.len() == 0 || s == seq![x],
    ensures
        s.contains(r) <==> s.len() > 0 && x == r,
{
    if s.len() > 0 && x == r {
        assert(s[0] == r);
    }
}

proof fn lemma_scope_reasons(f: FactsView, p: PolicyView, r: ReasonView)
    ensures
        protect_gate(f, p).contains(r) <==> r is Protected && violated(f, p, r),
        cache_gate(f, p).contains(r) <==> r is CachesExcluded && violated(f, p, r),
{
    lemma_at_most_one(protect_gate(f, p), protect_gate(f, p)[0], r);
    lemma_at_most_one(cache_gate(f, p), cache_gate(f, p)[0], r);
}

proof fn lemma_activity_reasons(f: FactsView, p: PolicyView, r: ReasonView)
    ensures
        live_gate(f).contains(r) <==> (r is LiveProcess && violated(f, p, r)) || (
        f.live_pids is None && r == (ReasonView::Unknown { what: "live_pids"@ })),
        build_gate(f).contains(r) <==> (r is ActiveBuild && violated(f, p, r)) || (
        f.active_build is None && r == (ReasonView::Unknown { what: "active_build"@ })),
{
    lemma_at_most_one(live_gate(f), live_gate(f)[0], r);
    lemma_at_most_one(build_gate(f), build_gate(f)[0], r);
}

proof fn lemma_storage_reasons(f: FactsView, p: PolicyView, r: ReasonView)
    ensures
        device_gate(f).contains(r) <==> (r is CrossDevice && violated(f, p, r)) || (
        f.same_device is None && r == (ReasonView::Unknown { what: "same_device"@ })),
        cloud_gate(f).contains(r) <==> (r is CloudBacked && violated(f, p, r)) || (
        f.cloud_backed is None && r == (ReasonView::Unknown { what: "cloud_backed"@ })),
{
    lemma_at_most_one(device_gate(f), device_gate(f)[0], r);
    lemma_at_most_one(cloud_gate(f), cloud_gate(f)[0], r);
}

proof fn lemma_floor_reasons(f: FactsView, p: PolicyView, r: ReasonView)
    ensures
        idle_gate(f, p).contains(r) <==> (r is TooRecent && violated(f, p, r)) || (
        f.idle_days is None && r == (ReasonView::Unknown { what: "idle_days"@ })),
        size_gate(f, p).contains(r) <==> (r is TooSmall && violated(f, p, r)) || (
        f.size_bytes is None && r == (ReasonView::Unknown { what: "size_bytes"@ })),
{
    lemma_at_most_one(idle_gate(f, p), idle_gate(f, p)[0], r);
    lemma_at_most_one(size_gate(f, p), size_gate(f, p)[0], r);
}

proof fn lemma_git_reasons(f: FactsView, p: PolicyView, r: ReasonView)
    ensures
        git_gate(f).contains(r) <==> f.candidate.safety_class is GitWorktree && ((r matches
            ReasonView::Unknown { what } && missing_git(f, what)) || ((r is Dirty
            || r is UnpushedCommits || r is Locked || r is Detached) && violated(f, p, r))),
{
    if f.candidate.safety_class is GitWorktree {
        match f.git {
            None => lemma_at_most_one(git_gate(f), git_gate(f)[0], r),
            Some(g) => {
                lemma_one_of_four(dirty_gate(g), unpushed_gate(g), lock_gate(g), head_gate(g), r);
                lemma_at_most_one(dirty_gate(g), dirty_gate(g)[0], r);
                lemma_at_most_one(unpushed_gate(g), unpushed_gate(g)[0], r);
                lemma_at_most_one(lock_gate(g), lock_gate(g)[0], r);
                lemma_at_most_one(head_gate(g), head_gate(g)[0], r);
            },
        }
    }
}

/// Every violated gate gives its own reason, no reason is masked by an earlier
/// gate, and no reason is given for a gate that is clean.
pub proof fn refusals_are_the_violations(f: FactsView, p: PolicyView, r: ReasonView)
    ensures
        refusals(f, p).contains(r) <==> violated(f, p, r),
{
    let four = protect_gate(f, p) + cache_gate(f, p) + live_gate(f) + build_gate(f);
    let seven = four + device_gate(f) + cloud_gate(f) + idle_gate(f, p);
    lemma_one_of_four(protect_gate(f, p), cache_gate(f, p), live_gate(f), build_gate(f), r);
    lemma_one_of_four(four, device_gate(f), cloud_gate(f), idle_gate(f, p), r);
    lemma_either_contains(seven, size_gate(f, p), r);
    lemma_either_contains(seven + size_gate(f, p), git_gate(f), r);
    lemma_scope_reasons(f, p, r);
    lemma_activity_reasons(f, p, r);
    lemma_storage_reasons(f, p, r);
    lemma_floor_reasons(f, p, r);
    lemma_git_reasons(f, p, r);
}

/// Knock out any single load-bearing fact and `Reapable` is unreachable, with
/// an `Unknown` that names what was missing.
pub proof fn any_missing_fact_refuses_unknown(f: FactsView, p: PolicyView, what: Seq<char>)
    requires
        missing(f, what),
    ensures
        !all_clean(f, p),
        verdict(f, p) matches Some(reasons) && reasons.contains(ReasonView::Unknown { what }),
{
    refusals_are_the_violations(f, p, ReasonView::Unknown { what });
    lemma_refused_iff_not_clean(f, p);
}

/// The protect list wins over everything: a protected candidate is refused
/// whatever its facts are, and the pattern that protects it comes first.
pub proof fn protect_list_wins(f: FactsView, p: PolicyView, pattern: Seq<char>)
    requires
        first_match(p.protect, f.candidate.path) == Some(pattern),
    ensures
        verdict(f, p) matches Some(reasons) && reasons.len() > 0 && reasons[0]
            == (ReasonView::Protected { pattern }),
{
}

/// The idle floor gates exactly at its boundary: a candidate that is clean
/// stays so at any number of idle days from the floor up, and below it is
/// refused for being too recent and for nothing else.
pub proof fn idle_floor_gates_exactly(f: FactsView, p: PolicyView, days: u64)
    requires
        all_clean(f, p),
    ensures
        ({
            let floor = idle_floor(p.min_idle, f.candidate.safety_class);
            verdict(FactsView { idle_days: Some(days), ..f }, p) == if days >= floor {
                None
            } else {
                Some(seq![ReasonView::TooRecent { idle_days: days, min_idle_days: floor }])
            }
        }),
{
    let g = FactsView { idle_days: Some(days), ..f };
    let floor = idle_floor(p.min_idle, f.candidate.safety_class);
    lemma_refused_iff_not_clean(g, p);
    if days < floor {
        assert(refusals(g, p) =~= seq![
            ReasonView::TooRecent { idle_days: days, min_idle_days: floor },
        ]);
    }
}

/// An undercount is safe: a candidate that is clean at some size is clean at any
/// larger one, so that bytes left uncounted can only make it less attractive.
pub proof fn undercount_is_safe(f: FactsView, p: PolicyView, counted: u64, actual: u64)
    requires
        counted <= actual,
        all_clean(FactsView { size_bytes: Some(counted), ..f }, p),
    ensures
        all_clean(FactsView { size_bytes: Some(actual), ..f }, p),
{
}

/// A candidate of which nothing is established is refused under every policy.
pub proof fn unprobed_is_refused(candidate: CandidateView, p: PolicyView)
    ensures
        verdict(unprobed_facts(candidate), p) is Some,
{
}

/// Every admitted worktree is on a branch, which survives it.
pub proof fn admitted_worktree_has_a_branch(f: FactsView)
    requires
        admissible(f),
        f.candidate.safety_class is GitWorktree,
    ensures
        f.git matches Some(g) && g.head matches Some(HeadView::Attached { .. }),
{
}

} // verus!
