//! Domain vocabulary. Illegal states are unrepresentable; verdicts are
//! values, never errors; `None` always means "the probe could not establish
//! this fact" and the classifier fails closed on it.
//!
//! Each type has a view of the same shape in which texts are sequences of
//! characters; contracts speak of those views.

use crate::text::{clone_text_option, lemma_views_push, text_option, views};
use vstd::prelude::*;

verus! {

/// A data label for an ecosystem ("rust", "node", ...), never branch logic.
#[derive(Debug, PartialEq, Eq)]
pub struct EcosystemId(pub String);

/// The ruleset row that claimed a candidate.
#[derive(Debug, PartialEq, Eq)]
pub struct DetectorId(pub String);

/// How a candidate's safety is established. Sealed: a variant exists only
/// where computed facts are genuinely needed; everything else is ruleset data.
#[derive(Debug, PartialEq, Eq)]
#[non_exhaustive]
pub enum SafetyClass {
    /// Regenerable build output (target/, node_modules/, .venv/, ...).
    Regenerable { regenerate_hint: Option<String> },
    /// A git linked worktree, gated on dirty/unpushed/locked/detached facts.
    GitWorktree,
    /// A shared package-manager cache: higher blast radius, off by default.
    PackageCache,
}

/// The view of a [`SafetyClass`].
pub enum SafetyView {
    Regenerable { regenerate_hint: Option<Seq<char>> },
    GitWorktree,
    PackageCache,
}

/// One matched reclaim candidate: a directory a detector claimed.
#[derive(Debug, PartialEq, Eq)]
pub struct Candidate {
    pub path: String,
    pub ecosystem: EcosystemId,
    pub detector: DetectorId,
    pub safety_class: SafetyClass,
}

/// The view of a [`Candidate`].
pub struct CandidateView {
    pub path: Seq<char>,
    pub ecosystem: Seq<char>,
    pub detector: Seq<char>,
    pub safety_class: SafetyView,
}

/// Worktree lock state, as read from `.git/worktrees/<n>/locked`.
#[derive(Debug, PartialEq, Eq)]
pub enum LockState {
    Unlocked,
    Locked { note: Option<String> },
}

/// The view of a [`LockState`].
pub enum LockView {
    Unlocked,
    Locked { note: Option<Seq<char>> },
}

/// Where HEAD points. Detached carries the count of commits reachable from
/// HEAD but from no ref: those die with the worktree.
#[derive(Debug, PartialEq, Eq)]
pub enum HeadState {
    Attached { branch: String },
    Detached { unreachable_commits: u64 },
}

/// The view of a [`HeadState`].
pub enum HeadView {
    Attached { branch: Seq<char> },
    Detached { unreachable_commits: u64 },
}

/// Git facts for a worktree candidate.
///
/// `unpushed_commits`: when remotes exist, the commits reachable from HEAD but
/// from no remote ref; when no remote exists, 0, since removing a worktree
/// never touches refs. Detached risk is carried by `head`, not here.
#[derive(Debug, PartialEq, Eq)]
pub struct GitFacts {
    pub dirty_entries: Option<usize>,
    pub unpushed_commits: Option<u64>,
    pub lock: Option<LockState>,
    pub head: Option<HeadState>,
}

/// The view of [`GitFacts`].
pub struct GitView {
    pub dirty_entries: Option<usize>,
    pub unpushed_commits: Option<u64>,
    pub lock: Option<LockView>,
    pub head: Option<HeadView>,
}

/// The gathered facts for one candidate: the classifier's entire input.
#[derive(Debug, PartialEq, Eq)]
pub struct Facts {
    pub candidate: Candidate,
    pub size_bytes: Option<u64>,
    pub idle_days: Option<u64>,
    /// Processes with a working directory or an open file inside the candidate.
    pub live_pids: Option<Vec<u32>>,
    /// Whether a build looks to be writing into the candidate.
    pub active_build: Option<bool>,
    /// `Some(false)`: the candidate lies across a mount.
    pub same_device: Option<bool>,
    /// `Some(true)`: a cloud placeholder lies inside the candidate.
    pub cloud_backed: Option<bool>,
    /// Load-bearing only for [`SafetyClass::GitWorktree`].
    pub git: Option<GitFacts>,
}

/// The view of [`Facts`].
pub struct FactsView {
    pub candidate: CandidateView,
    pub size_bytes: Option<u64>,
    pub idle_days: Option<u64>,
    pub live_pids: Option<Seq<u32>>,
    pub active_build: Option<bool>,
    pub same_device: Option<bool>,
    pub cloud_backed: Option<bool>,
    pub git: Option<GitView>,
}

/// What is decided on a candidate, a domain value and never an error. Refused carries all reasons.
#[derive(Debug, PartialEq, Eq)]
pub enum Disposition {
    Reapable,
    Refused { reasons: Vec<RefusalReason> },
}

/// Why a candidate is refused.
#[derive(Debug, PartialEq, Eq)]
pub enum RefusalReason {
    Dirty { entries: usize },
    UnpushedCommits { count: u64 },
    Locked { note: Option<String> },
    Detached { unreachable_commits: u64 },
    LiveProcess { pids: Vec<u32> },
    ActiveBuild { pids: Vec<u32> },
    CrossDevice,
    CloudBacked,
    Protected { pattern: String },
    CachesExcluded,
    TooRecent { idle_days: u64, min_idle_days: u64 },
    TooSmall { size_bytes: u64, min_size_bytes: u64 },
    /// Fail-closed catch-all: the named fact could not be established.
    Unknown { what: String },
}

/// The view of a [`RefusalReason`].
pub enum ReasonView {
    Dirty { entries: usize },
    UnpushedCommits { count: u64 },
    Locked { note: Option<Seq<char>> },
    Detached { unreachable_commits: u64 },
    LiveProcess { pids: Seq<u32> },
    ActiveBuild { pids: Seq<u32> },
    CrossDevice,
    CloudBacked,
    Protected { pattern: Seq<char> },
    CachesExcluded,
    TooRecent { idle_days: u64, min_idle_days: u64 },
    TooSmall { size_bytes: u64, min_size_bytes: u64 },
    Unknown { what: Seq<char> },
}

impl View for EcosystemId {
    type V = Seq<char>;

    open spec fn view(&self) -> Seq<char> {
        self.0@
    }
}

impl View for DetectorId {
    type V = Seq<char>;

    open spec fn view(&self) -> Seq<char> {
        self.0@
    }
}

impl View for SafetyClass {
    type V = SafetyView;

    open spec fn view(&self) -> SafetyView {
        match *self {
            SafetyClass::Regenerable { regenerate_hint } => SafetyView::Regenerable {
                regenerate_hint: text_option(regenerate_hint),
            },
            SafetyClass::GitWorktree => SafetyView::GitWorktree,
            SafetyClass::PackageCache => SafetyView::PackageCache,
        }
    }
}

impl View for Candidate {
    type V = CandidateView;

    open spec fn view(&self) -> CandidateView {
        CandidateView {
            path: self.path@,
            ecosystem: self.ecosystem@,
            detector: self.detector@,
            safety_class: self.safety_class@,
        }
    }
}

impl View for LockState {
    type V = LockView;

    open spec fn view(&self) -> LockView {
        match *self {
            LockState::Unlocked => LockView::Unlocked,
            LockState::Locked { note } => LockView::Locked { note: text_option(note) },
        }
    }
}

impl View for HeadState {
    type V = HeadView;

    open spec fn view(&self) -> HeadView {
        match *self {
            HeadState::Attached { branch } => HeadView::Attached { branch: branch@ },
            HeadState::Detached { unreachable_commits } => HeadView::Detached {
                unreachable_commits,
            },
        }
    }
}

impl View for GitFacts {
    type V = GitView;

    open spec fn view(&self) -> GitView {
        GitView {
            dirty_entries: self.dirty_entries,
            unpushed_commits: self.unpushed_commits,
            lock: match self.lock {
                Some(lock) => Some(lock@),
                None => None,
            },
            head: match self.head {
                Some(head) => Some(head@),
                None => None,
            },
        }
    }
}

impl View for Facts {
    type V = FactsView;

    open spec fn view(&self) -> FactsView {
        FactsView {
            candidate: self.candidate@,
            size_bytes: self.size_bytes,
            idle_days: self.idle_days,
            live_pids: match self.live_pids {
                Some(pids) => Some(pids@),
                None => None,
            },
            active_build: self.active_build,
            same_device: self.same_device,
            cloud_backed: self.cloud_backed,
            git: match self.git {
                Some(git) => Some(git@),
                None => None,
            },
        }
    }
}

impl View for RefusalReason {
    type V = ReasonView;

    open spec fn view(&self) -> ReasonView {
        match *self {
            RefusalReason::Dirty { entries } => ReasonView::Dirty { entries },
            RefusalReason::UnpushedCommits { count } => ReasonView::UnpushedCommits { count },
            RefusalReason::Locked { note } => ReasonView::Locked { note: text_option(note) },
            RefusalReason::Detached { unreachable_commits } => ReasonView::Detached {
                unreachable_commits,
            },
            RefusalReason::LiveProcess { pids } => ReasonView::LiveProcess { pids: pids@ },
            RefusalReason::ActiveBuild { pids } => ReasonView::ActiveBuild { pids: pids@ },
            RefusalReason::CrossDevice => ReasonView::CrossDevice,
            RefusalReason::CloudBacked => ReasonView::CloudBacked,
            RefusalReason::Protected { pattern } => ReasonView::Protected { pattern: pattern@ },
            RefusalReason::CachesExcluded => ReasonView::CachesExcluded,
            RefusalReason::TooRecent { idle_days, min_idle_days } => ReasonView::TooRecent {
                idle_days,
                min_idle_days,
            },
            RefusalReason::TooSmall { size_bytes, min_size_bytes } => ReasonView::TooSmall {
                size_bytes,
                min_size_bytes,
            },
            RefusalReason::Unknown { what } => ReasonView::Unknown { what: what@ },
        }
    }
}

/// A copy of a list of process ids.
pub fn clone_pids(pids: &Vec<u32>) -> (r: Vec<u32>)
    ensures
        r@ == pids@,
{
    let mut out: Vec<u32> = Vec::new();
    out.extend_from_slice(pids.as_slice());
    assert(out@ =~= pids@);
    out
}

impl Clone for EcosystemId {
    fn clone(&self) -> (r: Self)
        ensures
            r@ == self@,
    {
        EcosystemId(self.0.clone())
    }
}

impl Clone for DetectorId {
    fn clone(&self) -> (r: Self)
        ensures
            r@ == self@,
    {
        DetectorId(self.0.clone())
    }
}

impl Clone for SafetyClass {
    fn clone(&self) -> (r: Self)
        ensures
            r@ == self@,
    {
        match self {
            SafetyClass::Regenerable { regenerate_hint } => SafetyClass::Regenerable {
                regenerate_hint: clone_text_option(regenerate_hint),
            },
            SafetyClass::GitWorktree => SafetyClass::GitWorktree,
            SafetyClass::PackageCache => SafetyClass::PackageCache,
        }
    }
}

impl Clone for Candidate {
    fn clone(&self) -> (r: Self)
        ensures
            r@ == self@,
    {
        Candidate {
            path: self.path.clone(),
            ecosystem: self.ecosystem.clone(),
            detector: self.detector.clone(),
            safety_class: self.safety_class.clone(),
        }
    }
}

impl Clone for LockState {
    fn clone(&self) -> (r: Self)
        ensures
            r@ == self@,
    {
        match self {
            LockState::Unlocked => LockState::Unlocked,
            LockState::Locked { note } => LockState::Locked { note: clone_text_option(note) },
        }
    }
}

impl Clone for HeadState {
    fn clone(&self) -> (r: Self)
        ensures
            r@ == self@,
    {
        match self {
            HeadState::Attached { branch } => HeadState::Attached { branch: branch.clone() },
            HeadState::Detached { unreachable_commits } => HeadState::Detached {
                unreachable_commits: *unreachable_commits,
            },
        }
    }
}

impl Clone for GitFacts {
    fn clone(&self) -> (r: Self)
        ensures
            r@ == self@,
    {
        GitFacts {
            dirty_entries: self.dirty_entries,
            unpushed_commits: self.unpushed_commits,
            lock: match &self.lock {
                Some(lock) => Some(lock.clone()),
                None => None,
            },
            head: match &self.head {
                Some(head) => Some(head.clone()),
                None => None,
            },
        }
    }
}

impl Clone for Facts {
    fn clone(&self) -> (r: Self)
        ensures
            r@ == self@,
    {
        Facts {
            candidate: self.candidate.clone(),
            size_bytes: self.size_bytes,
            idle_days: self.idle_days,
            live_pids: match &self.live_pids {
                Some(pids) => Some(clone_pids(pids)),
                None => None,
            },
            active_build: self.active_build,
            same_device: self.same_device,
            cloud_backed: self.cloud_backed,
            git: match &self.git {
                Some(git) => Some(git.clone()),
                None => None,
            },
        }
    }
}

impl Clone for RefusalReason {
    fn clone(&self) -> (r: Self)
        ensures
            r@ == self@,
    {
        match self {
            RefusalReason::Dirty { entries } => RefusalReason::Dirty { entries: *entries },
            RefusalReason::UnpushedCommits { count } => RefusalReason::UnpushedCommits {
                count: *count,
            },
            RefusalReason::Locked { note } => RefusalReason::Locked {
                note: clone_text_option(note),
            },
            RefusalReason::Detached { unreachable_commits } => RefusalReason::Detached {
                unreachable_commits: *unreachable_commits,
            },
            RefusalReason::LiveProcess { pids } => RefusalReason::LiveProcess {
                pids: clone_pids(pids),
            },
            RefusalReason::ActiveBuild { pids } => RefusalReason::ActiveBuild {
                pids: clone_pids(pids),
            },
            RefusalReason::CrossDevice => RefusalReason::CrossDevice,
            RefusalReason::CloudBacked => RefusalReason::CloudBacked,
            RefusalReason::Protected { pattern } => RefusalReason::Protected {
                pattern: pattern.clone(),
            },
            RefusalReason::CachesExcluded => RefusalReason::CachesExcluded,
            RefusalReason::TooRecent { idle_days, min_idle_days } => RefusalReason::TooRecent {
                idle_days: *idle_days,
                min_idle_days: *min_idle_days,
            },
            RefusalReason::TooSmall { size_bytes, min_size_bytes } => RefusalReason::TooSmall {
                size_bytes: *size_bytes,
                min_size_bytes: *min_size_bytes,
            },
            RefusalReason::Unknown { what } => RefusalReason::Unknown { what: what.clone() },
        }
    }
}

impl Clone for Disposition {
    fn clone(&self) -> (r: Self)
        ensures
            match (*self, r) {
                (Disposition::Reapable, Disposition::Reapable) => true,
                (Disposition::Refused { reasons: a }, Disposition::Refused { reasons: b }) => views(
                    b@,
                ) == views(a@),
                _ => false,
            },
    {
        match self {
            Disposition::Reapable => Disposition::Reapable,
            Disposition::Refused { reasons } => {
                let ghost all = views(reasons@);
                let mut copy: Vec<RefusalReason> = Vec::new();
                for i in 0..reasons.len()
                    invariant
                        all == views(reasons@),
                        views(copy@) == all.take(i as int),
                {
                    broadcast use lemma_views_push;

                    copy.push(reasons[i].clone());
                    assert(views(copy@) =~= all.take(i + 1));
                }
                assert(views(copy@) =~= all);
                Disposition::Refused { reasons: copy }
            },
        }
    }
}

/// What is known of a candidate before any probe has run.
pub open spec fn unprobed_facts(candidate: CandidateView) -> FactsView {
    FactsView {
        candidate,
        size_bytes: None,
        idle_days: None,
        live_pids: None,
        active_build: None,
        same_device: None,
        cloud_backed: None,
        git: None,
    }
}

impl Facts {
    /// A candidate with nothing established yet: the fail-closed starting
    /// point every probe pipeline begins from.
    pub fn unprobed(candidate: Candidate) -> (r: Self)
        ensures
            r@ == unprobed_facts(candidate@),
    {
        Facts {
            candidate,
            size_bytes: None,
            idle_days: None,
            live_pids: None,
            active_build: None,
            same_device: None,
            cloud_backed: None,
            git: None,
        }
    }
}

} // verus!
