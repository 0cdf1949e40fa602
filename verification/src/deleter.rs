//! The deleter: permanent, engineered for safety, then speed. Per step:
//! identity re-bind, live-process re-sweep, write-ahead manifest (durable before
//! any mutation), rename to a tomb, drain of the tomb. Refusals leave the tree
//! in place; a drain that fails after the rename is an interruption.
//!
//! A [`StepRun`] decides what comes next; its caller performs each action and
//! hands back what came of it.

use crate::manifest::{ManifestEvent, ManifestView};
use crate::paths::{join, parent, path_join, path_parent};
use crate::plan::{
    parsed_step, sealed, step_json, BoundStep, BoundView, Identity, ReapStep, StepView,
};
use crate::text::{
    bracket_numbers, bracketed, clone_text_option, decimal, decimal_text, text_option,
};
use vstd::prelude::*;
use vstd::string::*;

verus! {

/// What became of a step.
#[derive(Debug, PartialEq, Eq)]
pub enum StepOutcome {
    Reaped { path: String, freed_bytes: u64, recover: Option<String> },
    /// Left in place, with an honest reason.
    Refused { path: String, why: String },
    /// Renamed to its tomb, which is not drained yet: the tree is no longer in
    /// place, and the next run resumes the drain.
    Interrupted { path: String, tomb: String, why: String },
}

/// The view of a [`StepOutcome`].
pub enum OutcomeView {
    Reaped { path: Seq<char>, freed_bytes: u64, recover: Option<Seq<char>> },
    Refused { path: Seq<char>, why: Seq<char> },
    Interrupted { path: Seq<char>, tomb: Seq<char>, why: Seq<char> },
}

impl View for StepOutcome {
    type V = OutcomeView;

    open spec fn view(&self) -> OutcomeView {
        match *self {
            StepOutcome::Reaped { path, freed_bytes, recover } => OutcomeView::Reaped {
                path: path@,
                freed_bytes,
                recover: text_option(recover),
            },
            StepOutcome::Refused { path, why } => OutcomeView::Refused { path: path@, why: why@ },
            StepOutcome::Interrupted { path, tomb, why } => OutcomeView::Interrupted {
                path: path@,
                tomb: tomb@,
                why: why@,
            },
        }
    }
}

impl Clone for StepOutcome {
    fn clone(&self) -> (r: Self)
        ensures
            r@ == self@,
    {
        match self {
            StepOutcome::Reaped { path, freed_bytes, recover } => StepOutcome::Reaped {
                path: path.clone(),
                freed_bytes: *freed_bytes,
                recover: clone_text_option(recover),
            },
            StepOutcome::Refused { path, why } => StepOutcome::Refused {
                path: path.clone(),
                why: why.clone(),
            },
            StepOutcome::Interrupted { path, tomb, why } => StepOutcome::Interrupted {
                path: path.clone(),
                tomb: tomb.clone(),
                why: why.clone(),
            },
        }
    }
}

/// What a step waits for.
#[derive(Debug, Clone, Copy, PartialEq, Eq, Structural)]
pub enum Stage {
    /// The identity of the directory now.
    Identity,
    /// The live processes inside the directory now.
    Live,
    /// The admin directory of the worktree.
    Admin,
    /// The write-ahead record.
    WriteAhead,
    /// The rename to the tomb.
    Rename,
    /// The drain of the tomb.
    Drain,
    /// Nothing more.
    Done,
}

/// What came of an action.
#[derive(Debug)]
pub enum StepEvent {
    /// The identity that the path has now, where it has one.
    Identity(Option<Identity>),
    /// The processes inside the path now, where they could be established.
    Live(Option<Vec<u32>>),
    /// The admin directory of the worktree, where it was found.
    Admin(Option<String>),
    /// The write-ahead record is durable, or why it is not.
    Logged(Option<String>),
    /// The path is renamed to the tomb, or why it is not: the system's error
    /// number, where there is one, and the error's text.
    Renamed(Option<(Option<i32>, String)>),
    /// The tomb is drained, or why it is not.
    Drained(Option<String>),
}

/// The view of a [`StepEvent`].
pub enum EventView {
    Identity(Option<Identity>),
    Live(Option<Seq<u32>>),
    Admin(Option<Seq<char>>),
    Logged(Option<Seq<char>>),
    Renamed(Option<(Option<i32>, Seq<char>)>),
    Drained(Option<Seq<char>>),
}

impl View for StepEvent {
    type V = EventView;

    open spec fn view(&self) -> EventView {
        match *self {
            StepEvent::Identity(id) => EventView::Identity(id),
            StepEvent::Live(pids) => EventView::Live(
                match pids {
                    Some(pids) => Some(pids@),
                    None => None,
                },
            ),
            StepEvent::Admin(admin) => EventView::Admin(text_option(admin)),
            StepEvent::Logged(error) => EventView::Logged(text_option(error)),
            StepEvent::Renamed(error) => EventView::Renamed(
                match error {
                    Some((os, text)) => Some((os, text@)),
                    None => None,
                },
            ),
            StepEvent::Drained(error) => EventView::Drained(text_option(error)),
        }
    }
}

/// What to do next.
#[derive(Debug)]
pub enum StepAction {
    /// Read the identity of the path.
    ReadIdentity { path: String },
    /// Sweep for processes inside the path.
    SweepLive { path: String },
    /// Find the admin directory of the worktree, before the rename hides it.
    FindAdmin { path: String },
    /// Append the record and make it durable.
    WriteAhead { record: ManifestEvent },
    /// Rename the path to the tomb.
    Rename { path: String, tomb: String },
    /// Drain the tomb.
    Drain { tomb: String },
    /// Append the record, remove the admin directory if there is one, and report
    /// the outcome.
    Finish { record: ManifestEvent, admin: Option<String>, outcome: StepOutcome },
}

/// The view of a [`StepAction`].
pub enum ActionView {
    ReadIdentity { path: Seq<char> },
    SweepLive { path: Seq<char> },
    FindAdmin { path: Seq<char> },
    WriteAhead { record: ManifestView },
    Rename { path: Seq<char>, tomb: Seq<char> },
    Drain { tomb: Seq<char> },
    Finish { record: ManifestView, admin: Option<Seq<char>>, outcome: OutcomeView },
}

impl View for StepAction {
    type V = ActionView;

    open spec fn view(&self) -> ActionView {
        match *self {
            StepAction::ReadIdentity { path } => ActionView::ReadIdentity { path: path@ },
            StepAction::SweepLive { path } => ActionView::SweepLive { path: path@ },
            StepAction::FindAdmin { path } => ActionView::FindAdmin { path: path@ },
            StepAction::WriteAhead { record } => ActionView::WriteAhead { record: record@ },
            StepAction::Rename { path, tomb } => ActionView::Rename { path: path@, tomb: tomb@ },
            StepAction::Drain { tomb } => ActionView::Drain { tomb: tomb@ },
            StepAction::Finish { record, admin, outcome } => ActionView::Finish {
                record: record@,
                admin: text_option(admin),
                outcome: outcome@,
            },
        }
    }
}

/// One step of a plan, being executed.
#[derive(Debug)]
pub struct StepRun {
    pub step: ReapStep,
    /// The identity that was planned against.
    pub identity: Option<Identity>,
    pub size_bytes: u64,
    pub recover: Option<String>,
    /// Whether there is a live-process sweep here.
    pub sweeps: bool,
    /// The name of the tomb.
    pub tomb_name: String,
    /// The tomb, once the step has one.
    pub tomb: String,
    /// The admin directory of the worktree, once it is found.
    pub admin: Option<String>,
    pub stage: Stage,
}

/// The view of a [`StepRun`].
pub struct RunView {
    pub step: StepView,
    pub identity: Option<Identity>,
    pub size_bytes: u64,
    pub recover: Option<Seq<char>>,
    pub sweeps: bool,
    pub tomb_name: Seq<char>,
    pub tomb: Seq<char>,
    pub admin: Option<Seq<char>>,
    pub stage: Stage,
}

impl View for StepRun {
    type V = RunView;

    open spec fn view(&self) -> RunView {
        RunView {
            step: self.step@,
            identity: self.identity,
            size_bytes: self.size_bytes,
            recover: text_option(self.recover),
            sweeps: self.sweeps,
            tomb_name: self.tomb_name@,
            tomb: self.tomb@,
            admin: text_option(self.admin),
            stage: self.stage,
        }
    }
}

/// The name of the tomb of a process's step.
pub open spec fn tomb_name_of(pid: u32, index: nat) -> Seq<char> {
    ".reaper-tomb-"@ + decimal_text(pid as nat) + "-"@ + decimal_text(index)
}

/// A step of a sealed plan, about to be executed.
pub open spec fn unstarted(
    bound: BoundView,
    step: StepView,
    sweeps: bool,
    pid: u32,
    index: nat,
) -> RunView {
    RunView {
        step,
        identity: bound.identity,
        size_bytes: bound.size_bytes,
        recover: bound.recover,
        sweeps,
        tomb_name: tomb_name_of(pid, index),
        tomb: seq![],
        admin: None,
        stage: Stage::Done,
    }
}

/// A step that stops here: the path stays where it is.
pub open spec fn refused(run: RunView, path: Seq<char>, why: Seq<char>) -> (RunView, ActionView) {
    (
        RunView { stage: Stage::Done, ..run },
        ActionView::Finish {
            record: ManifestView::Refused { path, why },
            admin: None,
            outcome: OutcomeView::Refused { path, why },
        },
    )
}

/// A step whose tree was renamed to its tomb, which could not be drained.
pub open spec fn interrupted(run: RunView, why: Seq<char>) -> (RunView, ActionView) {
    let path = run.step.path();
    let tomb = run.tomb;
    (
        RunView { stage: Stage::Done, ..run },
        ActionView::Finish {
            record: ManifestView::Interrupted { path, tomb, why },
            admin: None,
            outcome: OutcomeView::Interrupted { path, tomb, why },
        },
    )
}

/// The first thing to do: re-bind the identity that was planned against; where
/// there was none, go by the sweep; where there is no sweep either, refuse.
pub open spec fn begin(run: RunView) -> (RunView, ActionView) {
    if run.identity is Some {
        (
            RunView { stage: Stage::Identity, ..run },
            ActionView::ReadIdentity { path: run.step.path() },
        )
    } else if run.sweeps {
        (RunView { stage: Stage::Live, ..run }, ActionView::SweepLive { path: run.step.path() })
    } else {
        refused(
            run,
            run.step.path(),
            "identity not established at planning and no live-process sweep — re-scan"@,
        )
    }
}

/// After the identity holds: sweep, where there is a sweep.
pub open spec fn after_bind(run: RunView) -> (RunView, ActionView) {
    if run.sweeps {
        (RunView { stage: Stage::Live, ..run }, ActionView::SweepLive { path: run.step.path() })
    } else {
        after_sweep(run)
    }
}

/// After the sweep found nobody: find the admin directory of a worktree.
pub open spec fn after_sweep(run: RunView) -> (RunView, ActionView) {
    if run.step is RemoveWorktree {
        (RunView { stage: Stage::Admin, ..run }, ActionView::FindAdmin { path: run.step.path() })
    } else {
        entomb(run)
    }
}

/// Choose the tomb, a sibling of the path, and put it on record.
pub open spec fn entomb(run: RunView) -> (RunView, ActionView) {
    let path = run.step.path();
    match path_parent(path) {
        None => refused(run, path, "refusing to reap a filesystem root"@),
        Some(up) => {
            let tomb = path_join(up, run.tomb_name);
            (
                RunView { stage: Stage::WriteAhead, tomb, ..run },
                ActionView::WriteAhead {
                    record: ManifestView::Tombed {
                        path,
                        tomb,
                        recover: run.recover,
                        size_bytes: run.size_bytes,
                    },
                },
            )
        },
    }
}

/// Why a rename failed. Access denied and sharing violation mean open handles:
/// the rename is the authoritative lock probe, and the tree is untouched.
pub open spec fn rename_refusal(os: Option<i32>, text: Seq<char>) -> Seq<char> {
    if os == Some(5i32) || os == Some(32i32) {
        "live process holds files (rename lock probe)"@
    } else {
        "tomb rename failed: "@ + text
    }
}

/// The event is the answer that a step at this stage waits for.
pub open spec fn answers(stage: Stage, event: EventView) -> bool {
    match event {
        EventView::Identity(_) => stage is Identity,
        EventView::Live(_) => stage is Live,
        EventView::Admin(_) => stage is Admin,
        EventView::Logged(_) => stage is WriteAhead,
        EventView::Renamed(_) => stage is Rename,
        EventView::Drained(_) => stage is Drain,
    }
}

/// What comes next, given what came of the last action. Any doubt leaves the
/// tree in place.
pub open spec fn step_next(run: RunView, event: EventView) -> (RunView, ActionView) {
    let path = run.step.path();
    match event {
        EventView::Identity(now) => match now {
            None => refused(run, path, "gone or unreadable at execution time"@),
            Some(id) => if Some(id) == run.identity {
                after_bind(run)
            } else {
                refused(
                    run,
                    path,
                    "identity drifted since planning (dev/ino/mtime mismatch) — re-scan"@,
                )
            },
        },
        EventView::Live(pids) => match pids {
            None => refused(run, path, "live-process fact unestablishable at execution"@),
            Some(pids) => if pids.len() == 0 {
                after_sweep(run)
            } else {
                refused(run, path, "live process(es) "@ + bracketed(pids))
            },
        },
        EventView::Admin(admin) => entomb(RunView { admin, ..run }),
        EventView::Logged(error) => match error {
            Some(e) => refused(run, path, "write-ahead manifest unwritable: "@ + e),
            None => (
                RunView { stage: Stage::Rename, ..run },
                ActionView::Rename { path, tomb: run.tomb },
            ),
        },
        EventView::Renamed(error) => match error {
            Some((os, text)) => refused(run, path, rename_refusal(os, text)),
            None => (
                RunView { stage: Stage::Drain, ..run },
                ActionView::Drain { tomb: run.tomb },
            ),
        },
        EventView::Drained(error) => match error {
            // The tomb persists on disk and in the manifest: resumable.
            Some(e) => interrupted(run, "drain interrupted: "@ + e + " (resumes next run)"@),
            None => (
                RunView { stage: Stage::Done, ..run },
                ActionView::Finish {
                    record: ManifestView::Drained { tomb: run.tomb, freed_bytes: run.size_bytes },
                    admin: run.admin,
                    outcome: OutcomeView::Reaped {
                        path,
                        freed_bytes: run.size_bytes,
                        recover: run.recover,
                    },
                },
            ),
        },
    }
}

impl StepRun {
    /// A step about to be executed: the `index`th step of a plan that the process
    /// `pid` executes, with or without a live-process sweep.
    pub fn new(
        step: ReapStep,
        identity: Option<Identity>,
        size_bytes: u64,
        recover: Option<String>,
        sweeps: bool,
        pid: u32,
        index: usize,
    ) -> (r: (StepRun, StepAction))
        ensures
            (r.0@, r.1@) == begin(
                RunView {
                    step: step@,
                    identity,
                    size_bytes,
                    recover: text_option(recover),
                    sweeps,
                    tomb_name: tomb_name_of(pid, index as nat),
                    tomb: seq![],
                    admin: None,
                    stage: Stage::Done,
                },
            ),
    {
        let mut tomb_name = ".reaper-tomb-".to_owned();
        tomb_name.append(decimal(pid as u64).as_str());
        tomb_name.append("-");
        tomb_name.append(decimal(index as u64).as_str());
        let path = step.path().clone();
        let tomb = String::new();
        assert(tomb@ =~= seq![]);
        let mut run = StepRun {
            step,
            identity,
            size_bytes,
            recover,
            sweeps,
            tomb_name,
            tomb,
            admin: None,
            stage: Stage::Done,
        };
        if run.identity.is_some() {
            run.stage = Stage::Identity;
            (run, StepAction::ReadIdentity { path })
        } else if sweeps {
            run.stage = Stage::Live;
            (run, StepAction::SweepLive { path })
        } else {
            run.refuse(
                path,
                "identity not established at planning and no live-process sweep — re-scan".to_owned(),
            )
        }
    }

    /// The `index`th step of a sealed plan that the process `pid` executes; `None`
    /// where its text describes no step. A step that was sealed is the step that
    /// is executed.
    pub fn of_bound(bound: &BoundStep, sweeps: bool, pid: u32, index: usize) -> (r: Option<
        (StepRun, StepAction),
    >)
        ensures
            r is Some <==> parsed_step(bound@.step_json) is Some,
            r matches Some(run) ==> (run.0@, run.1@) == begin(
                unstarted(bound@, parsed_step(bound@.step_json)->0, sweeps, pid, index as nat),
            ),
            forall|step: StepView|
                bound@.step_json == #[trigger] step_json(step) ==> (r matches Some(run)
                    && run.0@.step == step),
    {
        let step = match bound.try_step() {
            Some(step) => step,
            None => return None,
        };
        let recover = clone_text_option(&bound.recover);
        let run = StepRun::new(
            step,
            bound.identity,
            bound.size_bytes,
            recover,
            sweeps,
            pid,
            index,
        );
        Some(run)
    }

    fn refuse(self, path: String, why: String) -> (r: (StepRun, StepAction))
        ensures
            (r.0@, r.1@) == refused(self@, path@, why@),
    {
        let mut run = self;
        run.stage = Stage::Done;
        let record = ManifestEvent::Refused { path: path.clone(), why: why.clone() };
        let outcome = StepOutcome::Refused { path, why };
        (run, StepAction::Finish { record, admin: None, outcome })
    }

    fn interrupt(self, why: String) -> (r: (StepRun, StepAction))
        ensures
            (r.0@, r.1@) == interrupted(self@, why@),
    {
        let mut run = self;
        run.stage = Stage::Done;
        let path = run.step.path().clone();
        let tomb = run.tomb.clone();
        let record = ManifestEvent::Interrupted {
            path: path.clone(),
            tomb: tomb.clone(),
            why: why.clone(),
        };
        let outcome = StepOutcome::Interrupted { path, tomb, why };
        (run, StepAction::Finish { record, admin: None, outcome })
    }

    fn go_on_after_bind(self) -> (r: (StepRun, StepAction))
        ensures
            (r.0@, r.1@) == after_bind(self@),
    {
        if self.sweeps {
            let path = self.step.path().clone();
            let mut run = self;
            run.stage = Stage::Live;
            (run, StepAction::SweepLive { path })
        } else {
            self.go_on_after_sweep()
        }
    }

    fn go_on_after_sweep(self) -> (r: (StepRun, StepAction))
        ensures
            (r.0@, r.1@) == after_sweep(self@),
    {
        if matches!(&self.step, ReapStep::RemoveWorktree { .. }) {
            let path = self.step.path().clone();
            let mut run = self;
            run.stage = Stage::Admin;
            (run, StepAction::FindAdmin { path })
        } else {
            self.choose_tomb()
        }
    }

    fn choose_tomb(self) -> (r: (StepRun, StepAction))
        ensures
            (r.0@, r.1@) == entomb(self@),
    {
        let path = self.step.path().clone();
        match parent(path.as_str()) {
            None => self.refuse(path, "refusing to reap a filesystem root".to_owned()),
            Some(up) => {
                let tomb = join(up.as_str(), self.tomb_name.as_str());
                let record = ManifestEvent::Tombed {
                    path,
                    tomb: tomb.clone(),
                    recover: clone_text_option(&self.recover),
                    size_bytes: self.size_bytes,
                };
                let mut run = self;
                run.tomb = tomb;
                run.stage = Stage::WriteAhead;
                (run, StepAction::WriteAhead { record })
            },
        }
    }

    fn finish(self) -> (r: (StepRun, StepAction))
        requires
            self@.stage is Drain,
        ensures
            (r.0@, r.1@) == step_next(self@, EventView::Drained(None)),
    {
        let mut run = self;
        run.stage = Stage::Done;
        let record = ManifestEvent::Drained {
            tomb: run.tomb.clone(),
            freed_bytes: run.size_bytes,
        };
        let outcome = StepOutcome::Reaped {
            path: run.step.path().clone(),
            freed_bytes: run.size_bytes,
            recover: clone_text_option(&run.recover),
        };
        let admin = clone_text_option(&run.admin);
        (run, StepAction::Finish { record, admin, outcome })
    }

    /// Decides what comes next, given what came of the last action.
    pub fn advance(self, event: StepEvent) -> (r: (StepRun, StepAction))
        requires
            answers(self@.stage, event@),
        ensures
            (r.0@, r.1@) == step_next(self@, event@),
    {
        let path = self.step.path().clone();
        match event {
            StepEvent::Identity(now) => match now {
                None => self.refuse(path, "gone or unreadable at execution time".to_owned()),
                Some(id) => {
                    let same = match self.identity {
                        Some(planned) => planned == id,
                        None => false,
                    };
                    if same {
                        self.go_on_after_bind()
                    } else {
                        self.refuse(
                            path,
                            "identity drifted since planning (dev/ino/mtime mismatch) — re-scan".to_owned(),
                        )
                    }
                },
            },
            StepEvent::Live(pids) => match pids {
                None => self.refuse(
                    path,
                    "live-process fact unestablishable at execution".to_owned(),
                ),
                Some(pids) => {
                    if pids.len() == 0 {
                        self.go_on_after_sweep()
                    } else {
                        let mut why = "live process(es) ".to_owned();
                        why.append(bracket_numbers(pids.as_slice()).as_str());
                        self.refuse(path, why)
                    }
                },
            },
            StepEvent::Admin(admin) => {
                let mut run = self;
                run.admin = admin;
                run.choose_tomb()
            },
            StepEvent::Logged(error) => match error {
                Some(e) => {
                    let mut why = "write-ahead manifest unwritable: ".to_owned();
                    why.append(e.as_str());
                    self.refuse(path, why)
                },
                None => {
                    let tomb = self.tomb.clone();
                    let mut run = self;
                    run.stage = Stage::Rename;
                    (run, StepAction::Rename { path, tomb })
                },
            },
            StepEvent::Renamed(error) => match error {
                Some((os, text)) => {
                    let locked = match os {
                        Some(code) => code == 5 || code == 32,
                        None => false,
                    };
                    if locked {
                        self.refuse(
                            path,
                            "live process holds files (rename lock probe)".to_owned(),
                        )
                    } else {
                        let mut why = "tomb rename failed: ".to_owned();
                        why.append(text.as_str());
                        self.refuse(path, why)
                    }
                },
                None => {
                    let tomb = self.tomb.clone();
                    let mut run = self;
                    run.stage = Stage::Drain;
                    (run, StepAction::Drain { tomb })
                },
            },
            StepEvent::Drained(error) => match error {
                Some(e) => {
                    let mut why = "drain interrupted: ".to_owned();
                    why.append(e.as_str());
                    why.append(" (resumes next run)");
                    self.interrupt(why)
                },
                None => self.finish(),
            },
        }
    }
}

/// How often a drain is tried.
pub const DRAIN_ATTEMPTS: u32 = 4;

/// How long to wait after an attempt to drain that failed, in milliseconds.
pub open spec fn wait_after(attempt: u32) -> Option<u64> {
    if attempt + 1 < DRAIN_ATTEMPTS {
        Some((250 * (attempt + 1)) as u64)
    } else {
        None
    }
}

/// After the failed attempt `attempt` to drain a tomb, counted from 0: how many
/// milliseconds to wait before the next, or `None` where there is none. A writer
/// that raced the sweep winds down; each wait is longer than the last.
pub fn drain_retry(attempt: u32) -> (r: Option<u64>)
    ensures
        r == (if attempt + 1 < DRAIN_ATTEMPTS {
            Some((250 * (attempt + 1)) as u64)
        } else {
            None
        }),
        r == wait_after(attempt),
{
    if attempt < DRAIN_ATTEMPTS - 1 {
        Some(250 * (attempt as u64 + 1))
    } else {
        None
    }
}

/// What is said where the single-instance lock is held already.
pub fn lock_held_message(path: &str) -> (r: String)
    ensures
        r@ == "another reaper --execute appears active (lock: "@ + path@
            + "). If it crashed, remove the lock file and retry."@,
{
    let mut out = "another reaper --execute appears active (lock: ".to_owned();
    out.append(path);
    out.append("). If it crashed, remove the lock file and retry.");
    out
}

/// Where a step stands, and what it does next, after these events.
pub open spec fn run_after(start: RunView, events: Seq<EventView>) -> (RunView, ActionView)
    decreases events.len(),
{
    if events.len() == 0 {
        begin(start)
    } else {
        step_next(run_after(start, events.drop_last()).0, events.last())
    }
}

/// Each event is the answer that the step waited for.
pub open spec fn in_turn(start: RunView, events: Seq<EventView>) -> bool
    decreases events.len(),
{
    events.len() > 0 ==> {
        &&& in_turn(start, events.drop_last())
        &&& answers(run_after(start, events.drop_last()).0.stage, events.last())
    }
}

/// How far a step has come.
spec fn rank(stage: Stage) -> int {
    match stage {
        Stage::Identity => 0,
        Stage::Live => 1,
        Stage::Admin => 2,
        Stage::WriteAhead => 3,
        Stage::Rename => 4,
        Stage::Drain => 5,
        Stage::Done => 6,
    }
}

/// What holds of a step at every point of its run.
spec fn run_invariant(start: RunView, events: Seq<EventView>) -> bool {
    let run = run_after(start, events).0;
    let action = run_after(start, events).1;
    let stage = run.stage;
    &&& run.step == start.step
    &&& run.identity == start.identity
    &&& run.size_bytes == start.size_bytes
    &&& run.recover == start.recover
    &&& run.sweeps == start.sweeps
    &&& events.len() <= rank(stage)
    &&& stage is Done <==> action is Finish
    &&& !(stage is Done) ==> start.identity is Some || start.sweeps
    &&& 1 <= rank(stage) <= 5 ==> (start.identity is Some ==> events.contains(
        EventView::Identity(start.identity),
    ))
    &&& 2 <= rank(stage) <= 5 ==> (start.sweeps ==> events.contains(EventView::Live(Some(seq![]))))
    &&& stage is WriteAhead ==> action == (ActionView::WriteAhead {
        record: ManifestView::Tombed {
            path: start.step.path(),
            tomb: run.tomb,
            recover: start.recover,
            size_bytes: start.size_bytes,
        },
    })
    &&& rank(stage) <= 4 ==> !events.contains(EventView::Renamed(None))
    &&& stage is Drain ==> action == (ActionView::Drain { tomb: run.tomb })
    &&& stage is Rename ==> action == (ActionView::Rename {
        path: start.step.path(),
        tomb: run.tomb,
    })
    &&& stage is Identity ==> start.identity is Some
    &&& action matches ActionView::Finish { outcome: OutcomeView::Refused { path, .. }, .. } ==> (
    path == start.step.path() && !events.contains(EventView::Renamed(None)))
}

proof fn lemma_run_invariant(start: RunView, events: Seq<EventView>)
    requires
        in_turn(start, events),
    ensures
        run_invariant(start, events),
    decreases events.len(),
{
    if events.len() > 0 {
        let before = events.drop_last();
        let e = events.last();
        lemma_run_invariant(start, before);
        assert(events =~= before.push(e));
        assert forall|x: EventView| #[trigger] events.contains(x) <==> before.contains(x) || x
            == e by {
            if before.contains(x) {
                let i = choose|i: int| 0 <= i < before.len() && before[i] == x;
                assert(events[i] == x);
            }
            if x == e {
                assert(events[events.len() - 1] == x);
            }
            if events.contains(x) {
                let i = choose|i: int| 0 <= i < events.len() && events[i] == x;
                if i < before.len() {
                    assert(before[i] == x);
                }
            }
        }
        match e {
            EventView::Live(Some(pids)) => {
                if pids.len() == 0 {
                    assert(pids =~= seq![]);
                }
            },
            _ => {},
        }
    }
}

/// Nothing is moved unproven: a rename is asked for only when the directory was
/// found to be the one that was planned (or a sweep stands in where no identity
/// was planned), the sweep, where there is one, found nobody inside, and a
/// record that names the path and the tomb was made durable right before.
pub proof fn rename_only_after_proof(start: RunView, events: Seq<EventView>)
    requires
        in_turn(start, events),
        run_after(start, events).1 is Rename,
    ensures
        start.identity is Some || start.sweeps,
        start.identity is Some ==> events.contains(EventView::Identity(start.identity)),
        start.sweeps ==> events.contains(EventView::Live(Some(seq![]))),
        events.len() > 0 && events.last() == EventView::Logged(None),
        run_after(start, events).1 matches ActionView::Rename { path, tomb } && path
            == start.step.path() && run_after(start, events.drop_last()).1 == (
        ActionView::WriteAhead {
            record: ManifestView::Tombed {
                path,
                tomb,
                recover: start.recover,
                size_bytes: start.size_bytes,
            },
        }),
{
    lemma_run_invariant(start, events);
    lemma_run_invariant(start, events.drop_last());
}

/// Only what was renamed is drained: a drain is asked for only right after the
/// path was renamed to that tomb.
pub proof fn drain_only_after_rename(start: RunView, events: Seq<EventView>)
    requires
        in_turn(start, events),
        run_after(start, events).1 is Drain,
    ensures
        events.len() > 0 && events.last() == EventView::Renamed(None),
        run_after(start, events).1 matches ActionView::Drain { tomb } && run_after(
            start,
            events.drop_last(),
        ).1 == (ActionView::Rename { path: start.step.path(), tomb }),
{
    lemma_run_invariant(start, events);
    lemma_run_invariant(start, events.drop_last());
}

/// A step is reported as reaped only right after its tomb was drained.
pub proof fn reaped_only_after_drain(start: RunView, events: Seq<EventView>)
    requires
        in_turn(start, events),
        run_after(start, events).1 matches ActionView::Finish {
            outcome: OutcomeView::Reaped { .. },
            ..
        },
    ensures
        events.len() > 0 && events.last() == EventView::Drained(None),
        run_after(start, events.drop_last()).1 is Drain,
{
    lemma_run_invariant(start, events);
    if events.len() > 0 {
        lemma_run_invariant(start, events.drop_last());
    }
}

/// Refusals leave the tree in place: the path of a refusal is the step's path, and
/// it was never renamed.
pub proof fn refusal_leaves_the_tree(start: RunView, events: Seq<EventView>)
    requires
        in_turn(start, events),
        run_after(start, events).1 matches ActionView::Finish {
            outcome: OutcomeView::Refused { .. },
            ..
        },
    ensures
        run_after(start, events).1 matches ActionView::Finish {
            outcome: OutcomeView::Refused { path, .. },
            ..
        } && path == start.step.path(),
        !events.contains(EventView::Renamed(None)),
{
    lemma_run_invariant(start, events);
}

/// An interrupted step is one whose tree is in its tomb: right before, a drain of
/// the tomb that it names was asked for, and failed.
pub proof fn interruption_names_the_tomb(start: RunView, events: Seq<EventView>)
    requires
        in_turn(start, events),
        run_after(start, events).1 matches ActionView::Finish {
            outcome: OutcomeView::Interrupted { .. },
            ..
        },
    ensures
        events.len() > 0 && (events.last() matches EventView::Drained(Some(_))),
        run_after(start, events).1 matches ActionView::Finish {
            outcome: OutcomeView::Interrupted { path, tomb, .. },
            ..
        } && path == start.step.path() && run_after(start, events.drop_last()).1 == (
        ActionView::Drain { tomb }),
{
    lemma_run_invariant(start, events);
    if events.len() > 0 {
        lemma_run_invariant(start, events.drop_last());
    }
}

/// A step that drifted is refused: if the directory is not the one that was
/// planned, the very next thing is the refusal.
pub proof fn drifted_identity_is_refused(
    start: RunView,
    events: Seq<EventView>,
    now: Option<Identity>,
)
    requires
        in_turn(start, events.push(EventView::Identity(now))),
        now != start.identity,
    ensures
        run_after(start, events.push(EventView::Identity(now))).1 matches ActionView::Finish {
            outcome: OutcomeView::Refused { path, .. },
            ..
        } && path == start.step.path(),
{
    let all = events.push(EventView::Identity(now));
    assert(all.drop_last() =~= events);
    lemma_run_invariant(start, events);
}

/// Every step ends, with one outcome: it takes at most six events, and after
/// the outcome there is nothing that it waits for.
pub proof fn every_step_ends(start: RunView, events: Seq<EventView>)
    requires
        in_turn(start, events),
    ensures
        events.len() <= 6,
        run_after(start, events).1 is Finish ==> forall|e: EventView|
            !#[trigger] in_turn(start, events.push(e)),
{
    lemma_run_invariant(start, events);
    if run_after(start, events).1 is Finish {
        assert forall|e: EventView| !#[trigger] in_turn(start, events.push(e)) by {
            assert(events.push(e).drop_last() =~= events);
            assert(events.push(e).last() == e);
        }
    }
}

/// What is executed is what was sealed, and nothing else: a rename that a step of
/// a sealed plan asks for is one of the path of that step.
pub proof fn only_sealed_paths_are_renamed(
    steps: Seq<StepView>,
    bindings: Seq<Option<Identity>>,
    sizes: Seq<u64>,
    i: int,
    start: RunView,
    events: Seq<EventView>,
)
    requires
        0 <= i < sealed(steps, bindings, sizes).steps.len(),
        start.step == steps[i],
        start.identity == sealed(steps, bindings, sizes).steps[i].identity,
        in_turn(start, events),
        run_after(start, events).1 is Rename,
    ensures
        run_after(start, events).1 matches ActionView::Rename { path, .. } && path
            == steps[i].path(),
        bindings[i] is Some ==> events.contains(EventView::Identity(bindings[i])),
{
    rename_only_after_proof(start, events);
}

} // verus!
