//! Steps: what an execution does after each answer, from the first to the last.

use crate::canonical::decimal_ends;
use crate::deleter::{
    answers, begin, in_turn, run_after, tomb_name_of, unstarted, wait_after, ActionView, EventView,
    OutcomeView, RunView, Stage,
};
use crate::manifest::ManifestView;
use crate::paths::{path_join, path_parent};
use crate::plan::{BoundView, Identity, StepView};
use crate::text::{bracketed, decimal_text, lemma_decimal_digits};
use vstd::prelude::*;

verus! {

/// A step ends refused: the record and the outcome say the same, and no admin directory is
/// removed.
pub open spec fn ends_refused(action: ActionView, path: Seq<char>, why: Seq<char>) -> bool {
    action == (ActionView::Finish {
        record: ManifestView::Refused { path, why },
        admin: None,
        outcome: OutcomeView::Refused { path, why },
    })
}

/// A tree is about to be moved: what is written ahead names the tree, the tomb beside it, how to
/// get it back and its size. A root has nothing beside it, and is refused.
pub open spec fn about_to_move(start: RunView, action: ActionView) -> bool {
    match path_parent(start.step.path()) {
        None => ends_refused(action, start.step.path(), "refusing to reap a filesystem root"@),
        Some(up) => action == (ActionView::WriteAhead {
            record: ManifestView::Tombed {
                path: start.step.path(),
                tomb: path_join(up, start.tomb_name),
                recover: start.recover,
                size_bytes: start.size_bytes,
            },
        }),
    }
}

/// Whether an answer is one to an action.
pub open spec fn is_answer_to(action: ActionView, event: EventView) -> bool {
    match action {
        ActionView::ReadIdentity { .. } => event is Identity,
        ActionView::SweepLive { .. } => event is Live,
        ActionView::FindAdmin { .. } => event is Admin,
        ActionView::WriteAhead { .. } => event is Logged,
        ActionView::Rename { .. } => event is Renamed,
        ActionView::Drain { .. } => event is Drained,
        ActionView::Finish { .. } => false,
    }
}

/// A step begins with what it is to prove: the identity that was planned; where none was, that
/// nobody is inside; where neither can be had, it is refused.
pub proof fn first_action(start: RunView)
    ensures
        in_turn(start, seq![]),
        ({
            let action = run_after(start, seq![]).1;
            let path = start.step.path();
            &&& start.identity is Some ==> action == (ActionView::ReadIdentity { path })
            &&& start.identity is None && start.sweeps ==> action == (ActionView::SweepLive { path })
            &&& start.identity is None && !start.sweeps ==> ends_refused(
                action,
                path,
                "identity not established at planning and no live-process sweep — re-scan"@,
            )
        }),
{
}

spec fn stage_of(action: ActionView) -> Stage {
    match action {
        ActionView::ReadIdentity { .. } => Stage::Identity,
        ActionView::SweepLive { .. } => Stage::Live,
        ActionView::FindAdmin { .. } => Stage::Admin,
        ActionView::WriteAhead { .. } => Stage::WriteAhead,
        ActionView::Rename { .. } => Stage::Rename,
        ActionView::Drain { .. } => Stage::Drain,
        ActionView::Finish { .. } => Stage::Done,
    }
}

/// An admin directory was told.
pub open spec fn admin_told(events: Seq<EventView>, admin: Option<Seq<char>>) -> bool {
    exists|i: int| 0 <= i < events.len() && #[trigger] events[i] == EventView::Admin(admin)
}

spec fn keeps(start: RunView, events: Seq<EventView>) -> bool {
    let run = run_after(start, events).0;
    let action = run_after(start, events).1;
    &&& run.step == start.step
    &&& run.identity == start.identity
    &&& run.size_bytes == start.size_bytes
    &&& run.recover == start.recover
    &&& run.sweeps == start.sweeps
    &&& run.tomb_name == start.tomb_name
    &&& run.stage == stage_of(action)
    &&& run.stage is Admin ==> start.step is RemoveWorktree
    &&& (run.stage is WriteAhead || run.stage is Rename || run.stage is Drain) ==> {
        &&& path_parent(start.step.path()) is Some
        &&& run.tomb == path_join(path_parent(start.step.path())->0, start.tomb_name)
    }
    &&& run.stage is Identity || run.stage is Live || run.stage is Admin ==> {
        &&& run.admin == start.admin
        &&& forall|i: int| 0 <= i < events.len() ==> !((#[trigger] events[i]) is Admin)
    }
    &&& start.admin is None && run.admin is None ==> forall|i: int|
        0 <= i < events.len() ==> !((#[trigger] events[i]) matches EventView::Admin(Some(_)))
    &&& start.admin is None && run.admin is Some ==> admin_told(events, run.admin)
    &&& forall|i: int, j: int|
        0 <= i < events.len() && 0 <= j < events.len() && (#[trigger] events[i]) is Admin && (
        #[trigger] events[j]) is Admin ==> i == j
}

proof fn lemma_keeps(start: RunView, events: Seq<EventView>)
    requires
        in_turn(start, events),
    ensures
        keeps(start, events),
    decreases events.len(),
{
    if events.len() > 0 {
        let before = events.drop_last();
        let e = events.last();
        let n = before.len() as int;
        lemma_keeps(start, before);
        let run = run_after(start, before).0;
        let next = run_after(start, events).0;
        assert(events[n] == e);
        assert forall|i: int| 0 <= i < n implies events[i] == before[i] by {}
        if e is Admin {
            assert(run.stage is Admin);
            assert(next.admin == e->Admin_0);
            assert forall|i: int| 0 <= i < n implies !((#[trigger] events[i]) is Admin) by {
                assert(events[i] == before[i]);
            }
        } else {
            assert(next.admin == run.admin);
            if start.admin is None && run.admin is Some {
                let i = choose|i: int|
                    0 <= i < before.len() && #[trigger] before[i] == EventView::Admin(run.admin);
                assert(events[i] == EventView::Admin(run.admin));
            }
            assert forall|i: int, j: int|
                0 <= i < events.len() && 0 <= j < events.len() && (#[trigger] events[i]) is Admin
                    && (#[trigger] events[j]) is Admin implies i == j by {
                assert(events[i] == before[i] && events[j] == before[j]);
            }
        }
    }
}

/// What answers what: after an action comes the answer to it, and nothing comes after the end.
pub proof fn answers_are_in_turn(start: RunView, events: Seq<EventView>, e: EventView)
    requires
        in_turn(start, events),
    ensures
        in_turn(start, events.push(e)) <==> is_answer_to(run_after(start, events).1, e),
{
    lemma_keeps(start, events);
    assert(events.push(e).drop_last() =~= events);
}

/// The identity that was planned is the one that has to be found. Then the sweep comes, where
/// there is one; else the admin directory of a worktree; else the tree is about to move.
pub proof fn after_the_identity(start: RunView, events: Seq<EventView>, now: Option<Identity>)
    requires
        in_turn(start, events.push(EventView::Identity(now))),
    ensures
        ({
            let path = start.step.path();
            let action = run_after(start, events.push(EventView::Identity(now))).1;
            &&& now is None ==> ends_refused(action, path, "gone or unreadable at execution time"@)
            &&& now is Some && now != start.identity ==> ends_refused(
                action,
                path,
                "identity drifted since planning (dev/ino/mtime mismatch) — re-scan"@,
            )
            &&& now is Some && now == start.identity ==> {
                &&& start.sweeps ==> action == (ActionView::SweepLive { path })
                &&& !start.sweeps && start.step is RemoveWorktree ==> action == (
                ActionView::FindAdmin { path })
                &&& !start.sweeps && start.step is DeleteDir ==> about_to_move(start, action)
            }
        }),
{
    let all = events.push(EventView::Identity(now));
    assert(all.drop_last() =~= events);
    lemma_keeps(start, events);
}

/// Nobody may be inside, and that has to be known. Then the admin directory of a worktree is
/// looked for; another tree is about to move.
pub proof fn after_the_sweep(start: RunView, events: Seq<EventView>, pids: Option<Seq<u32>>)
    requires
        in_turn(start, events.push(EventView::Live(pids))),
    ensures
        ({
            let path = start.step.path();
            let action = run_after(start, events.push(EventView::Live(pids))).1;
            &&& pids is None ==> ends_refused(
                action,
                path,
                "live-process fact unestablishable at execution"@,
            )
            &&& pids is Some && pids->0.len() > 0 ==> ends_refused(
                action,
                path,
                "live process(es) "@ + bracketed(pids->0),
            )
            &&& pids is Some && pids->0.len() == 0 ==> {
                &&& start.step is RemoveWorktree ==> action == (ActionView::FindAdmin { path })
                &&& start.step is DeleteDir ==> about_to_move(start, action)
            }
        }),
{
    let all = events.push(EventView::Live(pids));
    assert(all.drop_last() =~= events);
    lemma_keeps(start, events);
}

/// With or without an admin directory, a worktree is about to move.
pub proof fn after_the_admin_directory(
    start: RunView,
    events: Seq<EventView>,
    admin: Option<Seq<char>>,
)
    requires
        in_turn(start, events.push(EventView::Admin(admin))),
    ensures
        start.step is RemoveWorktree,
        about_to_move(start, run_after(start, events.push(EventView::Admin(admin))).1),
{
    let all = events.push(EventView::Admin(admin));
    assert(all.drop_last() =~= events);
    lemma_keeps(start, events);
}

/// What is not written ahead is not moved; what is, is renamed to its tomb.
pub proof fn after_the_write(start: RunView, events: Seq<EventView>, error: Option<Seq<char>>)
    requires
        in_turn(start, events.push(EventView::Logged(error))),
    ensures
        ({
            let path = start.step.path();
            let action = run_after(start, events.push(EventView::Logged(error))).1;
            &&& error matches Some(e) ==> ends_refused(
                action,
                path,
                "write-ahead manifest unwritable: "@ + e,
            )
            &&& error is None ==> path_parent(path) is Some && action == (ActionView::Rename {
                path,
                tomb: path_join(path_parent(path)->0, start.tomb_name),
            })
        }),
{
    let all = events.push(EventView::Logged(error));
    assert(all.drop_last() =~= events);
    lemma_keeps(start, events);
}

/// A tree that could not be renamed stays; one that was is drained from its tomb.
pub proof fn after_the_rename(
    start: RunView,
    events: Seq<EventView>,
    error: Option<(Option<i32>, Seq<char>)>,
)
    requires
        in_turn(start, events.push(EventView::Renamed(error))),
    ensures
        ({
            let path = start.step.path();
            let action = run_after(start, events.push(EventView::Renamed(error))).1;
            &&& error matches Some(e) ==> {
                &&& e.0 == Some(5i32) || e.0 == Some(32i32) ==> ends_refused(
                    action,
                    path,
                    "live process holds files (rename lock probe)"@,
                )
                &&& e.0 != Some(5i32) && e.0 != Some(32i32) ==> ends_refused(
                    action,
                    path,
                    "tomb rename failed: "@ + e.1,
                )
            }
            &&& error is None ==> path_parent(path) is Some && action == (ActionView::Drain {
                tomb: path_join(path_parent(path)->0, start.tomb_name),
            })
        }),
{
    let all = events.push(EventView::Renamed(error));
    assert(all.drop_last() =~= events);
    lemma_keeps(start, events);
}

/// A tomb that was drained ends the step: what was freed is what was planned, and how to get it
/// back is what was planned. One that was not is left to the next run.
pub proof fn after_the_drain(start: RunView, events: Seq<EventView>, error: Option<Seq<char>>)
    requires
        in_turn(start, events.push(EventView::Drained(error))),
    ensures
        ({
            let path = start.step.path();
            let tomb = path_join(path_parent(path)->0, start.tomb_name);
            let action = run_after(start, events.push(EventView::Drained(error))).1;
            &&& path_parent(path) is Some
            &&& error matches Some(e) ==> {
                let why = "drain interrupted: "@ + e + " (resumes next run)"@;
                action == (ActionView::Finish {
                    record: ManifestView::Interrupted { path, tomb, why },
                    admin: None,
                    outcome: OutcomeView::Interrupted { path, tomb, why },
                })
            }
            &&& error is None ==> {
                &&& action matches ActionView::Finish { record, outcome, .. } && record == (
                ManifestView::Drained { tomb, freed_bytes: start.size_bytes }) && outcome == (
                OutcomeView::Reaped {
                    path,
                    freed_bytes: start.size_bytes,
                    recover: start.recover,
                })
            }
        }),
{
    let all = events.push(EventView::Drained(error));
    assert(all.drop_last() =~= events);
    lemma_keeps(start, events);
}

/// A worktree sheds its admin directory with it: the step that reaped it ends with the directory
/// that was told, and with none where none was.
pub proof fn admin_directory_goes_with_the_worktree(start: RunView, events: Seq<EventView>)
    requires
        start.admin is None,
        in_turn(start, events),
        run_after(start, events).1 matches ActionView::Finish {
            outcome: OutcomeView::Reaped { .. },
            ..
        },
    ensures
        forall|a: Seq<char>|
            admin_told(events, Some(a)) ==> (run_after(start, events).1 matches ActionView::Finish {
                admin,
                ..
            } && admin == Some(a)),
        (forall|a: Seq<char>| !admin_told(events, Some(a))) ==> (run_after(
            start,
            events,
        ).1 matches ActionView::Finish { admin, .. } && admin is None),
{
    if events.len() > 0 {
        let before = events.drop_last();
        assert(events =~= before.push(events.last()));
        lemma_keeps(start, before);
        lemma_keeps(start, events);
        let run = run_after(start, before).0;
        assert(events.last() == EventView::Drained(None));
        assert forall|a: Seq<char>| admin_told(events, Some(a)) implies (run_after(
            start,
            events,
        ).1 matches ActionView::Finish { admin, .. } && admin == Some(a)) by {
            let i = choose|i: int|
                0 <= i < events.len() && #[trigger] events[i] == EventView::Admin(Some(a));
            assert(before[i] == events[i]);
            if run.admin is Some {
                let j = choose|j: int|
                    0 <= j < before.len() && #[trigger] before[j] == EventView::Admin(run.admin);
                assert(events[j] == before[j]);
                assert(i == j);
            }
        }
        if run.admin is Some {
            let j = choose|j: int|
                0 <= j < before.len() && #[trigger] before[j] == EventView::Admin(run.admin);
            assert(events[j] == EventView::Admin(run.admin));
            assert(admin_told(events, Some(run.admin->0)));
        }
    }
}

/// A worktree's admin directory is looked for before the worktree moves.
pub proof fn worktree_moves_after_its_admin_directory_is_told(
    start: RunView,
    events: Seq<EventView>,
)
    requires
        start.step is RemoveWorktree,
        in_turn(start, events),
        run_after(start, events).1 is WriteAhead,
    ensures
        events.len() > 0 && events.last() is Admin,
{
    if events.len() > 0 {
        lemma_keeps(start, events.drop_last());
    }
}

/// A refusal has a cause: something that could not be proved, written or renamed. Where all goes
/// well, a tree that is below something is reaped.
pub proof fn refusal_has_a_cause(start: RunView, events: Seq<EventView>)
    requires
        in_turn(start, events),
        run_after(start, events).1 matches ActionView::Finish {
            outcome: OutcomeView::Refused { .. },
            ..
        },
    ensures
        ({
            ||| events.len() == 0 && start.identity is None && !start.sweeps
            ||| events.len() > 0 && (events.last() matches EventView::Identity(now) && (now is None
                || now != start.identity))
            ||| events.len() > 0 && (events.last() matches EventView::Live(pids) && (pids is None
                || pids->0.len() > 0))
            ||| path_parent(start.step.path()) is None
            ||| events.len() > 0 && (events.last() matches EventView::Logged(Some(_)))
            ||| events.len() > 0 && (events.last() matches EventView::Renamed(Some(_)))
        }),
{
    if events.len() > 0 {
        lemma_keeps(start, events.drop_last());
    }
}

/// A step is run as it was sealed: its identity, its size and how to get it back are those of the
/// bound step, and no admin directory is known at first.
pub proof fn bound_step_is_run_as_sealed(
    bound: BoundView,
    step: StepView,
    sweeps: bool,
    pid: u32,
    index: nat,
)
    ensures
        ({
            let run = begin(unstarted(bound, step, sweeps, pid, index)).0;
            &&& run.step == step
            &&& run.identity == bound.identity
            &&& run.size_bytes == bound.size_bytes
            &&& run.recover == bound.recover
            &&& run.sweeps == sweeps
            &&& run.admin is None
            &&& run.tomb_name == tomb_name_of(pid, index)
        }),
        unstarted(bound, step, sweeps, pid, index).admin is None,
{
}

/// Tombs are told apart by the process and the step, and by their names from everything else.
pub proof fn tomb_names_differ(pid: u32, index: nat, other_pid: u32, other: nat)
    requires
        tomb_name_of(pid, index) == tomb_name_of(other_pid, other),
    ensures
        pid == other_pid,
        index == other,
{
    reveal_strlit(".reaper-tomb-");
    reveal_strlit("-");
    let start = ".reaper-tomb-"@;
    let x = "-"@ + decimal_text(index);
    let y = "-"@ + decimal_text(other);
    let a = tomb_name_of(pid, index);
    let b = tomb_name_of(other_pid, other);
    assert(a =~= start + (decimal_text(pid as nat) + x));
    assert(b =~= start + (decimal_text(other_pid as nat) + y));
    assert(a.skip(13) =~= decimal_text(pid as nat) + x);
    assert(b.skip(13) =~= decimal_text(other_pid as nat) + y);
    assert(x[0] == '-' && y[0] == '-');
    decimal_ends(pid as nat, other_pid as nat, x, y);
    assert(x.skip(1) =~= decimal_text(index));
    assert(y.skip(1) =~= decimal_text(other));
    lemma_decimal_digits(index);
    lemma_decimal_digits(other);
}

/// A tomb is hidden, and known by the start of its name.
pub proof fn tomb_names_start_alike(pid: u32, index: nat)
    ensures
        tomb_name_of(pid, index).take(13) == ".reaper-tomb-"@,
        tomb_name_of(pid, index).len() > 13,
{
    reveal_strlit(".reaper-tomb-");
    reveal_strlit("-");
    assert(tomb_name_of(pid, index).take(13) =~= ".reaper-tomb-"@);
}

/// A drain is tried four times, and each wait is a quarter of a second longer than the one before.
pub proof fn drains_are_tried_again(attempt: u32)
    ensures
        attempt == 0 ==> wait_after(attempt) == Some(250u64),
        attempt == 1 ==> wait_after(attempt) == Some(500u64),
        attempt == 2 ==> wait_after(attempt) == Some(750u64),
        attempt >= 3 ==> wait_after(attempt) is None,
{
}

} // verus!
