//! Reports: which candidates enter, what each row says, and how large the steps are.

use crate::classify::{all_clean, verdict};
use crate::laws::verdicts::{fewer_days_than_set_refuse, gives, reapable_needs_every_gate};
use crate::model::{CandidateView, FactsView, ReasonView};
use crate::paths::path_components;
use crate::plan::StepView;
use crate::policy::PolicyView;
use crate::report::{
    clean_facts, floors_for, is_selected, row_paths, rows_of, selected_of, size_at, size_or_zero,
    sizes_of, step_sizes_of,
};
use vstd::prelude::*;

verus! {

/// Without a choice of ecosystems every candidate is selected; with one, those of the ecosystems
/// that were chosen, in order.
pub proof fn selections_are_by_ecosystem(
    candidates: Seq<CandidateView>,
    ecosystems: Seq<Seq<char>>,
)
    ensures
        ecosystems.len() == 0 ==> selected_of(candidates, ecosystems) == candidates,
        ecosystems.len() > 0 ==> selected_of(candidates, ecosystems) == candidates.filter(
            |c: CandidateView|
                exists|i: int| 0 <= i < ecosystems.len() && #[trigger] ecosystems[i] == c.ecosystem,
        ),
    decreases candidates.len(),
{
    reveal(Seq::filter);
    let pred = |c: CandidateView|
        exists|i: int| 0 <= i < ecosystems.len() && #[trigger] ecosystems[i] == c.ecosystem;
    if candidates.len() == 0 {
        assert(selected_of(candidates, ecosystems) =~= candidates);
        assert(candidates.filter(pred) =~= candidates);
    } else {
        let before = candidates.drop_last();
        let c = candidates.last();
        selections_are_by_ecosystem(before, ecosystems);
        if ecosystems.len() == 0 {
            assert(selected_of(candidates, ecosystems) =~= candidates);
        } else {
            assert(is_selected(c, ecosystems) <==> pred(c)) by {
                if ecosystems.contains(c.ecosystem) {
                    let i = choose|i: int| 0 <= i < ecosystems.len() && ecosystems[i] == c.ecosystem;
                    assert(ecosystems[i] == c.ecosystem);
                }
                if pred(c) {
                    let i = choose|i: int|
                        0 <= i < ecosystems.len() && #[trigger] ecosystems[i] == c.ecosystem;
                    assert(ecosystems.contains(c.ecosystem));
                }
            }
            assert(selected_of(candidates, ecosystems) =~= candidates.filter(pred));
        }
    }
}

/// What is admitted is what is reapable, all of it, in order.
pub proof fn admitted_is_what_is_reapable(facts: Seq<FactsView>, p: PolicyView)
    ensures
        clean_facts(facts, p) == facts.filter(|f: FactsView| verdict(f, p) is None),
    decreases facts.len(),
{
    reveal(Seq::filter);
    let pred = |f: FactsView| verdict(f, p) is None;
    if facts.len() > 0 {
        admitted_is_what_is_reapable(facts.drop_last(), p);
        reapable_needs_every_gate(facts.last(), p);
        assert(all_clean(facts.last(), p) <==> pred(facts.last()));
    }
    assert(clean_facts(facts, p) =~= facts.filter(pred));
}

/// A row says of a candidate what is known of it, and the verdict on it.
pub proof fn rows_say_what_is_known(facts: Seq<FactsView>, p: PolicyView, i: int)
    requires
        0 <= i < facts.len(),
    ensures
        rows_of(facts, p).len() == facts.len(),
        row_paths(rows_of(facts, p)).len() == facts.len(),
        ({
            let row = rows_of(facts, p)[i];
            &&& row.candidate == facts[i].candidate
            &&& row.size_bytes == facts[i].size_bytes
            &&& row.idle_days == facts[i].idle_days
            &&& row.verdict == verdict(facts[i], p)
            &&& row_paths(rows_of(facts, p))[i] == facts[i].candidate.path
        }),
{
}

/// The size of a step is that of the candidate that it is for.
pub proof fn steps_are_as_large_as_their_candidates(
    steps: Seq<StepView>,
    admitted: Seq<FactsView>,
    i: int,
    k: int,
)
    requires
        0 <= i < steps.len(),
        0 <= k < admitted.len(),
        path_components(admitted[k].candidate.path) == path_components(steps[i].path()),
        forall|j: int|
            0 <= j < k ==> path_components((#[trigger] admitted[j]).candidate.path)
                != path_components(steps[i].path()),
    ensures
        step_sizes_of(steps, admitted).len() == steps.len(),
        admitted[k].size_bytes matches Some(n) ==> step_sizes_of(steps, admitted)[i] == n,
        admitted[k].size_bytes is None ==> step_sizes_of(steps, admitted)[i] == 0,
{
    lemma_size_at(admitted, steps[i].path(), k);
}

proof fn lemma_size_at(facts: Seq<FactsView>, path: Seq<char>, k: int)
    requires
        0 <= k < facts.len(),
        path_components(facts[k].candidate.path) == path_components(path),
        forall|j: int|
            0 <= j < k ==> path_components((#[trigger] facts[j]).candidate.path)
                != path_components(path),
    ensures
        size_at(facts, path) == size_or_zero(facts[k]),
    decreases k,
{
    if k > 0 {
        assert(path_components(facts[0].candidate.path) != path_components(path));
        let rest = facts.skip(1);
        assert forall|j: int| 0 <= j < k - 1 implies path_components(
            (#[trigger] rest[j]).candidate.path,
        ) != path_components(path) by {
            assert(rest[j] == facts[j + 1]);
        }
        lemma_size_at(rest, path, k - 1);
    }
}

/// The sizes of what is admitted are those that are known, and 0 where none is.
pub proof fn admitted_sizes_are_known_sizes(facts: Seq<FactsView>, i: int)
    requires
        0 <= i < facts.len(),
    ensures
        sizes_of(facts).len() == facts.len(),
        facts[i].size_bytes matches Some(n) ==> sizes_of(facts)[i] == n,
        facts[i].size_bytes is None ==> sizes_of(facts)[i] == 0,
{
}

/// A step that is for no candidate has no size.
pub proof fn steps_for_nothing_have_no_size(steps: Seq<StepView>, admitted: Seq<FactsView>, i: int)
    requires
        0 <= i < steps.len(),
        forall|j: int|
            0 <= j < admitted.len() ==> path_components((#[trigger] admitted[j]).candidate.path)
                != path_components(steps[i].path()),
    ensures
        step_sizes_of(steps, admitted)[i] == 0,
{
    lemma_no_size(admitted, steps[i].path());
}

proof fn lemma_no_size(facts: Seq<FactsView>, path: Seq<char>)
    requires
        forall|j: int|
            0 <= j < facts.len() ==> path_components((#[trigger] facts[j]).candidate.path)
                != path_components(path),
    ensures
        size_at(facts, path) == 0,
    decreases facts.len(),
{
    if facts.len() > 0 {
        assert(path_components(facts[0].candidate.path) != path_components(path));
        let rest = facts.skip(1);
        assert forall|j: int| 0 <= j < rest.len() implies path_components(
            (#[trigger] rest[j]).candidate.path,
        ) != path_components(path) by {
            assert(rest[j] == facts[j + 1]);
        }
        lemma_no_size(rest, path);
    }
}

/// The days that the user asks for hold for every class; without them, 7 hold for worktrees, 3 for
/// what can be made again and 30 for caches.
pub proof fn floors_are_what_was_asked_for(days: u64)
    ensures
        floors_for(Some(days)).worktree_days == days,
        floors_for(Some(days)).regenerable_days == days,
        floors_for(Some(days)).cache_days == days,
        floors_for(None).worktree_days == 7,
        floors_for(None).regenerable_days == 3,
        floors_for(None).cache_days == 30,
{
}

/// What has been idle for fewer days than the user asks for is refused for it, whatever its class.
pub proof fn days_asked_for_refuse(f: FactsView, p: PolicyView, days: u64, idle: u64)
    requires
        p.min_idle == floors_for(Some(days)),
        f.idle_days == Some(idle),
        idle < days,
    ensures
        gives(f, p, ReasonView::TooRecent { idle_days: idle, min_idle_days: days }),
        verdict(f, p) is Some,
{
    fewer_days_than_set_refuse(f, p, idle);
    reapable_needs_every_gate(f, p);
}

} // verus!
