//! The scan report: which candidates enter it, what it seals into a plan, and
//! how it is shown.

use crate::classify::{
    admit_facts, all_clean, classify, verdict, verdict_reasons, Admitted,
};
use crate::model::{Candidate, CandidateView, Disposition, Facts, FactsView, ReasonView};
use crate::order::{arranges, permutes, pick, places, sort_by_path, Located};
use crate::paths::{equal_paths, same_path};
use crate::plan::{is_plan, plan, step_paths, steps_of, ReapPlan, StepView};
use crate::policy::{default_idle, IdlePolicy, Policy, PolicyView};
use crate::sizes::sum_of;
use crate::text::{lemma_views_push, same_text, views};
use vstd::prelude::*;

verus! {

/// The idle floors of a scan, by what the user asked for.
pub open spec fn floors_for(min_idle_days: Option<u64>) -> IdlePolicy {
    match min_idle_days {
        Some(days) => IdlePolicy {
            worktree_days: days,
            regenerable_days: days,
            cache_days: days,
        },
        None => default_idle(),
    }
}

/// The idle floors of a scan: one number of days for every class, or the
/// defaults.
pub fn idle_floors(min_idle_days: Option<u64>) -> (r: IdlePolicy)
    ensures
        r == (match min_idle_days {
            Some(days) => IdlePolicy {
                worktree_days: days,
                regenerable_days: days,
                cache_days: days,
            },
            None => default_idle(),
        }),
        r == floors_for(min_idle_days),
{
    match min_idle_days {
        Some(days) => IdlePolicy {
            worktree_days: days,
            regenerable_days: days,
            cache_days: days,
        },
        None => IdlePolicy::default(),
    }
}

/// A candidate enters the report: it is of one of these ecosystems, or none was
/// named.
pub open spec fn is_selected(c: CandidateView, ecosystems: Seq<Seq<char>>) -> bool {
    ecosystems.len() == 0 || ecosystems.contains(c.ecosystem)
}

/// The candidates that enter the report, in order.
pub open spec fn selected_of(
    candidates: Seq<CandidateView>,
    ecosystems: Seq<Seq<char>>,
) -> Seq<CandidateView>
    decreases candidates.len(),
{
    if candidates.len() == 0 {
        seq![]
    } else {
        let rest = selected_of(candidates.drop_last(), ecosystems);
        if is_selected(candidates.last(), ecosystems) {
            rest.push(candidates.last())
        } else {
            rest
        }
    }
}

fn names_ecosystem(c: &Candidate, ecosystems: &[String]) -> (r: bool)
    ensures
        r == is_selected(c@, views(ecosystems@)),
{
    let ghost all = views(ecosystems@);
    if ecosystems.len() == 0 {
        return true;
    }
    let mut i: usize = 0;
    while i < ecosystems.len()
        invariant
            i <= ecosystems@.len(),
            all == views(ecosystems@),
            forall|j: int| 0 <= j < i ==> all[j] != c@.ecosystem,
        decreases ecosystems@.len() - i,
    {
        if same_text(ecosystems[i].as_str(), c.ecosystem.0.as_str()) {
            assert(all[i as int] == c@.ecosystem);
            return true;
        }
        i += 1;
    }
    false
}

/// The selection predicate: naming ecosystems narrows what enters the report and
/// the plan; it is a filter, never a classification change.
pub fn select_ecosystems(candidates: Vec<Candidate>, ecosystems: &[String]) -> (r: Vec<Candidate>)
    ensures
        views(r@) == selected_of(views(candidates@), views(ecosystems@)),
{
    let ghost list = candidates@;
    let ghost all = views(candidates@);
    let ghost names = views(ecosystems@);
    let mut out: Vec<Candidate> = Vec::new();
    assert(views(out@) =~= selected_of(all.take(0), names));
    for c in it: candidates
        invariant
            it.seq() == list,
            all == views(list),
            names == views(ecosystems@),
            views(out@) == selected_of(all.take(it.index() as int), names),
    {
        broadcast use lemma_views_push;

        let ghost i = it.index() as int;
        assert(all.take(i + 1).drop_last() =~= all.take(i));
        assert(all.take(i + 1).last() == c@);
        if names_ecosystem(&c, ecosystems) {
            out.push(c);
        }
    }
    assert(all.take(all.len() as int) =~= all);
    out
}

/// The facts that pass every gate, in order.
pub open spec fn clean_facts(facts: Seq<FactsView>, p: PolicyView) -> Seq<FactsView>
    decreases facts.len(),
{
    if facts.len() == 0 {
        seq![]
    } else {
        let rest = clean_facts(facts.drop_last(), p);
        if all_clean(facts.last(), p) {
            rest.push(facts.last())
        } else {
            rest
        }
    }
}

/// The candidates that are admitted, in order.
pub fn admit_all(facts: &[Facts], policy: &Policy) -> (r: Vec<Admitted>)
    ensures
        views(r@) == clean_facts(views(facts@), policy@),
{
    let ghost all = views(facts@);
    let mut out: Vec<Admitted> = Vec::new();
    assert(views(out@) =~= clean_facts(all.take(0), policy@));
    for i in 0..facts.len()
        invariant
            all == views(facts@),
            views(out@) == clean_facts(all.take(i as int), policy@),
    {
        broadcast use lemma_views_push;

        assert(all.take(i + 1).drop_last() =~= all.take(i as int));
        assert(all.take(i + 1).last() == facts@[i as int]@);
        if let Ok(admitted) = admit_facts(&facts[i], policy) {
            out.push(admitted);
        }
    }
    assert(all.take(all.len() as int) =~= all);
    out
}

/// The size of a candidate, nothing where it is not established.
pub open spec fn size_or_zero(f: FactsView) -> u64 {
    match f.size_bytes {
        Some(n) => n,
        None => 0,
    }
}

/// The sizes of a list of candidates.
pub open spec fn sizes_of(facts: Seq<FactsView>) -> Seq<u64> {
    Seq::new(facts.len(), |i: int| size_or_zero(facts[i]))
}

/// The sizes of what is admitted.
pub fn admitted_sizes(admitted: &[Admitted]) -> (r: Vec<u64>)
    ensures
        r@ == sizes_of(views(admitted@)),
{
    let ghost all = views(admitted@);
    let mut out: Vec<u64> = Vec::new();
    for i in 0..admitted.len()
        invariant
            all == views(admitted@),
            out@ == sizes_of(all).take(i as int),
    {
        out.push(
            match admitted[i].facts().size_bytes {
                Some(n) => n,
                None => 0,
            },
        );
        assert(out@ =~= sizes_of(all).take(i + 1));
    }
    assert(out@ =~= sizes_of(all));
    out
}

/// The size of the first candidate at this path, nothing where there is none.
pub open spec fn size_at(facts: Seq<FactsView>, path: Seq<char>) -> u64
    decreases facts.len(),
{
    if facts.len() == 0 {
        0
    } else if same_path(facts[0].candidate.path, path) {
        size_or_zero(facts[0])
    } else {
        size_at(facts.skip(1), path)
    }
}

fn find_size(admitted: &[Admitted], path: &str) -> (r: u64)
    ensures
        r == size_at(views(admitted@), path@),
{
    let ghost all = views(admitted@);
    assert(all.skip(0) =~= all);
    let mut i: usize = 0;
    while i < admitted.len()
        invariant
            i <= admitted@.len(),
            all == views(admitted@),
            size_at(all, path@) == size_at(all.skip(i as int), path@),
        decreases admitted@.len() - i,
    {
        let facts = admitted[i].facts();
        assert(all.skip(i as int)[0] == admitted@[i as int]@);
        if equal_paths(facts.candidate.path.as_str(), path) {
            return match facts.size_bytes {
                Some(n) => n,
                None => 0,
            };
        }
        assert(all.skip(i as int).skip(1) =~= all.skip(i + 1));
        i += 1;
    }
    0
}

/// The sizes of the steps of a plan, each that of the candidate at its path.
pub open spec fn step_sizes_of(steps: Seq<StepView>, admitted: Seq<FactsView>) -> Seq<u64> {
    Seq::new(steps.len(), |i: int| size_at(admitted, steps[i].path()))
}

/// The sizes of the steps of a plan, each that of the candidate at its path.
pub fn step_sizes(plan: &ReapPlan, admitted: &[Admitted]) -> (r: Vec<u64>)
    ensures
        r@ == step_sizes_of(views(plan.steps@), views(admitted@)),
{
    let ghost steps = views(plan.steps@);
    let ghost all = views(admitted@);
    let mut out: Vec<u64> = Vec::new();
    for i in 0..plan.steps.len()
        invariant
            steps == views(plan.steps@),
            all == views(admitted@),
            out@ == step_sizes_of(steps, all).take(i as int),
    {
        out.push(find_size(admitted, plan.steps[i].path().as_str()));
        assert(out@ =~= step_sizes_of(steps, all).take(i + 1));
    }
    assert(out@ =~= step_sizes_of(steps, all));
    out
}

/// One row of the report.
#[derive(Debug)]
pub struct Row {
    pub candidate: Candidate,
    pub size_bytes: Option<u64>,
    pub idle_days: Option<u64>,
    pub disposition: Disposition,
}

/// The view of a [`Row`]; the verdict is the reasons for which it refuses, or
/// `None` where it is reapable.
pub struct RowView {
    pub candidate: CandidateView,
    pub size_bytes: Option<u64>,
    pub idle_days: Option<u64>,
    pub verdict: Option<Seq<ReasonView>>,
}

impl View for Row {
    type V = RowView;

    open spec fn view(&self) -> RowView {
        RowView {
            candidate: self.candidate@,
            size_bytes: self.size_bytes,
            idle_days: self.idle_days,
            verdict: verdict_reasons(self.disposition),
        }
    }
}

impl Located for Row {
    open spec fn place(&self) -> Seq<char> {
        self.candidate.path@
    }

    fn place_text(&self) -> (r: &str) {
        self.candidate.path.as_str()
    }
}

/// The row for a candidate.
pub open spec fn row_of(f: FactsView, p: PolicyView) -> RowView {
    RowView {
        candidate: f.candidate,
        size_bytes: f.size_bytes,
        idle_days: f.idle_days,
        verdict: verdict(f, p),
    }
}

/// The rows for candidates, in order.
pub open spec fn rows_of(facts: Seq<FactsView>, p: PolicyView) -> Seq<RowView> {
    Seq::new(facts.len(), |i: int| row_of(facts[i], p))
}

/// The paths of rows.
pub open spec fn row_paths(rows: Seq<RowView>) -> Seq<Seq<char>> {
    Seq::new(rows.len(), |i: int| rows[i].candidate.path)
}

/// The rows of the report: one for each candidate, with its verdict, ordered by
/// path.
pub fn report_rows(facts: &[Facts], policy: &Policy) -> (r: Vec<Row>)
    ensures
        exists|perm: Seq<int>|
            arranges(row_paths(rows_of(views(facts@), policy@)), perm) && views(r@)
                == #[trigger] pick(rows_of(views(facts@), policy@), perm),
{
    let ghost all = rows_of(views(facts@), policy@);
    let mut rows: Vec<Row> = Vec::new();
    assert(views(rows@) =~= all.take(0));
    for i in 0..facts.len()
        invariant
            all == rows_of(views(facts@), policy@),
            views(rows@) == all.take(i as int),
    {
        broadcast use lemma_views_push;

        let f = &facts[i];
        let disposition = classify(f, policy);
        rows.push(
            Row {
                candidate: f.candidate.clone(),
                size_bytes: f.size_bytes,
                idle_days: f.idle_days,
                disposition,
            },
        );
        assert(views(rows@) =~= all.take(i + 1));
    }
    assert(views(rows@) =~= all);
    let ghost unsorted = rows@;
    sort_by_path(&mut rows);
    proof {
        let perm = choose|perm: Seq<int>|
            arranges(places(unsorted), perm) && rows@ == #[trigger] pick(unsorted, perm);
        assert(places(unsorted) =~= row_paths(all)) by {
            assert forall|i: int| 0 <= i < unsorted.len() implies unsorted[i].place() == (
            #[trigger] all[i]).candidate.path by {
                assert(views(unsorted)[i] == unsorted[i]@);
            }
        }
        assert forall|i: int| 0 <= i < perm.len() implies views(rows@)[i] == pick(all, perm)[i] by {
            assert(0 <= perm[i] < unsorted.len());
            assert(views(unsorted)[perm[i]] == unsorted[perm[i]]@);
        }
        assert(views(rows@) =~= pick(all, perm));
    }
    rows
}

/// The report and the plan agree: what is sealed is what the report calls
/// reapable. A candidate's facts are admitted exactly where its row has no
/// reason to refuse.
pub proof fn plan_holds_the_reapable_rows(facts: Seq<FactsView>, p: PolicyView, i: int)
    requires
        0 <= i < facts.len(),
    ensures
        rows_of(facts, p)[i].verdict is None ==> clean_facts(facts, p).contains(facts[i]),
        rows_of(facts, p)[i].verdict is Some ==> !clean_facts(facts, p).contains(facts[i]),
    decreases facts.len(),
{
    lemma_clean_facts(facts, p);
    if all_clean(facts[i], p) {
        lemma_clean_is_kept(facts, p, i);
    }
}

proof fn lemma_clean_facts(facts: Seq<FactsView>, p: PolicyView)
    ensures
        forall|j: int|
            0 <= j < clean_facts(facts, p).len() ==> all_clean(
                #[trigger] clean_facts(facts, p)[j],
                p,
            ),
    decreases facts.len(),
{
    if facts.len() > 0 {
        let rest = clean_facts(facts.drop_last(), p);
        let all = clean_facts(facts, p);
        lemma_clean_facts(facts.drop_last(), p);
        assert forall|j: int| 0 <= j < all.len() implies all_clean(#[trigger] all[j], p) by {
            if j < rest.len() {
                assert(all[j] == rest[j]);
            }
        }
    }
}

proof fn lemma_clean_is_kept(facts: Seq<FactsView>, p: PolicyView, i: int)
    requires
        0 <= i < facts.len(),
        all_clean(facts[i], p),
    ensures
        clean_facts(facts, p).contains(facts[i]),
    decreases facts.len(),
{
    let before = facts.drop_last();
    let rest = clean_facts(before, p);
    let all = clean_facts(facts, p);
    if i < before.len() {
        assert(before[i] == facts[i]);
        lemma_clean_is_kept(before, p, i);
        let k = choose|k: int| 0 <= k < rest.len() && rest[k] == facts[i];
        assert(all[k] == facts[i]);
    } else {
        assert(all[all.len() - 1] == facts[i]);
    }
}

/// Naming ecosystems only narrows: what enters the report is a candidate that was
/// found and is of a named ecosystem, and none such is left out.
pub proof fn selection_only_narrows(
    candidates: Seq<CandidateView>,
    ecosystems: Seq<Seq<char>>,
    c: CandidateView,
)
    ensures
        selected_of(candidates, ecosystems).contains(c) <==> candidates.contains(c) && is_selected(
            c,
            ecosystems,
        ),
    decreases candidates.len(),
{
    if candidates.len() > 0 {
        let before = candidates.drop_last();
        let last = candidates.last();
        let rest = selected_of(before, ecosystems);
        let all = selected_of(candidates, ecosystems);
        selection_only_narrows(before, ecosystems, c);
        if rest.contains(c) {
            let i = choose|i: int| 0 <= i < rest.len() && rest[i] == c;
            assert(all[i] == c);
        }
        if before.contains(c) {
            let i = choose|i: int| 0 <= i < before.len() && before[i] == c;
            assert(candidates[i] == c);
        }
        if c == last {
            assert(candidates[candidates.len() - 1] == c);
            if is_selected(last, ecosystems) {
                assert(all[all.len() - 1] == c);
            }
        }
        if all.contains(c) {
            let i = choose|i: int| 0 <= i < all.len() && all[i] == c;
            if i < rest.len() {
                assert(rest[i] == c);
            }
        }
        if candidates.contains(c) {
            let i = choose|i: int| 0 <= i < candidates.len() && candidates[i] == c;
            if i < before.len() {
                assert(before[i] == c);
            }
        }
    }
}

/// A plan for what is admitted, not yet bound to identities.
#[derive(Debug)]
pub struct Prepared {
    pub plan: ReapPlan,
    /// The size of each step.
    pub sizes: Vec<u64>,
}

/// Prepares a plan for what is admitted; there is none where nothing is.
pub fn prepare(admitted: &[Admitted]) -> (r: Option<Prepared>)
    ensures
        r is Some <==> admitted@.len() > 0,
        r matches Some(p) ==> is_plan(views(admitted@), views(p.plan.steps@)) && p.sizes@
            == step_sizes_of(views(p.plan.steps@), views(admitted@)),
{
    if admitted.len() == 0 {
        return None;
    }
    let plan = plan(admitted);
    let sizes = step_sizes(&plan, admitted);
    Some(Prepared { plan, sizes })
}

proof fn lemma_sum_remove(s: Seq<u64>, k: int)
    requires
        0 <= k < s.len(),
    ensures
        sum_of(s) == sum_of(s.remove(k)) + s[k],
    decreases s.len(),
{
    let n = s.len() - 1;
    if k == n {
        assert(s.remove(k) =~= s.drop_last());
    } else {
        lemma_sum_remove(s.drop_last(), k);
        assert(s.remove(k).drop_last() =~= s.drop_last().remove(k));
        assert(s.remove(k).last() == s.last());
    }
}

proof fn lemma_sum_pick(s: Seq<u64>, perm: Seq<int>)
    requires
        permutes(s.len(), perm),
    ensures
        sum_of(pick(s, perm)) == sum_of(s),
    decreases s.len(),
{
    let n = s.len() as int;
    let picked = pick(s, perm);
    if n == 0 {
        assert(picked =~= s);
    } else {
        let rest = s.drop_last();
        assert(perm.contains(n - 1));
        let k = choose|k: int| 0 <= k < perm.len() && perm[k] == n - 1;
        let fewer = perm.remove(k);
        assert forall|i: int| 0 <= i < n - 1 implies 0 <= #[trigger] fewer[i] < n - 1 by {
            let j = if i < k {
                i
            } else {
                i + 1
            };
            assert(fewer[i] == perm[j]);
            assert(0 <= perm[j] < n);
            if j < k {
                assert(perm[j] != perm[k]);
            } else {
                assert(perm[k] != perm[j]);
            }
        }
        assert forall|i: int, j: int| 0 <= i < j < n - 1 implies fewer[i] != fewer[j] by {
            let a = if i < k {
                i
            } else {
                i + 1
            };
            let b = if j < k {
                j
            } else {
                j + 1
            };
            assert(perm[a] != perm[b]);
        }
        assert forall|m: int| 0 <= m < n - 1 implies #[trigger] fewer.contains(m) by {
            assert(perm.contains(m));
            let j = choose|j: int| 0 <= j < perm.len() && perm[j] == m;
            if j < k {
                assert(fewer[j] == m);
            } else {
                assert(fewer[j - 1] == m);
            }
        }
        lemma_sum_pick(rest, fewer);
        lemma_sum_remove(picked, k);
        assert forall|i: int| 0 <= i < n - 1 implies picked.remove(k)[i] == pick(rest, fewer)[i] by {
            assert(0 <= fewer[i] < n - 1);
        }
        assert(picked.remove(k) =~= pick(rest, fewer));
    }
}

proof fn lemma_size_at(facts: Seq<FactsView>, j: int)
    requires
        0 <= j < facts.len(),
        forall|a: int, b: int|
            0 <= a < b < facts.len() ==> !same_path(
                (#[trigger] facts[a]).candidate.path,
                (#[trigger] facts[b]).candidate.path,
            ),
    ensures
        size_at(facts, facts[j].candidate.path) == size_or_zero(facts[j]),
    decreases facts.len(),
{
    if j > 0 {
        let rest = facts.skip(1);
        assert(!same_path(facts[0].candidate.path, facts[j].candidate.path));
        assert(rest[j - 1] == facts[j]);
        assert forall|a: int, b: int| 0 <= a < b < rest.len() implies !same_path(
            (#[trigger] rest[a]).candidate.path,
            (#[trigger] rest[b]).candidate.path,
        ) by {
            assert(rest[a] == facts[a + 1] && rest[b] == facts[b + 1]);
        }
        lemma_size_at(rest, j - 1);
    }
}

/// What the report calls reapable is what the plan frees: where no two candidates
/// have the same path, the sizes of the steps add up to the sizes of what is
/// admitted.
pub proof fn plan_frees_what_is_reapable(admitted: Seq<FactsView>, steps: Seq<StepView>)
    requires
        is_plan(admitted, steps),
        forall|a: int, b: int|
            0 <= a < b < admitted.len() ==> !same_path(
                (#[trigger] admitted[a]).candidate.path,
                (#[trigger] admitted[b]).candidate.path,
            ),
    ensures
        sum_of(step_sizes_of(steps, admitted)) == sum_of(sizes_of(admitted)),
{
    let unsorted = steps_of(admitted);
    let perm = choose|perm: Seq<int>|
        arranges(step_paths(unsorted), perm) && steps == #[trigger] pick(unsorted, perm);
    let sizes = sizes_of(admitted);
    assert forall|i: int| 0 <= i < steps.len() implies step_sizes_of(steps, admitted)[i] == pick(
        sizes,
        perm,
    )[i] by {
        let j = perm[i];
        assert(0 <= j < admitted.len());
        lemma_size_at(admitted, j);
        assert(steps[i] == unsorted[j]);
        assert(steps[i].path() == admitted[j].candidate.path);
    }
    assert(step_sizes_of(steps, admitted) =~= pick(sizes, perm));
    lemma_sum_pick(sizes, perm);
}

} // verus!
