//! `plan()` is pure: admitted candidates to an ordered, typed execution plan.
//! It takes `&[Admitted]`, the proof type: a refused candidate cannot reach a
//! plan by construction. The plan is the same under a dry run and an execution.

use crate::classify::{admissible, admitted_worktree_has_a_branch, Admitted};
use crate::digest::{hex_text, is_hex_digit, lemma_hex_digits, sha256_bytes, sha256_hex};
use crate::json::{
    distinct_names, field_of, field_views, find_field, item_views, json_array, json_object_text,
    lemma_field_of_member, member_views, optional_field, optional_text, optional_value, read_array,
    read_member, text_or_null, write_object, FieldView, JsonField, JsonValue, ValueView,
};
use crate::members::{
    name_items, named, object_members, read_members, read_values, values_stand_for_members,
};
use crate::model::{FactsView, HeadState, HeadView, SafetyClass, SafetyView};
use crate::order::{
    arrangement_forgets_order, arranges, permutes, pick, places, sort_by_path, Located,
};
use crate::paths::same_path;
use crate::text::{
    clone_text_option, decimal, decimal_text, lemma_views_push, same_text, str_views, text_option,
    views,
};
use vstd::prelude::*;
use vstd::string::*;
use vstd::utf8::encode_utf8;

verus! {

/// One typed step. The deleter executes these; they are rendered verbatim
/// where the user confirms.
#[derive(Debug, PartialEq, Eq)]
pub enum ReapStep {
    /// Worktree removal: the worktree directory and `.git/worktrees/<name>`.
    RemoveWorktree { path: String, branch: Option<String> },
    /// Rename to a tomb, then drain.
    DeleteDir { path: String, regenerate_hint: Option<String> },
}

/// The view of a [`ReapStep`].
pub enum StepView {
    RemoveWorktree { path: Seq<char>, branch: Option<Seq<char>> },
    DeleteDir { path: Seq<char>, regenerate_hint: Option<Seq<char>> },
}

impl View for ReapStep {
    type V = StepView;

    open spec fn view(&self) -> StepView {
        match *self {
            ReapStep::RemoveWorktree { path, branch } => StepView::RemoveWorktree {
                path: path@,
                branch: text_option(branch),
            },
            ReapStep::DeleteDir { path, regenerate_hint } => StepView::DeleteDir {
                path: path@,
                regenerate_hint: text_option(regenerate_hint),
            },
        }
    }
}

impl StepView {
    /// The directory that the step removes.
    pub open spec fn path(self) -> Seq<char> {
        match self {
            StepView::RemoveWorktree { path, .. } => path,
            StepView::DeleteDir { path, .. } => path,
        }
    }
}

impl Clone for ReapStep {
    fn clone(&self) -> (r: Self)
        ensures
            r@ == self@,
    {
        match self {
            ReapStep::RemoveWorktree { path, branch } => ReapStep::RemoveWorktree {
                path: path.clone(),
                branch: clone_text_option(branch),
            },
            ReapStep::DeleteDir { path, regenerate_hint } => ReapStep::DeleteDir {
                path: path.clone(),
                regenerate_hint: clone_text_option(regenerate_hint),
            },
        }
    }
}

impl ReapStep {
    /// The directory that the step removes.
    pub fn path(&self) -> (r: &String)
        ensures
            r@ == self@.path(),
    {
        match self {
            ReapStep::RemoveWorktree { path, .. } => path,
            ReapStep::DeleteDir { path, .. } => path,
        }
    }
}

impl Located for ReapStep {
    open spec fn place(&self) -> Seq<char> {
        self@.path()
    }

    fn place_text(&self) -> (r: &str) {
        self.path().as_str()
    }
}

/// An ordered list of steps.
#[derive(Debug, PartialEq, Eq)]
pub struct ReapPlan {
    pub steps: Vec<ReapStep>,
}

/// The branch that HEAD is on.
pub open spec fn branch_of(f: FactsView) -> Option<Seq<char>> {
    match f.git {
        Some(g) => match g.head {
            Some(HeadView::Attached { branch }) => Some(branch),
            _ => None,
        },
        None => None,
    }
}

/// The step that reaps a candidate.
pub open spec fn step_of(f: FactsView) -> StepView {
    let path = f.candidate.path;
    match f.candidate.safety_class {
        SafetyView::GitWorktree => StepView::RemoveWorktree { path, branch: branch_of(f) },
        SafetyView::Regenerable { regenerate_hint } => StepView::DeleteDir {
            path,
            regenerate_hint,
        },
        SafetyView::PackageCache => StepView::DeleteDir { path, regenerate_hint: None },
    }
}

/// The steps that reap a selection, in its order.
pub open spec fn steps_of(selected: Seq<FactsView>) -> Seq<StepView> {
    Seq::new(selected.len(), |i: int| step_of(selected[i]))
}

/// The paths of a list of steps.
pub open spec fn step_paths(steps: Seq<StepView>) -> Seq<Seq<char>> {
    Seq::new(steps.len(), |i: int| steps[i].path())
}

/// `steps` is the plan for a selection: its steps, ordered by path, the steps
/// of one path in the order of the selection.
pub open spec fn is_plan(selected: Seq<FactsView>, steps: Seq<StepView>) -> bool {
    exists|perm: Seq<int>|
        arranges(step_paths(steps_of(selected)), perm) && steps == #[trigger] pick(
            steps_of(selected),
            perm,
        )
}

fn step_for(admitted: &Admitted) -> (r: ReapStep)
    ensures
        r@ == step_of(admitted@),
{
    let facts = admitted.facts();
    let path = facts.candidate.path.clone();
    match &facts.candidate.safety_class {
        SafetyClass::GitWorktree => {
            let branch = match &facts.git {
                Some(git) => match &git.head {
                    Some(HeadState::Attached { branch }) => Some(branch.clone()),
                    Some(HeadState::Detached { .. }) => None,
                    None => None,
                },
                None => None,
            };
            ReapStep::RemoveWorktree { path, branch }
        },
        SafetyClass::Regenerable { regenerate_hint } => ReapStep::DeleteDir {
            path,
            regenerate_hint: clone_text_option(regenerate_hint),
        },
        // A new class does not compile until it states its reap primitive here.
        SafetyClass::PackageCache => ReapStep::DeleteDir { path, regenerate_hint: None },
    }
}

/// Deterministic: steps are ordered by path, independent of input order, so
/// that the same selection always digests to the same plan.
pub fn plan(selected: &[Admitted]) -> (r: ReapPlan)
    ensures
        is_plan(views(selected@), views(r.steps@)),
{
    let ghost facts = views(selected@);
    let mut steps: Vec<ReapStep> = Vec::new();
    for i in 0..selected.len()
        invariant
            facts == views(selected@),
            views(steps@) == steps_of(facts).take(i as int),
    {
        broadcast use lemma_views_push;

        steps.push(step_for(&selected[i]));
        assert(views(steps@) =~= steps_of(facts).take(i + 1));
    }
    let ghost unsorted = steps@;
    assert(views(unsorted) =~= steps_of(facts));
    sort_by_path(&mut steps);
    proof {
        let perm = choose|perm: Seq<int>|
            arranges(places(unsorted), perm) && steps@ == #[trigger] pick(unsorted, perm);
        assert(places(unsorted) =~= step_paths(steps_of(facts))) by {
            assert forall|i: int| 0 <= i < unsorted.len() implies unsorted[i].place() == (
            #[trigger] steps_of(facts)[i]).path() by {
                assert(views(unsorted)[i] == unsorted[i]@);
            }
        }
        assert forall|i: int| 0 <= i < perm.len() implies views(steps@)[i] == pick(
            steps_of(facts),
            perm,
        )[i] by {
            assert(0 <= perm[i] < unsorted.len());
            assert(views(unsorted)[perm[i]] == unsorted[perm[i]]@);
        }
        assert(views(steps@) =~= pick(steps_of(facts), perm));
    }
    ReapPlan { steps }
}

/// What a plan removes of git can be had back: a worktree that was admitted is
/// on a branch, and its step says how to add it again.
pub proof fn planned_worktree_is_recoverable(f: FactsView)
    requires
        admissible(f),
        f.candidate.safety_class is GitWorktree,
    ensures
        step_of(f) is RemoveWorktree,
        recover_of(step_of(f)) is Some,
{
    admitted_worktree_has_a_branch(f);
}

/// The plan does not depend on the order of the selection: two orders of one
/// selection, in which no two candidates have the same path, give one plan.
pub proof fn plan_forgets_order(
    selected: Seq<FactsView>,
    shuffle: Seq<int>,
    one: Seq<StepView>,
    two: Seq<StepView>,
)
    requires
        permutes(selected.len(), shuffle),
        forall|i: int, j: int|
            0 <= i < j < selected.len() ==> !same_path(
                (#[trigger] selected[i]).candidate.path,
                (#[trigger] selected[j]).candidate.path,
            ),
        is_plan(selected, one),
        is_plan(pick(selected, shuffle), two),
    ensures
        one == two,
{
    let steps = steps_of(selected);
    let paths = step_paths(steps);
    let shuffled = steps_of(pick(selected, shuffle));
    let p = choose|p: Seq<int>| arranges(paths, p) && one == #[trigger] pick(steps, p);
    let q = choose|q: Seq<int>|
        arranges(step_paths(shuffled), q) && two == #[trigger] pick(shuffled, q);
    assert(step_paths(shuffled) =~= pick(paths, shuffle)) by {
        assert forall|i: int| 0 <= i < selected.len() implies step_paths(shuffled)[i] == pick(
            paths,
            shuffle,
        )[i] by {
            assert(0 <= shuffle[i] < selected.len());
            assert(shuffled[i] == steps[shuffle[i]]);
        }
    }
    assert forall|i: int, j: int| 0 <= i < j < paths.len() implies !same_path(
        #[trigger] paths[i],
        #[trigger] paths[j],
    ) by {
        assert(!same_path(selected[i].candidate.path, selected[j].candidate.path));
        assert(paths[i] == selected[i].candidate.path && paths[j] == selected[j].candidate.path);
    }
    arrangement_forgets_order(paths, shuffle, p, q);
    assert forall|i: int| 0 <= i < p.len() implies one[i] == two[i] by {
        assert(p[i] == shuffle[q[i]]);
        assert(0 <= q[i] < selected.len());
        assert(0 <= shuffle[q[i]] < selected.len());
        assert(shuffled[q[i]] == steps[shuffle[q[i]]]);
    }
    assert(one =~= two);
}

/// The identity a step is bound to. Three components, not two: inode numbers
/// are reused promptly, and a swapped directory necessarily carries a new
/// mtime. A legitimate top-level mtime change also refuses: fail closed, scan
/// again.
#[derive(Debug, Clone, Copy, PartialEq, Eq, Structural)]
pub struct Identity {
    pub dev: u64,
    pub ino: u64,
    pub mtime_ns: u64,
}

/// A step bound to the identity of the directory it was planned against: a
/// path swapped after planning fails the identity match and refuses. A `None`
/// binding means that the identity could not be established; the deleter then
/// goes by the live-process sweep, or refuses.
#[derive(Debug, PartialEq, Eq)]
pub struct BoundStep {
    /// The canonical text of the step (digest input).
    pub step_json: String,
    pub identity: Option<Identity>,
    pub size_bytes: u64,
    pub recover: Option<String>,
}

/// The view of a [`BoundStep`].
pub struct BoundView {
    pub step_json: Seq<char>,
    pub identity: Option<Identity>,
    pub size_bytes: u64,
    pub recover: Option<Seq<char>>,
}

impl View for BoundStep {
    type V = BoundView;

    open spec fn view(&self) -> BoundView {
        BoundView {
            step_json: self.step_json@,
            identity: self.identity,
            size_bytes: self.size_bytes,
            recover: text_option(self.recover),
        }
    }
}

/// Blast-radius guard and binding in one value: an execution binds to this
/// digest, and verifies the plan, never the tree.
#[derive(Debug, PartialEq, Eq)]
pub struct SealedPlan {
    pub digest: String,
    pub steps: Vec<BoundStep>,
}

/// The view of a [`SealedPlan`].
pub struct SealedView {
    pub digest: Seq<char>,
    pub steps: Seq<BoundView>,
}

impl View for SealedPlan {
    type V = SealedView;

    open spec fn view(&self) -> SealedView {
        SealedView { digest: self.digest@, steps: views(self.steps@) }
    }
}

impl Clone for ReapPlan {
    fn clone(&self) -> (r: Self)
        ensures
            views(r.steps@) == views(self.steps@),
    {
        let ghost all = views(self.steps@);
        let mut steps: Vec<ReapStep> = Vec::new();
        for i in 0..self.steps.len()
            invariant
                all == views(self.steps@),
                views(steps@) == all.take(i as int),
        {
            broadcast use lemma_views_push;

            steps.push(self.steps[i].clone());
            assert(views(steps@) =~= all.take(i + 1));
        }
        assert(views(steps@) =~= all);
        ReapPlan { steps }
    }
}

impl Clone for BoundStep {
    fn clone(&self) -> (r: Self)
        ensures
            r@ == self@,
    {
        BoundStep {
            step_json: self.step_json.clone(),
            identity: self.identity,
            size_bytes: self.size_bytes,
            recover: clone_text_option(&self.recover),
        }
    }
}

impl Clone for SealedPlan {
    fn clone(&self) -> (r: Self)
        ensures
            r@ == self@,
    {
        let ghost all = views(self.steps@);
        let mut steps: Vec<BoundStep> = Vec::new();
        for i in 0..self.steps.len()
            invariant
                all == views(self.steps@),
                views(steps@) == all.take(i as int),
        {
            broadcast use lemma_views_push;

            steps.push(self.steps[i].clone());
            assert(views(steps@) =~= all.take(i + 1));
        }
        assert(views(steps@) =~= all);
        SealedPlan { digest: self.digest.clone(), steps }
    }
}

/// The members of the canonical text of a step.
pub open spec fn step_members(step: StepView) -> Seq<(Seq<char>, ValueView)> {
    match step {
        StepView::RemoveWorktree { path, branch } => seq![
            ("step"@, ValueView::Text("remove_worktree"@)),
            ("path"@, ValueView::Text(path)),
            ("branch"@, text_or_null(branch)),
        ],
        StepView::DeleteDir { path, regenerate_hint } => seq![
            ("step"@, ValueView::Text("delete_dir"@)),
            ("path"@, ValueView::Text(path)),
            ("regenerate_hint"@, text_or_null(regenerate_hint)),
        ],
    }
}

/// The canonical text of a step: a JSON object.
pub open spec fn step_json(step: StepView) -> Seq<char> {
    json_object_text(step_members(step))
}

/// An identity binding as the digest takes it.
pub open spec fn identity_text(identity: Option<Identity>) -> Seq<char> {
    match identity {
        None => "None"@,
        Some(id) => "Some(Identity { dev: "@ + decimal_text(id.dev as nat) + ", ino: "@
            + decimal_text(id.ino as nat) + ", mtime_ns: "@ + decimal_text(id.mtime_ns as nat)
            + " })"@,
    }
}

/// How to get back what a step removes.
pub open spec fn recover_of(step: StepView) -> Option<Seq<char>> {
    match step {
        StepView::DeleteDir { regenerate_hint, .. } => regenerate_hint,
        StepView::RemoveWorktree { path, branch } => match branch {
            Some(branch) => Some("git worktree add "@ + path + " "@ + branch),
            None => None,
        },
    }
}

/// The number of steps that have both a binding and a size.
pub open spec fn sealed_len(
    steps: Seq<StepView>,
    bindings: Seq<Option<Identity>>,
    sizes: Seq<u64>,
) -> int {
    let least = if bindings.len() <= sizes.len() {
        bindings.len() as int
    } else {
        sizes.len() as int
    };
    if steps.len() <= least {
        steps.len() as int
    } else {
        least
    }
}

/// The bytes that the digest of the first `n` steps is taken over.
pub open spec fn digest_input(
    steps: Seq<StepView>,
    bindings: Seq<Option<Identity>>,
    n: int,
) -> Seq<u8>
    decreases n,
{
    if n <= 0 {
        seq![]
    } else {
        digest_input(steps, bindings, n - 1) + encode_utf8(step_json(steps[n - 1])) + encode_utf8(
            identity_text(bindings[n - 1]),
        )
    }
}

/// The text of a digest: what names the algorithm, and 64 lower-case hexadecimal
/// digits.
pub open spec fn is_digest(s: Seq<char>) -> bool {
    &&& s.len() == 71
    &&& s.take(7) == "sha256:"@
    &&& forall|i: int| 7 <= i < 71 ==> is_hex_digit(#[trigger] s[i])
}

/// The sealed plan for these steps, bindings and sizes, as far as each has one.
pub open spec fn sealed(
    steps: Seq<StepView>,
    bindings: Seq<Option<Identity>>,
    sizes: Seq<u64>,
) -> SealedView {
    let n = sealed_len(steps, bindings, sizes);
    SealedView {
        digest: "sha256:"@ + hex_text(sha256_bytes(digest_input(steps, bindings, n))),
        steps: Seq::new(
            n as nat,
            |i: int|
                BoundView {
                    step_json: step_json(steps[i]),
                    identity: bindings[i],
                    size_bytes: sizes[i],
                    recover: recover_of(steps[i]),
                },
        ),
    }
}

/// The canonical text of a step.
pub fn canonical_step(step: &ReapStep) -> (r: String)
    ensures
        r@ == step_json(step@),
{
    match step {
        ReapStep::RemoveWorktree { path, branch } => {
            let members = [
                ("step", JsonValue::Text("remove_worktree")),
                ("path", JsonValue::Text(path.as_str())),
                ("branch", optional_value(branch)),
            ];
            assert(member_views(members@) =~= step_members(step@));
            write_object(&members)
        },
        ReapStep::DeleteDir { path, regenerate_hint } => {
            let members = [
                ("step", JsonValue::Text("delete_dir")),
                ("path", JsonValue::Text(path.as_str())),
                ("regenerate_hint", optional_value(regenerate_hint)),
            ];
            assert(member_views(members@) =~= step_members(step@));
            write_object(&members)
        },
    }
}

/// An identity binding as the digest takes it.
pub fn describe_identity(identity: &Option<Identity>) -> (r: String)
    ensures
        r@ == identity_text(*identity),
{
    match identity {
        None => "None".to_owned(),
        Some(id) => {
            let mut out = "Some(Identity { dev: ".to_owned();
            out.append(decimal(id.dev).as_str());
            out.append(", ino: ");
            out.append(decimal(id.ino).as_str());
            out.append(", mtime_ns: ");
            out.append(decimal(id.mtime_ns).as_str());
            out.append(" })");
            out
        },
    }
}

fn recovery(step: &ReapStep) -> (r: Option<String>)
    ensures
        text_option(r) == recover_of(step@),
{
    match step {
        ReapStep::DeleteDir { regenerate_hint, .. } => clone_text_option(regenerate_hint),
        ReapStep::RemoveWorktree { path, branch } => match branch {
            Some(branch) => {
                let mut out = "git worktree add ".to_owned();
                out.append(path.as_str());
                out.append(" ");
                out.append(branch.as_str());
                Some(out)
            },
            None => None,
        },
    }
}

/// Seals a plan with per-step identity bindings. Deterministic: the same steps
/// and bindings give the same digest, independent of everything else.
pub fn seal(plan: &ReapPlan, bindings: &[Option<Identity>], sizes: &[u64]) -> (r: SealedPlan)
    ensures
        r@ == sealed(views(plan.steps@), bindings@, sizes@),
        is_digest(r@.digest),
{
    let ghost all = views(plan.steps@);
    let mut steps: Vec<BoundStep> = Vec::new();
    let mut input: Vec<u8> = Vec::new();
    let mut i: usize = 0;
    while i < plan.steps.len() && i < bindings.len() && i < sizes.len()
        invariant
            all == views(plan.steps@),
            i <= sealed_len(all, bindings@, sizes@),
            steps@.len() == i,
            forall|j: int|
                0 <= j < i ==> (#[trigger] views(steps@)[j]) == sealed(all, bindings@, sizes@).steps[j],
            input@ == digest_input(all, bindings@, i as int),
        decreases plan.steps@.len() - i,
    {
        broadcast use lemma_views_push;

        let ghost before = views(steps@);
        let step = &plan.steps[i];
        let text = canonical_step(step);
        let binding = describe_identity(&bindings[i]);
        input.extend_from_slice(text.as_str().as_bytes());
        input.extend_from_slice(binding.as_str().as_bytes());
        steps.push(
            BoundStep {
                step_json: text,
                identity: bindings[i],
                size_bytes: sizes[i],
                recover: recovery(step),
            },
        );
        proof {
            assert(all[i as int] == step@);
            assert forall|j: int| 0 <= j < i + 1 implies (#[trigger] views(steps@)[j]) == sealed(
                all,
                bindings@,
                sizes@,
            ).steps[j] by {
                if j < i {
                    assert(views(steps@)[j] == before[j]);
                }
            }
            assert(input@ =~= digest_input(all, bindings@, i + 1));
        }
        i += 1;
    }
    let mut digest = "sha256:".to_owned();
    digest.append(sha256_hex(input.as_slice()).as_str());
    proof {
        assert(views(steps@) =~= sealed(all, bindings@, sizes@).steps);
        reveal_strlit("sha256:");
        lemma_hex_digits(sha256_bytes(input@));
        let hex = hex_text(sha256_bytes(input@));
        assert(digest@.take(7) =~= "sha256:"@);
        assert forall|i: int| 7 <= i < 71 implies is_hex_digit(#[trigger] digest@[i]) by {
            assert(digest@[i] == hex[i - 7]);
        }
    }
    SealedPlan { digest, steps }
}

/// The digest is that of the steps and their bindings alone: the sizes do not
/// enter it.
pub proof fn digest_ignores_sizes(
    steps: Seq<StepView>,
    bindings: Seq<Option<Identity>>,
    one: Seq<u64>,
    two: Seq<u64>,
)
    requires
        one.len() == two.len(),
    ensures
        sealed(steps, bindings, one).digest == sealed(steps, bindings, two).digest,
{
}

/// The step that the members of a JSON object describe: the `step` member says
/// which, `path` is required, members of other names do not matter.
pub open spec fn described_step(fields: Seq<(Seq<char>, FieldView)>) -> Option<StepView> {
    match (field_of(fields, "step"@), field_of(fields, "path"@)) {
        (Some(FieldView::Text(tag)), Some(FieldView::Text(path))) => {
            if tag == "remove_worktree"@ {
                match optional_text(field_of(fields, "branch"@)) {
                    Some(branch) => Some(StepView::RemoveWorktree { path, branch }),
                    None => None,
                }
            } else if tag == "delete_dir"@ {
                match optional_text(field_of(fields, "regenerate_hint"@)) {
                    Some(regenerate_hint) => Some(StepView::DeleteDir { path, regenerate_hint }),
                    None => None,
                }
            } else {
                None
            }
        },
        _ => None,
    }
}

/// The names of the members of a step, in order.
pub open spec fn step_names(tag: Seq<char>) -> Option<Seq<Seq<char>>> {
    if tag == "remove_worktree"@ {
        Some(seq!["step"@, "path"@, "branch"@])
    } else if tag == "delete_dir"@ {
        Some(seq!["step"@, "path"@, "regenerate_hint"@])
    } else {
        None
    }
}

/// The step that the items of a JSON array describe: the first says which, and the
/// others are all its members, in order.
pub open spec fn listed_step(items: Seq<FieldView>) -> Option<StepView> {
    if items.len() == 0 {
        None
    } else {
        match items[0] {
            FieldView::Text(tag) => match step_names(tag) {
                Some(names) => match named(items, names) {
                    Some(fields) => described_step(fields),
                    None => None,
                },
                None => None,
            },
            _ => None,
        }
    }
}

/// The step that a JSON text describes, by an object or by an array.
pub open spec fn parsed_step(text: Seq<char>) -> Option<StepView> {
    match object_members(text) {
        Some(fields) => described_step(fields),
        None => match json_array(text) {
            Some(items) => listed_step(items),
            None => None,
        },
    }
}

/// The step that the members of a JSON object describe.
pub fn describe_step(fields: &[(String, JsonField)]) -> (r: Option<ReapStep>)
    ensures
        r is Some <==> described_step(field_views(fields@)) is Some,
        r matches Some(step) ==> described_step(field_views(fields@)) == Some(step@),
{
    let tag = match find_field(fields, "step") {
        Some(JsonField::Text(tag)) => tag,
        _ => return None,
    };
    let path = match find_field(fields, "path") {
        Some(JsonField::Text(path)) => path,
        _ => return None,
    };
    proof {
        reveal_strlit("remove_worktree");
        reveal_strlit("delete_dir");
    }
    if same_text(tag.as_str(), "remove_worktree") {
        match optional_field(find_field(fields, "branch")) {
            Some(branch) => Some(ReapStep::RemoveWorktree { path: path.clone(), branch }),
            None => None,
        }
    } else if same_text(tag.as_str(), "delete_dir") {
        match optional_field(find_field(fields, "regenerate_hint")) {
            Some(regenerate_hint) => Some(
                ReapStep::DeleteDir { path: path.clone(), regenerate_hint },
            ),
            None => None,
        }
    } else {
        None
    }
}

fn names_of_step(tag: &str) -> (r: Option<Vec<&'static str>>)
    ensures
        r is Some <==> step_names(tag@) is Some,
        r matches Some(names) ==> step_names(tag@) == Some(str_views(names@)),
{
    if same_text(tag, "remove_worktree") {
        let names = vec!["step", "path", "branch"];
        assert(str_views(names@) =~= step_names(tag@)->0);
        Some(names)
    } else if same_text(tag, "delete_dir") {
        let names = vec!["step", "path", "regenerate_hint"];
        assert(str_views(names@) =~= step_names(tag@)->0);
        Some(names)
    } else {
        None
    }
}

/// The step that the items of a JSON array describe.
pub fn list_step(items: Vec<JsonField>) -> (r: Option<ReapStep>)
    ensures
        r is Some <==> listed_step(item_views(items@)) is Some,
        r matches Some(step) ==> listed_step(item_views(items@)) == Some(step@),
{
    if items.len() == 0 {
        return None;
    }
    let names = match &items[0] {
        JsonField::Text(tag) => names_of_step(tag.as_str()),
        _ => return None,
    };
    match names {
        Some(names) => match name_items(items, names.as_slice()) {
            Some(fields) => describe_step(fields.as_slice()),
            None => None,
        },
        None => None,
    }
}

/// A step that is listed, value by value in the order in which it is written, reads
/// back.
pub proof fn listed_step_reads_back(step: StepView)
    ensures
        listed_step(read_values(step_members(step))) == Some(step),
{
    reveal_strlit("remove_worktree");
    reveal_strlit("delete_dir");
    assert("remove_worktree"@.len() != "delete_dir"@.len());
    let members = step_members(step);
    let items = read_values(members);
    lemma_member_names(step);
    let names = step_names(items[0]->Text_0)->0;
    assert(names.len() == members.len());
    assert forall|i: int| 0 <= i < names.len() implies (#[trigger] names[i]) == members[i].0 by {}
    values_stand_for_members(members, names);
    lemma_members_describe(step, named(items, names)->0);
}

/// The members of a step's canonical text describe that step.
proof fn lemma_members_describe(step: StepView, fields: Seq<(Seq<char>, FieldView)>)
    requires
        distinct_names(fields),
        forall|i: int|
            0 <= i < 3 ==> fields.contains(read_member(#[trigger] step_members(step)[i])),
    ensures
        described_step(fields) == Some(step),
{
    reveal_strlit("remove_worktree");
    reveal_strlit("delete_dir");
    assert("remove_worktree"@.len() != "delete_dir"@.len());
    let members = step_members(step);
    let tag = read_member(members[0]);
    let path = read_member(members[1]);
    let extra = read_member(members[2]);
    lemma_field_of_member(fields, tag.0, tag.1);
    lemma_field_of_member(fields, path.0, path.1);
    lemma_field_of_member(fields, extra.0, extra.1);
}

proof fn lemma_member_names(step: StepView)
    ensures
        distinct_names(step_members(step)),
{
    reveal_strlit("step");
    reveal_strlit("path");
    reveal_strlit("branch");
    reveal_strlit("regenerate_hint");
    assert("step"@[0] == 's');
    assert("path"@[0] == 'p');
}

impl BoundStep {
    /// The step that was bound. A sealed text reads back as the step that was
    /// sealed.
    pub fn step(&self) -> (r: ReapStep)
        requires
            parsed_step(self.step_json@) is Some,
        ensures
            parsed_step(self.step_json@) == Some(r@),
            forall|step: StepView| self.step_json@ == #[trigger] step_json(step) ==> r@ == step,
    {
        self.parse_step().unwrap()
    }

    /// The step that was bound, or `None` where the text describes no step. A
    /// sealed text reads back as the step that was sealed.
    pub fn try_step(&self) -> (r: Option<ReapStep>)
        ensures
            r is Some <==> parsed_step(self.step_json@) is Some,
            r matches Some(step) ==> parsed_step(self.step_json@) == Some(step@),
            forall|step: StepView|
                self.step_json@ == #[trigger] step_json(step) ==> (r matches Some(read)
                    && read@ == step),
    {
        match self.parse_step() {
            Some(_) => Some(self.step()),
            None => None,
        }
    }

    fn parse_step(&self) -> (r: Option<ReapStep>)
        ensures
            r is Some <==> parsed_step(self.step_json@) is Some,
            r matches Some(step) ==> parsed_step(self.step_json@) == Some(step@),
            forall|step: StepView|
                self.step_json@ == #[trigger] step_json(step) ==> (r matches Some(read)
                    && read@ == step),
    {
        let fields = match read_members(self.step_json.as_str()) {
            Some(fields) => fields,
            None => {
                proof {
                    assert forall|step: StepView| self.step_json@ == #[trigger] step_json(
                        step,
                    ) implies false by {
                        lemma_member_names(step);
                        assert(self.step_json@ == json_object_text(step_members(step)));
                    }
                }
                return match read_array(self.step_json.as_str()) {
                    Some(items) => list_step(items),
                    None => None,
                };
            },
        };
        proof {
            let views = field_views(fields@);
            assert forall|step: StepView| self.step_json@ == #[trigger] step_json(
                step,
            ) implies described_step(views) == Some(step) by {
                lemma_member_names(step);
                assert(self.step_json@ == json_object_text(step_members(step)));
                lemma_members_describe(step, views);
            }
        }
        describe_step(fields.as_slice())
    }
}

} // verus!
