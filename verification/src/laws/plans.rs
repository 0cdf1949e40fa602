//! Plans: which steps a selection becomes, in which order, and what is sealed of them.

use crate::digest::{hex_text, sha256_bytes};
use crate::json::{field_of, json_escape, json_escapes, json_text, FieldView};
use crate::model::{FactsView, SafetyView};
use crate::order::{arranges, pick};
use crate::paths::{path_before, same_path};
use crate::plan::{
    described_step, digest_input, identity_text, is_plan, recover_of, sealed, step_json, step_of,
    step_paths, steps_of, Identity, StepView,
};
use crate::text::decimal_text;
use vstd::prelude::*;
use vstd::utf8::encode_utf8;

verus! {

/// A worktree becomes a step that removes it, with the branch that HEAD is on; anything else becomes
/// a step that deletes it, with the hint of its rule. The step is for the candidate's own path.
pub proof fn steps_are_by_class(f: FactsView)
    ensures
        step_of(f).path() == f.candidate.path,
        f.candidate.safety_class is GitWorktree ==> {
            &&& step_of(f) is RemoveWorktree
            &&& f.git is Some && f.git->0.head is Some && f.git->0.head->0 is Attached
                ==> step_of(f)->branch == Some(f.git->0.head->0->branch)
            &&& !(f.git is Some && f.git->0.head is Some && f.git->0.head->0 is Attached)
                ==> step_of(f)->branch is None
        },
        f.candidate.safety_class matches SafetyView::Regenerable { regenerate_hint } ==> step_of(f)
            == (StepView::DeleteDir { path: f.candidate.path, regenerate_hint }),
        f.candidate.safety_class is PackageCache ==> step_of(f) == (StepView::DeleteDir {
            path: f.candidate.path,
            regenerate_hint: None,
        }),
{
}

/// The path of a step is the path that it holds.
pub proof fn path_of_a_step(
    path: Seq<char>,
    branch: Option<Seq<char>>,
    regenerate_hint: Option<Seq<char>>,
)
    ensures
        (StepView::RemoveWorktree { path, branch }).path() == path,
        (StepView::DeleteDir { path, regenerate_hint }).path() == path,
{
}

/// A plan has a step for each candidate that was selected and no other, in the order of their paths.
pub proof fn a_plan_is_the_selection(selected: Seq<FactsView>, steps: Seq<StepView>)
    requires
        is_plan(selected, steps),
    ensures
        steps.len() == selected.len(),
        steps.to_multiset() == Seq::new(
            selected.len(),
            |i: int| step_of(selected[i]),
        ).to_multiset(),
        forall|i: int|
            0 <= i < selected.len() ==> steps.contains(step_of(#[trigger] selected[i])),
        forall|i: int|
            0 <= i < steps.len() ==> exists|j: int|
                0 <= j < selected.len() && #[trigger] steps[i] == step_of(#[trigger] selected[j]),
        forall|i: int, j: int|
            0 <= i < j < steps.len() ==> path_before(
                (#[trigger] steps[i]).path(),
                (#[trigger] steps[j]).path(),
            ) || same_path(steps[i].path(), steps[j].path()),
{
    let all = steps_of(selected);
    let perm = choose|perm: Seq<int>|
        arranges(step_paths(all), perm) && steps == #[trigger] pick(all, perm);
    assert(all =~= Seq::new(selected.len(), |i: int| step_of(selected[i])));
    assert forall|i: int| 0 <= i < selected.len() implies steps.contains(
        step_of(#[trigger] selected[i]),
    ) by {
        assert(perm.contains(i));
        let k = choose|k: int| 0 <= k < perm.len() && perm[k] == i;
        assert(steps[k] == all[i]);
    }
    assert forall|i: int| 0 <= i < steps.len() implies exists|j: int|
        0 <= j < selected.len() && #[trigger] steps[i] == step_of(#[trigger] selected[j]) by {
        assert(0 <= perm[i] < selected.len());
        assert(steps[i] == step_of(selected[perm[i]]));
    }
    assert forall|i: int, j: int| 0 <= i < j < steps.len() implies path_before(
        (#[trigger] steps[i]).path(),
        (#[trigger] steps[j]).path(),
    ) || same_path(steps[i].path(), steps[j].path()) by {
        assert(0 <= perm[i] < selected.len() && 0 <= perm[j] < selected.len());
        assert(step_paths(all)[perm[i]] == steps[i].path());
        assert(step_paths(all)[perm[j]] == steps[j].path());
    }
    lemma_pick_keeps_multiset(all, perm);
}

proof fn lemma_pick_keeps_multiset<T>(s: Seq<T>, perm: Seq<int>)
    requires
        perm.len() == s.len(),
        forall|i: int| 0 <= i < s.len() ==> 0 <= #[trigger] perm[i] < s.len(),
        forall|i: int, j: int| 0 <= i < j < s.len() ==> perm[i] != perm[j],
        forall|k: int| 0 <= k < s.len() ==> #[trigger] perm.contains(k),
    ensures
        pick(s, perm).to_multiset() == s.to_multiset(),
    decreases s.len(),
{
    broadcast use vstd::seq_lib::group_to_multiset_ensures;

    let n = s.len() as int;
    let p = pick(s, perm);
    if n == 0 {
        assert(p =~= s);
    } else {
        // Take the item that comes last in the picked order out of both.
        let k = perm.last();
        let rest = s.remove(k);
        let less = Seq::new(
            (n - 1) as nat,
            |i: int|
                if perm[i] < k {
                    perm[i]
                } else {
                    perm[i] - 1
                },
        );
        assert forall|i: int| 0 <= i < n - 1 implies 0 <= #[trigger] less[i] < n - 1 by {
            assert(perm[i] != perm[n - 1]);
            assert(0 <= perm[i] < n);
        }
        assert forall|i: int, j: int| 0 <= i < j < n - 1 implies less[i] != less[j] by {
            assert(perm[i] != perm[j] && perm[i] != perm[n - 1] && perm[j] != perm[n - 1]);
        }
        assert forall|x: int| 0 <= x < n - 1 implies #[trigger] less.contains(x) by {
            let y = if x < k {
                x
            } else {
                x + 1
            };
            assert(perm.contains(y));
            let i = choose|i: int| 0 <= i < perm.len() && perm[i] == y;
            assert(i < n - 1);
            assert(less[i] == x);
        }
        lemma_pick_keeps_multiset(rest, less);
        assert(pick(rest, less) =~= p.drop_last());
        assert(p =~= p.drop_last().push(s[k]));
        assert(s =~= rest.insert(k, s[k]));
        vstd::seq_lib::to_multiset_insert(rest, k, s[k]);
        vstd::seq_lib::to_multiset_build(p.drop_last(), s[k]);
        assert(p.to_multiset() =~= s.to_multiset());
    }
}

/// What is sealed is what was planned, step by step: each with the identity, the size and the
/// recovery that go with it, as far as there are all of them.
pub proof fn sealed_is_what_was_planned(
    steps: Seq<StepView>,
    bindings: Seq<Option<Identity>>,
    sizes: Seq<u64>,
)
    ensures
        ({
            let plan = sealed(steps, bindings, sizes);
            let n = plan.steps.len();
            &&& n <= steps.len() && n <= bindings.len() && n <= sizes.len()
            &&& n == steps.len() || n == bindings.len() || n == sizes.len()
            &&& plan.digest == "sha256:"@ + hex_text(
                sha256_bytes(digest_input(steps, bindings, n as int)),
            )
            &&& forall|i: int|
                0 <= i < n ==> {
                    &&& (#[trigger] plan.steps[i]).step_json == step_json(steps[i])
                    &&& plan.steps[i].identity == bindings[i]
                    &&& plan.steps[i].size_bytes == sizes[i]
                    &&& plan.steps[i].recover == recover_of(steps[i])
                }
        }),
{
}

/// How to get back what a step removes: a worktree is added again on its branch, anything else is
/// made again as its rule says.
pub proof fn recovery_of_a_step(
    path: Seq<char>,
    branch: Seq<char>,
    regenerate_hint: Option<Seq<char>>,
)
    ensures
        recover_of(StepView::RemoveWorktree { path, branch: Some(branch) }) == Some(
            "git worktree add "@ + path + " "@ + branch,
        ),
        recover_of(StepView::RemoveWorktree { path, branch: None }) is None,
        recover_of(StepView::DeleteDir { path, regenerate_hint }) == regenerate_hint,
{
}

/// The digest is over every step and its binding: one more is their texts after those before.
pub proof fn digest_is_over_every_step(
    steps: Seq<StepView>,
    bindings: Seq<Option<Identity>>,
    n: int,
)
    requires
        0 <= n < steps.len(),
        n < bindings.len(),
    ensures
        digest_input(steps, bindings, 0) == Seq::<u8>::empty(),
        digest_input(steps, bindings, n + 1) == digest_input(steps, bindings, n) + (encode_utf8(
            step_json(steps[n]),
        ) + encode_utf8(identity_text(bindings[n]))),
{
    assert(digest_input(steps, bindings, n + 1) =~= digest_input(steps, bindings, n) + (encode_utf8(
        step_json(steps[n]),
    ) + encode_utf8(identity_text(bindings[n]))));
}

/// How an identity is written for the digest.
pub proof fn identities_are_written(id: Identity)
    ensures
        identity_text(None) == "None"@,
        identity_text(Some(id)) == "Some(Identity { dev: "@ + decimal_text(id.dev as nat)
            + ", ino: "@ + decimal_text(id.ino as nat) + ", mtime_ns: "@ + decimal_text(
            id.mtime_ns as nat,
        ) + " })"@,
{
}

/// How a character stands in a JSON string: a quote and a backslash after a backslash, a control
/// character by its short name or its number, and any other as it is.
pub proof fn characters_are_escaped(c: char)
    ensures
        c == '"' || c == '\\' ==> json_escape(c) == seq!['\\', c],
        c == '\n' ==> json_escape(c) == seq!['\\', 'n'],
        c == '\t' ==> json_escape(c) == seq!['\\', 't'],
        c == '\r' ==> json_escape(c) == seq!['\\', 'r'],
        c == '\u{8}' ==> json_escape(c) == seq!['\\', 'b'],
        c == '\u{c}' ==> json_escape(c) == seq!['\\', 'f'],
        (c as int) >= 0x20 && c != '"' && c != '\\' ==> json_escape(c) == seq![c],
        (c as int) < 0x20 && c != '\n' && c != '\t' && c != '\r' && c != '\u{8}' && c != '\u{c}'
            ==> json_escape(c).len() == 6 && json_escape(c).take(4) == seq!['\\', 'u', '0', '0'],
{
    if json_escape(c).len() == 6 {
        assert(json_escape(c).take(4) =~= seq!['\\', 'u', '0', '0']);
    }
}

/// A JSON string is its characters, each as it stands there, between quotes.
pub proof fn strings_are_quoted(s: Seq<char>, c: char)
    ensures
        json_text(s) == seq!['"'] + json_escapes(s) + seq!['"'],
        json_escapes(seq![]) == Seq::<char>::empty(),
        json_escapes(s.push(c)) == json_escapes(s) + json_escape(c),
{
    assert(s.push(c).drop_last() =~= s);
}

/// A step is described by its tag, its path, and its branch or hint, where `null` and nothing are
/// the same; what else is there does not matter.
pub proof fn steps_are_what_fields_say(
    fields: Seq<(Seq<char>, FieldView)>,
    path: Seq<char>,
    extra: Option<Seq<char>>,
)
    ensures
        described_step(fields) == Some(StepView::RemoveWorktree { path, branch: extra }) <==> {
            &&& field_of(fields, "step"@) == Some(FieldView::Text("remove_worktree"@))
            &&& field_of(fields, "path"@) == Some(FieldView::Text(path))
            &&& extra is Some ==> field_of(fields, "branch"@) == Some(FieldView::Text(extra->0))
            &&& extra is None ==> field_of(fields, "branch"@) is None || field_of(
                fields,
                "branch"@,
            ) == Some(FieldView::Null)
        },
        described_step(fields) == Some(
            StepView::DeleteDir { path, regenerate_hint: extra },
        ) <==> {
            &&& field_of(fields, "step"@) == Some(FieldView::Text("delete_dir"@))
            &&& field_of(fields, "path"@) == Some(FieldView::Text(path))
            &&& extra is Some ==> field_of(fields, "regenerate_hint"@) == Some(
                FieldView::Text(extra->0),
            )
            &&& extra is None ==> field_of(fields, "regenerate_hint"@) is None || field_of(
                fields,
                "regenerate_hint"@,
            ) == Some(FieldView::Null)
        },
{
    reveal_strlit("remove_worktree");
    reveal_strlit("delete_dir");
    assert("remove_worktree"@.len() != "delete_dir"@.len());
}

} // verus!
