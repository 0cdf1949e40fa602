//! Logs: what is left to drain, and what recovery is printed.

use crate::deleter::OutcomeView;
use crate::manifest::{
    described_event, drained_record, event_members, parsed_event, parsed_events, pending_tombs,
    undrained_tomb_stays_pending, without_tomb, ManifestView,
};
use crate::json::{field_of, text_or_null, FieldView, ValueView};
use crate::paths::{path_components, path_join};
use crate::plan::{BoundView, SealedView};
use crate::reap::{
    digest_of, dry_run_summary, dry_run_text, exit_of, freed_each, freed_of, interruption_count,
    is_log, is_meant, is_readable, meant_files, meant_log, outcome_text, picked_plan,
    planned_sizes, recovery_texts, refusal_count,
};
use crate::sizes::{human_text, sum_of};
use crate::state::{linux_state, mac_state, state_at};
use crate::text::{decimal_text, text_starts_with};
use vstd::prelude::*;

verus! {

/// A tomb is left to drain exactly where it was made and no drain of it is on record after that;
/// with the size that was written down.
pub proof fn what_is_pending(events: Seq<ManifestView>, tomb: Seq<char>, size: u64)
    ensures
        pending_tombs(events).contains((tomb, size)) <==> exists|k: int|
            0 <= k < events.len() && (#[trigger] events[k] matches ManifestView::Tombed {
                tomb: t,
                size_bytes: s,
                ..
            } && t == tomb && s == size) && forall|j: int|
                k < j < events.len() ==> !(#[trigger] events[j] matches ManifestView::Drained {
                    tomb: t,
                    ..
                } && path_components(t) == path_components(tomb)),
    decreases events.len(),
{
    if exists|k: int|
        0 <= k < events.len() && (#[trigger] events[k] matches ManifestView::Tombed {
            tomb: t,
            size_bytes: s,
            ..
        } && t == tomb && s == size) && forall|j: int|
            k < j < events.len() ==> !(#[trigger] events[j] matches ManifestView::Drained {
                tomb: t,
                ..
            } && path_components(t) == path_components(tomb)) {
        let k = choose|k: int|
            0 <= k < events.len() && (#[trigger] events[k] matches ManifestView::Tombed {
                tomb: t,
                size_bytes: s,
                ..
            } && t == tomb && s == size) && forall|j: int|
                k < j < events.len() ==> !(#[trigger] events[j] matches ManifestView::Drained {
                    tomb: t,
                    ..
                } && path_components(t) == path_components(tomb));
        undrained_tomb_stays_pending(events, k, tomb, size);
    }
    if pending_tombs(events).contains((tomb, size)) {
        lemma_pending_was_made(events, tomb, size);
    }
}

proof fn lemma_pending_was_made(events: Seq<ManifestView>, tomb: Seq<char>, size: u64) -> (k: int)
    requires
        pending_tombs(events).contains((tomb, size)),
    ensures
        0 <= k < events.len(),
        events[k] matches ManifestView::Tombed { tomb: t, size_bytes: s, .. } && t == tomb && s
            == size,
        forall|j: int|
            k < j < events.len() ==> !(#[trigger] events[j] matches ManifestView::Drained {
                tomb: t,
                ..
            } && path_components(t) == path_components(tomb)),
    decreases events.len(),
{
    let all = pending_tombs(events);
    let i = choose|i: int| 0 <= i < all.len() && all[i] == (tomb, size);
    let before = events.drop_last();
    let n = before.len() as int;
    let earlier = pending_tombs(before);
    match events.last() {
        ManifestView::Tombed { tomb: t, size_bytes: s, .. } => {
            if i == earlier.len() {
                n
            } else {
                assert(earlier[i] == (tomb, size));
                let k = lemma_pending_was_made(before, tomb, size);
                assert forall|j: int| k < j < events.len() implies !(
                #[trigger] events[j] matches ManifestView::Drained { tomb: t, .. }
                    && path_components(t) == path_components(tomb)) by {
                    if j < n {
                        assert(events[j] == before[j]);
                    }
                }
                k
            }
        },
        ManifestView::Drained { tomb: t, .. } => {
            lemma_without(earlier, t, (tomb, size));
            let k = lemma_pending_was_made(before, tomb, size);
            assert forall|j: int| k < j < events.len() implies !(
            #[trigger] events[j] matches ManifestView::Drained { tomb: t, .. } && path_components(t)
                == path_components(tomb)) by {
                if j < n {
                    assert(events[j] == before[j]);
                }
            }
            k
        },
        _ => {
            let k = lemma_pending_was_made(before, tomb, size);
            assert forall|j: int| k < j < events.len() implies !(
            #[trigger] events[j] matches ManifestView::Drained { tomb: t, .. } && path_components(t)
                == path_components(tomb)) by {
                if j < n {
                    assert(events[j] == before[j]);
                }
            }
            k
        },
    }
}

proof fn lemma_without(tombs: Seq<(Seq<char>, u64)>, tomb: Seq<char>, kept: (Seq<char>, u64))
    requires
        without_tomb(tombs, tomb).contains(kept),
    ensures
        tombs.contains(kept),
        path_components(kept.0) != path_components(tomb),
    decreases tombs.len(),
{
    let all = without_tomb(tombs, tomb);
    let i = choose|i: int| 0 <= i < all.len() && all[i] == kept;
    if tombs.len() > 0 {
        let before = tombs.drop_last();
        let rest = without_tomb(before, tomb);
        if i < rest.len() {
            assert(rest[i] == kept);
            lemma_without(before, tomb, kept);
            let k = choose|k: int| 0 <= k < before.len() && before[k] == kept;
            assert(tombs[k] == kept);
        } else {
            assert(tombs[tombs.len() - 1] == kept);
        }
    }
}

/// A tomb that is made comes last of those that are left to drain, once more even where it was
/// made before; a drain takes away those of its path, and leaves the others in order; nothing else
/// changes what is left.
pub proof fn events_change_what_is_pending(events: Seq<ManifestView>, e: ManifestView)
    ensures
        ({
            let before = pending_tombs(events);
            let after = pending_tombs(events.push(e));
            &&& e matches ManifestView::Tombed { tomb, size_bytes, .. } ==> after == before.push(
                (tomb, size_bytes),
            )
            &&& e matches ManifestView::Drained { tomb, .. } ==> after == before.filter(
                |t: (Seq<char>, u64)| path_components(t.0) != path_components(tomb),
            )
            &&& !(e is Tombed) && !(e is Drained) ==> after == before
        }),
        pending_tombs(seq![]).len() == 0,
{
    assert(events.push(e).drop_last() =~= events);
    if let ManifestView::Drained { tomb, .. } = e {
        lemma_without_is_a_filter(pending_tombs(events), tomb);
    }
}

proof fn lemma_without_is_a_filter(tombs: Seq<(Seq<char>, u64)>, tomb: Seq<char>)
    ensures
        without_tomb(tombs, tomb) == tombs.filter(
            |t: (Seq<char>, u64)| path_components(t.0) != path_components(tomb),
        ),
    decreases tombs.len(),
{
    reveal(Seq::filter);
    if tombs.len() > 0 {
        lemma_without_is_a_filter(tombs.drop_last(), tomb);
    }
    assert(without_tomb(tombs, tomb) =~= tombs.filter(
        |t: (Seq<char>, u64)| path_components(t.0) != path_components(tomb),
    ));
}

/// The record of a drain names the tomb and its size.
pub proof fn drains_are_recorded(tomb: Seq<char>, size: u64)
    ensures
        drained_record((tomb, size)) == (ManifestView::Drained { tomb, freed_bytes: size }),
{
}

/// A log is read line by line, in order: what is no event is passed over.
pub proof fn logs_are_read_line_by_line(lines: Seq<Seq<char>>, line: Seq<char>)
    ensures
        parsed_events(seq![]).len() == 0,
        parsed_event(line) matches Some(e) ==> parsed_events(lines.push(line)) == parsed_events(
            lines,
        ).push(e),
        parsed_event(line) is None ==> parsed_events(lines.push(line)) == parsed_events(lines),
{
    assert(lines.push(line).drop_last() =~= lines);
}

/// What is written of an event: which it is, and all that it holds, each under its name.
pub proof fn events_are_written(
    digest: Seq<char>,
    path: Seq<char>,
    tomb: Seq<char>,
    recover: Option<Seq<char>>,
    why: Seq<char>,
    size: u64,
)
    ensures
        event_members(ManifestView::Planned { digest }) == seq![
            ("event"@, ValueView::Text("planned"@)),
            ("digest"@, ValueView::Text(digest)),
        ],
        event_members(ManifestView::Tombed { path, tomb, recover, size_bytes: size }) == seq![
            ("event"@, ValueView::Text("tombed"@)),
            ("path"@, ValueView::Text(path)),
            ("tomb"@, ValueView::Text(tomb)),
            ("recover"@, text_or_null(recover)),
            ("size_bytes"@, ValueView::Number(size)),
        ],
        event_members(ManifestView::Drained { tomb, freed_bytes: size }) == seq![
            ("event"@, ValueView::Text("drained"@)),
            ("tomb"@, ValueView::Text(tomb)),
            ("freed_bytes"@, ValueView::Number(size)),
        ],
        event_members(ManifestView::Refused { path, why }) == seq![
            ("event"@, ValueView::Text("refused"@)),
            ("path"@, ValueView::Text(path)),
            ("why"@, ValueView::Text(why)),
        ],
        event_members(ManifestView::Interrupted { path, tomb, why }) == seq![
            ("event"@, ValueView::Text("interrupted"@)),
            ("path"@, ValueView::Text(path)),
            ("tomb"@, ValueView::Text(tomb)),
            ("why"@, ValueView::Text(why)),
        ],
        text_or_null(recover) == (match recover {
            Some(s) => ValueView::Text(s),
            None => ValueView::Null,
        }),
{
}

/// An event is described by its tag and its members, each of the kind that it has; what else is
/// there does not matter, and what was not recovered may be left out or `null`.
pub proof fn events_are_what_fields_say(
    fields: Seq<(Seq<char>, FieldView)>,
    digest: Seq<char>,
    path: Seq<char>,
    tomb: Seq<char>,
    recover: Option<Seq<char>>,
    why: Seq<char>,
    size: u64,
)
    ensures
        described_event(fields) == Some(ManifestView::Planned { digest }) <==> {
            &&& field_of(fields, "event"@) == Some(FieldView::Text("planned"@))
            &&& field_of(fields, "digest"@) == Some(FieldView::Text(digest))
        },
        described_event(fields) == Some(
            ManifestView::Tombed { path, tomb, recover, size_bytes: size },
        ) <==> {
            &&& field_of(fields, "event"@) == Some(FieldView::Text("tombed"@))
            &&& field_of(fields, "path"@) == Some(FieldView::Text(path))
            &&& field_of(fields, "tomb"@) == Some(FieldView::Text(tomb))
            &&& field_of(fields, "size_bytes"@) == Some(FieldView::Number(size))
            &&& recover is Some ==> field_of(fields, "recover"@) == Some(
                FieldView::Text(recover->0),
            )
            &&& recover is None ==> field_of(fields, "recover"@) is None || field_of(
                fields,
                "recover"@,
            ) == Some(FieldView::Null)
        },
        described_event(fields) == Some(ManifestView::Drained { tomb, freed_bytes: size }) <==> {
            &&& field_of(fields, "event"@) == Some(FieldView::Text("drained"@))
            &&& field_of(fields, "tomb"@) == Some(FieldView::Text(tomb))
            &&& field_of(fields, "freed_bytes"@) == Some(FieldView::Number(size))
        },
        described_event(fields) == Some(ManifestView::Refused { path, why }) <==> {
            &&& field_of(fields, "event"@) == Some(FieldView::Text("refused"@))
            &&& field_of(fields, "path"@) == Some(FieldView::Text(path))
            &&& field_of(fields, "why"@) == Some(FieldView::Text(why))
        },
        described_event(fields) == Some(ManifestView::Interrupted { path, tomb, why }) <==> {
            &&& field_of(fields, "event"@) == Some(FieldView::Text("interrupted"@))
            &&& field_of(fields, "path"@) == Some(FieldView::Text(path))
            &&& field_of(fields, "tomb"@) == Some(FieldView::Text(tomb))
            &&& field_of(fields, "why"@) == Some(FieldView::Text(why))
        },
{
    reveal_strlit("planned");
    reveal_strlit("tombed");
    reveal_strlit("drained");
    reveal_strlit("refused");
    reveal_strlit("interrupted");
    assert("planned"@[0] == 'p' && "tombed"@[0] == 't' && "drained"@[0] == 'd');
    assert("refused"@[0] == 'r' && "interrupted"@[0] == 'i');
}

/// Recovery is printed for every tomb, in order, and for nothing else: the command that was
/// recorded and what it restores, or that none was.
pub proof fn recovery_is_printed(events: Seq<ManifestView>, e: ManifestView)
    ensures
        recovery_texts(seq![]).len() == 0,
        e matches ManifestView::Tombed { path, recover: Some(command), .. } ==> recovery_texts(
            events.push(e),
        ) == recovery_texts(events).push(command + "   # restores "@ + path),
        e matches ManifestView::Tombed { path, recover: None, .. } ==> recovery_texts(
            events.push(e),
        ) == recovery_texts(events).push("# "@ + path + ": no regenerate hint recorded"@),
        !(e is Tombed) ==> recovery_texts(events.push(e)) == recovery_texts(events),
{
    assert(events.push(e).drop_last() =~= events);
}

/// What was freed is what the steps that reaped freed, and nothing else.
pub proof fn freed_is_what_was_reaped(outcomes: Seq<OutcomeView>, o: OutcomeView)
    ensures
        sum_of(freed_each(seq![])) == 0,
        o matches OutcomeView::Reaped { freed_bytes, .. } ==> sum_of(freed_each(outcomes.push(o)))
            == sum_of(freed_each(outcomes)) + freed_bytes,
        !(o is Reaped) ==> sum_of(freed_each(outcomes.push(o))) == sum_of(freed_each(outcomes)),
{
    let all = freed_each(outcomes.push(o));
    assert(all.drop_last() =~= freed_each(outcomes));
    assert(all.last() == freed_of(o));
}

/// Refusals and interruptions are each counted, and an execution without either is without fault.
pub proof fn faults_are_counted(outcomes: Seq<OutcomeView>)
    ensures
        refusal_count(outcomes) == outcomes.filter(|o: OutcomeView| o is Refused).len(),
        interruption_count(outcomes) == outcomes.filter(|o: OutcomeView| o is Interrupted).len(),
        refusal_count(outcomes) + interruption_count(outcomes) == 0 <==> forall|i: int|
            0 <= i < outcomes.len() ==> (#[trigger] outcomes[i]) is Reaped,
    decreases outcomes.len(),
{
    reveal(Seq::filter);
    if outcomes.len() > 0 {
        let before = outcomes.drop_last();
        faults_are_counted(before);
        let n = before.len() as int;
        assert(outcomes[n] == outcomes.last());
        assert forall|i: int| 0 <= i < n implies outcomes[i] == before[i] by {}
        if forall|i: int| 0 <= i < before.len() ==> (#[trigger] before[i]) is Reaped {
            if outcomes.last() is Reaped {
                assert forall|i: int| 0 <= i < outcomes.len() implies (
                #[trigger] outcomes[i]) is Reaped by {
                    if i < n {
                        assert(before[i] is Reaped);
                    }
                }
            }
        } else {
            let i = choose|i: int| 0 <= i < before.len() && !((#[trigger] before[i]) is Reaped);
            assert(!(outcomes[i] is Reaped));
        }
    }
}

/// How outcomes are shown: what was reaped and freed, what was left in place and why, what was
/// renamed and why it was not drained.
pub proof fn outcomes_are_shown(
    path: Seq<char>,
    tomb: Seq<char>,
    why: Seq<char>,
    freed: u64,
    recover: Option<Seq<char>>,
)
    ensures
        outcome_text(OutcomeView::Reaped { path, freed_bytes: freed, recover }) == "✓ reaped "@
            + path + " ("@ + human_text(freed) + " freed)"@,
        outcome_text(OutcomeView::Refused { path, why }) == "⛔ left in place "@ + path + ": "@ + why,
        outcome_text(OutcomeView::Interrupted { path, tomb, why }) == "⚠ renamed "@ + path
            + " to "@ + tomb + ": "@ + why,
{
}

/// The files that are meant are all those whose digest starts as the argument does, with or without
/// what names the algorithm, by their positions, in order, each once.
pub proof fn meant_files_are_all_that_match(names: Seq<Seq<char>>, arg: Seq<char>)
    requires
        names.len() <= usize::MAX,
    ensures
        forall|i: int|
            0 <= i < names.len() ==> (meant_files(names, arg).contains(i as usize) <==> is_meant(
                digest_of(#[trigger] names[i], ".json"@),
                arg,
            )),
        forall|k: int|
            0 <= k < meant_files(names, arg).len() ==> (#[trigger] meant_files(names, arg)[k])
                < names.len(),
        forall|j: int, k: int|
            0 <= j < k < meant_files(names, arg).len() ==> (#[trigger] meant_files(names, arg)[j])
                < (#[trigger] meant_files(names, arg)[k]),
    decreases names.len(),
{
    if names.len() > 0 {
        let before = names.drop_last();
        let n = before.len() as int;
        let rest = meant_files(before, arg);
        let all = meant_files(names, arg);
        meant_files_are_all_that_match(before, arg);
        assert forall|k: int| 0 <= k < rest.len() implies all[k] == rest[k] by {}
        assert forall|i: int| 0 <= i < names.len() implies (all.contains(i as usize) <==> is_meant(
            digest_of(#[trigger] names[i], ".json"@),
            arg,
        )) by {
            if i < n {
                assert(before[i] == names[i]);
                if rest.contains(i as usize) {
                    let k = choose|k: int| 0 <= k < rest.len() && rest[k] == i as usize;
                    assert(all[k] == i as usize);
                }
                if all.contains(i as usize) {
                    let k = choose|k: int| 0 <= k < all.len() && all[k] == i as usize;
                    assert(k < rest.len());
                    assert(rest[k] == i as usize);
                }
            } else {
                if is_meant(digest_of(names[i], ".json"@), arg) {
                    assert(all[rest.len() as int] == i as usize);
                }
                if all.contains(i as usize) {
                    let k = choose|k: int| 0 <= k < all.len() && all[k] == i as usize;
                    if k < rest.len() {
                        assert(rest[k] < n);
                    }
                }
            }
        }
    }
}

/// A digest is meant by a start of it, and by nothing that is neither a start of it nor of what
/// follows the name of the algorithm.
pub proof fn digests_are_meant_by_their_start(hex: Seq<char>, arg: Seq<char>)
    requires
        forall|i: int|
            0 <= i < hex.len() ==> '0' <= #[trigger] hex[i] <= '9' || 'a' <= hex[i] <= 'f',
    ensures
        ({
            let digest = "sha256:"@ + hex;
            is_meant(digest, arg) <==> {
                ||| arg.len() <= digest.len() && digest.take(arg.len() as int) == arg
                ||| arg.len() <= hex.len() && hex.take(arg.len() as int) == arg
            }
        }),
{
    reveal_strlit("sha256:");
    let digest = "sha256:"@ + hex;
    assert(digest.take(7) =~= "sha256:"@);
    assert(digest.skip(7) =~= hex);
    if text_starts_with(hex, "sha256:"@) {
        assert(hex.take(7)[0] == 's');
        assert(hex[0] == 's');
    }
    assert(crate::text::without_prefixes(hex, "sha256:"@) == hex);
    assert(crate::text::without_prefixes(digest, "sha256:"@) == hex);
}

/// A file is a log where its name is something and then the extension of logs.
pub proof fn logs_have_their_extension(name: Seq<char>)
    ensures
        is_log(name) <==> exists|stem: Seq<char>|
            stem.len() > 0 && name == #[trigger] (stem + ".jsonl"@),
{
    reveal_strlit(".jsonl");
    if is_log(name) {
        let stem = name.take(name.len() - 6);
        assert(name =~= stem + ".jsonl"@);
        if stem.len() == 0 {
            assert(name =~= ".jsonl"@);
        }
    }
    if exists|stem: Seq<char>| stem.len() > 0 && name == #[trigger] (stem + ".jsonl"@) {
        let stem = choose|stem: Seq<char>| stem.len() > 0 && name == #[trigger] (stem + ".jsonl"@);
        assert(name.skip(name.len() - 6) =~= ".jsonl"@);
    }
}

/// A dry run says of each step what it would reap, how large it is and how to get it back.
pub proof fn dry_runs_are_shown(step: BoundView, steps: Seq<BoundView>)
    ensures
        dry_run_text(step) == "would reap: "@ + crate::plan::parsed_step(step.step_json)->0.path()
            + "  ("@ + human_text(step.size_bytes) + ", recover: "@ + (match step.recover {
            Some(s) => s,
            None => "—"@,
        }) + ")"@,
        dry_run_summary(steps) == "dry-run: "@ + decimal_text(steps.len()) + " step(s), "@
            + human_text(sum_of(Seq::new(steps.len(), |i: int| steps[i].size_bytes)) as u64)
            + " — add --execute to reap (PERMANENT)"@,
{
    assert(planned_sizes(steps) =~= Seq::new(steps.len(), |i: int| steps[i].size_bytes));
}

/// A plan can be read where every step of it can, and their sizes can be counted together.
pub proof fn plans_are_readable_whole(plan: SealedView)
    ensures
        is_readable(plan) <==> {
            &&& forall|i: int|
                0 <= i < plan.steps.len() ==> crate::plan::parsed_step(
                    (#[trigger] plan.steps[i]).step_json,
                ) is Some
            &&& sum_of(Seq::new(plan.steps.len(), |i: int| plan.steps[i].size_bytes)) <= u64::MAX
        },
{
    assert(planned_sizes(plan.steps) =~= Seq::new(
        plan.steps.len(),
        |i: int| plan.steps[i].size_bytes,
    ));
}

/// The sum of sizes is what each adds to those before.
pub proof fn sizes_add_up(sizes: Seq<u64>, size: u64)
    ensures
        sum_of(seq![]) == 0,
        sum_of(sizes.push(size)) == sum_of(sizes) + size,
{
    assert(sizes.push(size).drop_last() =~= sizes);
}

/// An execution is without fault where every step reaped; else its exit code says so.
pub proof fn exit_codes(outcomes: Seq<OutcomeView>)
    ensures
        exit_of(outcomes) == 0 <==> forall|i: int|
            0 <= i < outcomes.len() ==> (#[trigger] outcomes[i]) is Reaped,
        exit_of(outcomes) == 0 || exit_of(outcomes) == 1,
{
    faults_are_counted(outcomes);
}

/// A plan is picked where exactly one file is meant.
pub proof fn plans_are_picked(names: Seq<Seq<char>>, arg: Seq<char>)
    requires
        names.len() <= usize::MAX,
    ensures
        picked_plan(names, arg) matches Ok(i) ==> {
            &&& i < names.len()
            &&& is_meant(digest_of(names[i as int], ".json"@), arg)
            &&& forall|j: int|
                0 <= j < names.len() && is_meant(digest_of(#[trigger] names[j], ".json"@), arg)
                    ==> j == i
        },
        picked_plan(names, arg) is Ok <==> meant_files(names, arg).len() == 1,
        (forall|j: int|
            0 <= j < names.len() ==> !is_meant(digest_of(#[trigger] names[j], ".json"@), arg))
            ==> picked_plan(names, arg) == Err::<usize, Seq<char>>(
            "no sealed plan matches "@ + arg + " — run `reaper scan` first"@,
        ),
{
    let found = meant_files(names, arg);
    meant_files_are_all_that_match(names, arg);
    if found.len() == 1 {
        assert(found.contains(found[0]));
        assert(found[0] < names.len());
        assert(names[found[0] as int] == names[found[0] as int]);
        assert forall|j: int|
            0 <= j < names.len() && is_meant(
                digest_of(#[trigger] names[j], ".json"@),
                arg,
            ) implies j == found[0] by {
            assert(found.contains(j as usize));
        }
    }
    if forall|j: int|
        0 <= j < names.len() ==> !is_meant(digest_of(#[trigger] names[j], ".json"@), arg) {
        if found.len() > 0 {
            let j = found[0] as int;
            assert(found[0] < names.len());
            assert(found.contains(j as usize));
            assert(!is_meant(digest_of(names[j], ".json"@), arg));
        }
    }
}

/// A log is meant where the digest that its name stands for is.
pub proof fn logs_are_meant(name: Seq<char>, arg: Seq<char>)
    ensures
        meant_log(name, arg) is Some <==> is_meant(digest_of(name, ".jsonl"@), arg),
        meant_log(name, arg) matches Some(digest) ==> digest == digest_of(name, ".jsonl"@),
{
}

/// The state is below what is set, else below the platform's place, else below the temporary one;
/// and that is where each platform keeps it.
pub proof fn where_the_state_is(dir: Seq<char>, other: Option<Seq<char>>, temporary: Seq<char>)
    ensures
        state_at(Some(dir), other, temporary) == path_join(dir, "reaper"@),
        state_at(None, Some(dir), temporary) == path_join(dir, "reaper"@),
        state_at(None, None, temporary) == path_join(temporary, "reaper"@),
        linux_state(Some(dir), other) == Some(dir),
        linux_state(None, Some(dir)) == Some(path_join(dir, ".local/state"@)),
        linux_state(None, None) is None,
        mac_state(Some(dir)) == Some(path_join(dir, "Library/Application Support"@)),
        mac_state(None) is None,
{
}

} // verus!
