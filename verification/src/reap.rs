//! Reaping and undoing from the command line: which plan is meant, what a dry
//! run and an execution print, and what recovery is emitted. Recovery is never
//! executed.

use crate::deleter::{OutcomeView, StepOutcome};
use crate::digest::{hex_text, lemma_hex_digits};
use crate::manifest::{parsed_events, ManifestEvent, ManifestView};
use crate::plan::{parsed_step, BoundView, SealedPlan, SealedView};
use crate::sizes::{human_bytes, human_text, sum_of, total};
use crate::text::{
    chars_of, chars_start_with, decimal, decimal_text, ends_with, lemma_views_push, replace_text,
    replaced, same_text, strip_prefixes, strip_suffixes, text_ends_with, text_option,
    text_starts_with, views, without_prefixes, without_suffixes,
};
use vstd::prelude::*;
use vstd::string::*;

verus! {

/// The name of the file that a plan, or its log, is kept in.
pub open spec fn file_name_of(digest: Seq<char>, suffix: Seq<char>) -> Seq<char> {
    replaced(digest, ":"@, "-"@) + suffix
}

/// The digest that a file name stands for.
pub open spec fn digest_of(name: Seq<char>, suffix: Seq<char>) -> Seq<char> {
    replaced(without_suffixes(name, suffix), "sha256-"@, "sha256:"@)
}

/// The digest is meant: the argument is the start of it, with or without what
/// names the algorithm.
pub open spec fn is_meant(digest: Seq<char>, arg: Seq<char>) -> bool {
    text_starts_with(digest, arg) || text_starts_with(without_prefixes(digest, "sha256:"@), arg)
}

fn file_name(digest: &str, suffix: &str) -> (r: String)
    ensures
        r@ == file_name_of(digest@, suffix@),
{
    proof {
        reveal_strlit(":");
    }
    let mut out = replace_text(chars_of(digest).as_slice(), ":", "-");
    out.append(suffix);
    out
}

/// The name of the file that a plan is kept in.
pub fn plan_file_name(digest: &str) -> (r: String)
    ensures
        r@ == file_name_of(digest@, ".json"@),
{
    file_name(digest, ".json")
}

/// The name of the file that a plan's log is kept in.
pub fn log_file_name(digest: &str) -> (r: String)
    ensures
        r@ == file_name_of(digest@, ".jsonl"@),
{
    file_name(digest, ".jsonl")
}

/// A file of this name is a log: it has the extension of logs. A name that is nothing
/// but the extension has none.
pub open spec fn is_log(name: Seq<char>) -> bool {
    text_ends_with(name, ".jsonl"@) && name != ".jsonl"@
}

/// Whether a file of this name is a log.
pub fn is_log_name(name: &str) -> (r: bool)
    ensures
        r == is_log(name@),
{
    ends_with(name, ".jsonl") && !same_text(name, ".jsonl")
}

fn digest_in(name: &str, suffix: &str) -> (r: String)
    ensures
        r@ == digest_of(name@, suffix@),
{
    proof {
        reveal_strlit("sha256-");
    }
    let chars = chars_of(name);
    let suffix = chars_of(suffix);
    replace_text(strip_suffixes(chars.as_slice(), suffix.as_slice()), "sha256-", "sha256:")
}

fn means(digest: &str, arg: &str) -> (r: bool)
    ensures
        r == is_meant(digest@, arg@),
{
    let chars = chars_of(digest);
    let algorithm = chars_of("sha256:");
    chars_start_with(chars.as_slice(), arg) || chars_start_with(
        strip_prefixes(chars.as_slice(), algorithm.as_slice()),
        arg,
    )
}

/// The digest of the log that a file name stands for, where it is meant.
pub open spec fn meant_log(name: Seq<char>, arg: Seq<char>) -> Option<Seq<char>> {
    if is_meant(digest_of(name, ".jsonl"@), arg) {
        Some(digest_of(name, ".jsonl"@))
    } else {
        None
    }
}

/// The digest of the log that a file name stands for, where it is meant.
pub fn log_digest(name: &str, arg: &str) -> (r: Option<String>)
    ensures
        text_option(r) == (if is_meant(digest_of(name@, ".jsonl"@), arg@) {
            Some(digest_of(name@, ".jsonl"@))
        } else {
            None
        }),
        text_option(r) == meant_log(name@, arg@),
{
    let digest = digest_in(name, ".jsonl");
    if means(digest.as_str(), arg) {
        Some(digest)
    } else {
        None
    }
}

/// The positions of the plan files that are meant, in order.
pub open spec fn meant_files(names: Seq<Seq<char>>, arg: Seq<char>) -> Seq<usize>
    decreases names.len(),
{
    if names.len() == 0 {
        seq![]
    } else {
        let rest = meant_files(names.drop_last(), arg);
        if is_meant(digest_of(names.last(), ".json"@), arg) {
            rest.push((names.len() - 1) as usize)
        } else {
            rest
        }
    }
}

/// The plan file that is meant, or why there is not one.
pub open spec fn picked_plan(names: Seq<Seq<char>>, arg: Seq<char>) -> Result<usize, Seq<char>> {
    let found = meant_files(names, arg);
    if found.len() == 1 {
        Ok(found[0])
    } else if found.len() == 0 {
        Err("no sealed plan matches "@ + arg + " — run `reaper scan` first"@)
    } else {
        Err(decimal_text(found.len()) + " plans match "@ + arg + " — give more digits"@)
    }
}

/// Picks the plan file that is meant. There must be one, and one only.
pub fn pick_plan(names: &[String], arg: &str) -> (r: Result<usize, String>)
    ensures
        r is Ok <==> meant_files(views(names@), arg@).len() == 1,
        r matches Ok(i) ==> meant_files(views(names@), arg@) == seq![i] && i < names@.len(),
        r matches Err(e) ==> e@ == (if meant_files(views(names@), arg@).len() == 0 {
            "no sealed plan matches "@ + arg@ + " — run `reaper scan` first"@
        } else {
            decimal_text(meant_files(views(names@), arg@).len()) + " plans match "@ + arg@
                + " — give more digits"@
        }),
        r matches Ok(i) ==> picked_plan(views(names@), arg@) == Ok::<usize, Seq<char>>(i),
        r matches Err(e) ==> picked_plan(views(names@), arg@) == Err::<usize, Seq<char>>(e@),
{
    let ghost all = views(names@);
    let mut found: Vec<usize> = Vec::new();
    assert(found@ =~= meant_files(all.take(0), arg@));
    for i in 0..names.len()
        invariant
            all == views(names@),
            found@ == meant_files(all.take(i as int), arg@),
            forall|j: int| 0 <= j < found@.len() ==> (#[trigger] found@[j]) < i,
    {
        assert(all.take(i + 1).drop_last() =~= all.take(i as int));
        assert(all.take(i + 1).last() == names@[i as int]@);
        if means(digest_in(names[i].as_str(), ".json").as_str(), arg) {
            found.push(i);
        }
    }
    assert(all.take(all.len() as int) =~= all);
    if found.len() == 1 {
        let i: usize = found[0];
        assert(found@ =~= seq![i]);
        Ok(i)
    } else if found.len() == 0 {
        let mut e = "no sealed plan matches ".to_owned();
        e.append(arg);
        e.append(" — run `reaper scan` first");
        Err(e)
    } else {
        let mut e = decimal(found.len() as u64);
        e.append(" plans match ");
        e.append(arg);
        e.append(" — give more digits");
        Err(e)
    }
}

proof fn lemma_replaced_apart(p: Seq<char>, s: Seq<char>, from: Seq<char>, to: Seq<char>)
    requires
        from.len() > 0,
        forall|i: int| 0 <= i < p.len() ==> #[trigger] p[i] != from[0],
    ensures
        replaced(p + s, from, to) == p + replaced(s, from, to),
    decreases p.len(),
{
    if p.len() == 0 {
        assert(p + s =~= s);
        assert(p + replaced(s, from, to) =~= replaced(s, from, to));
    } else {
        let all = p + s;
        let rest = p.skip(1);
        assert forall|i: int| 0 <= i < rest.len() implies #[trigger] rest[i] != from[0] by {
            assert(rest[i] == p[i + 1]);
        }
        lemma_replaced_apart(rest, s, from, to);
        assert(all.skip(1) =~= rest + s);
        assert(all[0] == p[0]);
        if text_starts_with(all, from) {
            assert(all.take(from.len() as int)[0] == from[0]);
        }
        assert(seq![p[0]] + (rest + replaced(s, from, to)) =~= p + replaced(s, from, to));
    }
}

proof fn lemma_replaced_nothing(s: Seq<char>, from: Seq<char>, to: Seq<char>)
    requires
        from.len() > 0,
        forall|i: int| 0 <= i < s.len() ==> #[trigger] s[i] != from[0],
    ensures
        replaced(s, from, to) == s,
{
    lemma_replaced_apart(s, seq![], from, to);
    assert(s + Seq::<char>::empty() =~= s);
}

/// A plan is found under the digest that a scan printed, or any start of it, with
/// or without what names the algorithm: the name of its file, and that of its
/// log, stand for the digest. The log has the name of a log.
pub proof fn plan_file_stands_for_its_digest(bytes: Seq<u8>, n: int)
    ensures
        ({
            let hex = hex_text(bytes);
            let digest = "sha256:"@ + hex;
            &&& digest_of(file_name_of(digest, ".json"@), ".json"@) == digest
            &&& digest_of(file_name_of(digest, ".jsonl"@), ".jsonl"@) == digest
            &&& is_log(file_name_of(digest, ".jsonl"@))
            &&& 0 <= n <= digest.len() ==> is_meant(digest, digest.take(n))
            &&& 0 <= n <= hex.len() ==> is_meant(digest, hex.take(n))
        }),
{
    reveal_strlit("sha256:");
    reveal_strlit("sha256-");
    reveal_strlit("sha256");
    reveal_strlit(":");
    reveal_strlit("-");
    reveal_strlit(".json");
    reveal_strlit(".jsonl");
    lemma_hex_digits(bytes);
    let hex = hex_text(bytes);
    let digest = "sha256:"@ + hex;
    let stem = "sha256-"@ + hex;
    assert(digest =~= "sha256"@ + (":"@ + hex));
    lemma_replaced_apart("sha256"@, ":"@ + hex, ":"@, "-"@);
    lemma_replaced_nothing(hex, ":"@, "-"@);
    assert((":"@ + hex).take(1) =~= ":"@);
    assert((":"@ + hex).skip(1) =~= hex);
    assert("sha256"@ + ("-"@ + hex) =~= stem);
    assert(replaced(digest, ":"@, "-"@) == stem);
    let log = stem + ".jsonl"@;
    assert(log.skip(log.len() - 6) =~= ".jsonl"@);
    assert(stem.take(7) =~= "sha256-"@);
    assert(stem.skip(7) =~= hex);
    lemma_replaced_nothing(hex, "sha256-"@, "sha256:"@);
    assert(replaced(stem, "sha256-"@, "sha256:"@) == digest);
    assert(stem.last() == '-' || stem.last() == hex.last());
    lemma_one_suffix(stem, ".json"@, 'n');
    lemma_one_suffix(stem, ".jsonl"@, 'l');
    if 0 <= n <= digest.len() {
        assert(digest.take(n).len() == n);
    }
    assert(digest.take(7) =~= "sha256:"@);
    assert(digest.skip(7) =~= hex);
    if text_starts_with(hex, "sha256:"@) {
        assert(hex.take(7)[0] == 's');
    }
    assert(without_prefixes(digest, "sha256:"@) == without_prefixes(hex, "sha256:"@));
    assert(without_prefixes(hex, "sha256:"@) == hex);
    if 0 <= n <= hex.len() {
        assert(hex.take(n).len() == n);
    }
}

/// One suffix is taken off a stem that does not itself end in its last
/// character.
proof fn lemma_one_suffix(stem: Seq<char>, suffix: Seq<char>, last: char)
    requires
        suffix.len() > 0,
        suffix.last() == last,
        stem.len() > 0,
        stem.last() != last,
    ensures
        without_suffixes(stem + suffix, suffix) == stem,
{
    let name = stem + suffix;
    assert(name.skip(name.len() - suffix.len()) =~= suffix);
    assert(name.take(name.len() - suffix.len()) =~= stem);
    if text_ends_with(stem, suffix) {
        let tail = stem.skip(stem.len() - suffix.len());
        assert(tail.last() == stem.last());
    }
    assert(without_suffixes(stem, suffix) == stem);
    assert(without_suffixes(name, suffix) == without_suffixes(stem, suffix));
}

/// What is shown for how to recover a step.
pub open spec fn recover_cell(recover: Option<Seq<char>>) -> Seq<char> {
    match recover {
        Some(s) => s,
        None => "—"@,
    }
}

/// The line of a dry run for a step.
pub open spec fn dry_run_text(step: BoundView) -> Seq<char> {
    "would reap: "@ + parsed_step(step.step_json)->0.path() + "  ("@ + human_text(step.size_bytes)
        + ", recover: "@ + recover_cell(step.recover) + ")"@
}

/// The sizes of the steps of a plan.
pub open spec fn planned_sizes(steps: Seq<BoundView>) -> Seq<u64> {
    Seq::new(steps.len(), |i: int| steps[i].size_bytes)
}

/// The steps can all be read, and their sizes be added up.
pub open spec fn is_readable(plan: SealedView) -> bool {
    &&& forall|i: int|
        0 <= i < plan.steps.len() ==> parsed_step((#[trigger] plan.steps[i]).step_json) is Some
    &&& sum_of(planned_sizes(plan.steps)) <= u64::MAX
}

/// The line that sums up a dry run.
pub open spec fn dry_run_summary(steps: Seq<BoundView>) -> Seq<char> {
    "dry-run: "@ + decimal_text(steps.len()) + " step(s), "@ + human_text(
        sum_of(planned_sizes(steps)) as u64,
    ) + " — add --execute to reap (PERMANENT)"@
}

/// The lines of a dry run: the exact steps, and touch nothing. `None` where a
/// step of the plan cannot be read, or the sizes cannot be added up.
pub fn dry_run_lines(plan: &SealedPlan) -> (r: Option<Vec<String>>)
    ensures
        r is Some <==> is_readable(plan@),
        r matches Some(lines) ==> {
            &&& lines@.len() == plan@.steps.len() + 1
            &&& forall|i: int|
                0 <= i < plan@.steps.len() ==> (#[trigger] lines@[i])@ == dry_run_text(
                    plan@.steps[i],
                )
            &&& lines@.last()@ == dry_run_summary(plan@.steps)
        },
{
    let ghost steps = plan@.steps;
    let mut lines: Vec<String> = Vec::new();
    let mut sizes: Vec<u64> = Vec::new();
    let n: usize = plan.steps.len();
    let mut i: usize = 0;
    while i < n
        invariant
            n == plan.steps@.len(),
            steps == plan@.steps,
            i <= n,
            lines@.len() == i,
            sizes@ == planned_sizes(steps).take(i as int),
            forall|j: int|
                0 <= j < i ==> parsed_step((#[trigger] steps[j]).step_json) is Some && lines@[j]@
                    == dry_run_text(steps[j]),
            forall|j: int| 0 <= j < i ==> (#[trigger] lines@[j])@ == dry_run_text(steps[j]),
        decreases n - i,
    {
        let bound = &plan.steps[i];
        assert(steps[i as int] == bound@);
        let step = match bound.try_step() {
            Some(step) => step,
            None => return None,
        };
        let mut line = "would reap: ".to_owned();
        line.append(step.path().as_str());
        line.append("  (");
        line.append(human_bytes(bound.size_bytes).as_str());
        line.append(", recover: ");
        match &bound.recover {
            Some(s) => line.append(s.as_str()),
            None => line.append("—"),
        }
        line.append(")");
        lines.push(line);
        sizes.push(bound.size_bytes);
        assert(sizes@ =~= planned_sizes(steps).take(i + 1));
        i += 1;
    }
    assert(sizes@ =~= planned_sizes(steps));
    let sum: u64 = match total(sizes.as_slice()) {
        Some(sum) => sum,
        None => return None,
    };
    let mut line = "dry-run: ".to_owned();
    line.append(decimal(n as u64).as_str());
    line.append(" step(s), ");
    line.append(human_bytes(sum).as_str());
    line.append(" — add --execute to reap (PERMANENT)");
    lines.push(line);
    Some(lines)
}

/// The bytes that an outcome freed.
pub open spec fn freed_of(outcome: OutcomeView) -> u64 {
    match outcome {
        OutcomeView::Reaped { freed_bytes, .. } => freed_bytes,
        _ => 0,
    }
}

/// The bytes that outcomes freed, each.
pub open spec fn freed_each(outcomes: Seq<OutcomeView>) -> Seq<u64> {
    Seq::new(outcomes.len(), |i: int| freed_of(outcomes[i]))
}

/// The bytes that outcomes freed, or `None` where they are more than can be
/// counted.
pub fn freed_bytes(outcomes: &[StepOutcome]) -> (r: Option<u64>)
    ensures
        r is Some <==> sum_of(freed_each(views(outcomes@))) <= u64::MAX,
        r matches Some(sum) ==> sum == sum_of(freed_each(views(outcomes@))),
{
    let ghost all = freed_each(views(outcomes@));
    let mut each: Vec<u64> = Vec::new();
    for i in 0..outcomes.len()
        invariant
            all == freed_each(views(outcomes@)),
            each@ == all.take(i as int),
    {
        each.push(
            match &outcomes[i] {
                StepOutcome::Reaped { freed_bytes, .. } => *freed_bytes,
                _ => 0,
            },
        );
        assert(each@ =~= all.take(i + 1));
    }
    assert(each@ =~= all);
    total(each.as_slice())
}

/// How many of the outcomes are refusals.
pub open spec fn refusal_count(outcomes: Seq<OutcomeView>) -> nat
    decreases outcomes.len(),
{
    if outcomes.len() == 0 {
        0
    } else {
        refusal_count(outcomes.drop_last()) + (if outcomes.last() is Refused {
            1nat
        } else {
            0
        })
    }
}

/// How many of the outcomes are interruptions.
pub open spec fn interruption_count(outcomes: Seq<OutcomeView>) -> nat
    decreases outcomes.len(),
{
    if outcomes.len() == 0 {
        0
    } else {
        interruption_count(outcomes.drop_last()) + (if outcomes.last() is Interrupted {
            1nat
        } else {
            0
        })
    }
}

/// How many of the outcomes are refusals.
pub fn count_refused(outcomes: &[StepOutcome]) -> (r: usize)
    ensures
        r == refusal_count(views(outcomes@)),
        r <= outcomes@.len(),
{
    let ghost all = views(outcomes@);
    let mut n: usize = 0;
    for i in 0..outcomes.len()
        invariant
            all == views(outcomes@),
            n == refusal_count(all.take(i as int)),
            n <= i,
    {
        assert(all.take(i + 1).drop_last() =~= all.take(i as int));
        assert(all.take(i + 1).last() == outcomes@[i as int]@);
        if matches!(&outcomes[i], StepOutcome::Refused { .. }) {
            n += 1;
        }
    }
    assert(all.take(all.len() as int) =~= all);
    n
}

/// How many of the outcomes are interruptions.
pub fn count_interrupted(outcomes: &[StepOutcome]) -> (r: usize)
    ensures
        r == interruption_count(views(outcomes@)),
        r <= outcomes@.len(),
{
    let ghost all = views(outcomes@);
    let mut n: usize = 0;
    for i in 0..outcomes.len()
        invariant
            all == views(outcomes@),
            n == interruption_count(all.take(i as int)),
            n <= i,
    {
        assert(all.take(i + 1).drop_last() =~= all.take(i as int));
        assert(all.take(i + 1).last() == outcomes@[i as int]@);
        if matches!(&outcomes[i], StepOutcome::Interrupted { .. }) {
            n += 1;
        }
    }
    assert(all.take(all.len() as int) =~= all);
    n
}

/// The exit code of an execution.
pub open spec fn exit_of(outcomes: Seq<OutcomeView>) -> i32 {
    if refusal_count(outcomes) + interruption_count(outcomes) > 0 {
        1
    } else {
        0
    }
}

/// The exit code of an execution: non-zero only when a step was refused or
/// interrupted.
pub fn exit_code(outcomes: &[StepOutcome]) -> (r: i32)
    ensures
        r == (if refusal_count(views(outcomes@)) + interruption_count(views(outcomes@)) > 0 {
            1i32
        } else {
            0
        }),
        r == exit_of(views(outcomes@)),
{
    if count_refused(outcomes) > 0 || count_interrupted(outcomes) > 0 {
        1
    } else {
        0
    }
}

/// The line for an outcome.
pub open spec fn outcome_text(outcome: OutcomeView) -> Seq<char> {
    match outcome {
        OutcomeView::Reaped { path, freed_bytes, .. } => "✓ reaped "@ + path + " ("@
            + human_text(freed_bytes) + " freed)"@,
        OutcomeView::Refused { path, why } => "⛔ left in place "@ + path + ": "@ + why,
        OutcomeView::Interrupted { path, tomb, why } => "⚠ renamed "@ + path + " to "@ + tomb + ": "@
            + why,
    }
}

/// The line for an outcome.
pub fn outcome_line(outcome: &StepOutcome) -> (r: String)
    ensures
        r@ == outcome_text(outcome@),
{
    match outcome {
        StepOutcome::Reaped { path, freed_bytes, .. } => {
            let mut out = "✓ reaped ".to_owned();
            out.append(path.as_str());
            out.append(" (");
            out.append(human_bytes(*freed_bytes).as_str());
            out.append(" freed)");
            out
        },
        StepOutcome::Refused { path, why } => {
            let mut out = "⛔ left in place ".to_owned();
            out.append(path.as_str());
            out.append(": ");
            out.append(why.as_str());
            out
        },
        StepOutcome::Interrupted { path, tomb, why } => {
            let mut out = "⚠ renamed ".to_owned();
            out.append(path.as_str());
            out.append(" to ");
            out.append(tomb.as_str());
            out.append(": ");
            out.append(why.as_str());
            out
        },
    }
}

/// The line that sums up an execution.
pub fn freed_line(freed: u64, digest: &str) -> (r: String)
    ensures
        r@ == "freed "@ + human_text(freed) + " · recovery: reaper undo "@ + digest@,
{
    let mut out = "freed ".to_owned();
    out.append(human_bytes(freed).as_str());
    out.append(" · recovery: reaper undo ");
    out.append(digest);
    out
}

/// The line that heads the recovery for a plan.
pub fn recovery_head(digest: &str) -> (r: String)
    ensures
        r@ == "# recovery for "@ + digest@
            + " — reaper EMITS these; run what you need (G7):"@,
{
    let mut out = "# recovery for ".to_owned();
    out.append(digest);
    out.append(" — reaper EMITS these; run what you need (G7):");
    out
}

/// The recovery line for an event: what was reaped can be had back by the
/// command that was recorded with it.
pub open spec fn recovery_text(event: ManifestView) -> Option<Seq<char>> {
    match event {
        ManifestView::Tombed { path, recover, .. } => match recover {
            Some(command) => Some(command + "   # restores "@ + path),
            None => Some("# "@ + path + ": no regenerate hint recorded"@),
        },
        _ => None,
    }
}

/// The recovery lines for events, in order.
pub open spec fn recovery_texts(events: Seq<ManifestView>) -> Seq<Seq<char>>
    decreases events.len(),
{
    if events.len() == 0 {
        seq![]
    } else {
        let rest = recovery_texts(events.drop_last());
        match recovery_text(events.last()) {
            Some(line) => rest.push(line),
            None => rest,
        }
    }
}

fn recovery_line(event: &ManifestEvent) -> (r: Option<String>)
    ensures
        text_option(r) == recovery_text(event@),
{
    match event {
        ManifestEvent::Tombed { path, recover, .. } => match recover {
            Some(command) => {
                let mut out = command.clone();
                out.append("   # restores ");
                out.append(path.as_str());
                Some(out)
            },
            None => {
                let mut out = "# ".to_owned();
                out.append(path.as_str());
                out.append(": no regenerate hint recorded");
                Some(out)
            },
        },
        _ => None,
    }
}

/// The recovery lines for the lines of a log: one for each tomb that was put on
/// record. Lines that are no event do not matter.
pub fn recovery_lines(lines: &[String]) -> (r: Vec<String>)
    ensures
        views(r@) == recovery_texts(parsed_events(views(lines@))),
{
    let ghost all = views(lines@);
    let mut out: Vec<String> = Vec::new();
    assert(views(out@) =~= recovery_texts(parsed_events(all.take(0))));
    for i in 0..lines.len()
        invariant
            all == views(lines@),
            views(out@) == recovery_texts(parsed_events(all.take(i as int))),
    {
        broadcast use lemma_views_push;

        let ghost before = parsed_events(all.take(i as int));
        assert(all.take(i + 1).drop_last() =~= all.take(i as int));
        assert(all.take(i + 1).last() == lines@[i as int]@);
        if let Some(event) = ManifestEvent::parse(lines[i].as_str()) {
            assert(before.push(event@).drop_last() =~= before);
            if let Some(line) = recovery_line(&event) {
                out.push(line);
            }
        }
    }
    assert(all.take(all.len() as int) =~= all);
    out
}

/// Whatever was put on record before it was moved has its recovery line: an undo
/// leaves none out.
pub proof fn every_tomb_has_its_recovery_line(events: Seq<ManifestView>, k: int)
    requires
        0 <= k < events.len(),
        events[k] is Tombed,
    ensures
        recovery_text(events[k]) matches Some(line) && recovery_texts(events).contains(line),
    decreases events.len(),
{
    let before = events.drop_last();
    let rest = recovery_texts(before);
    let all = recovery_texts(events);
    let line = recovery_text(events[k])->0;
    if k < before.len() {
        assert(before[k] == events[k]);
        every_tomb_has_its_recovery_line(before, k);
        let i = choose|i: int| 0 <= i < rest.len() && rest[i] == line;
        assert(all[i] == line);
    } else {
        assert(all[all.len() - 1] == line);
    }
}

} // verus!
