//! How verdicts are shown. Every refusal reason has a rendering: a new one does
//! not compile until it has.

use crate::model::{Disposition, ReasonView, RefusalReason};
use crate::text::{
    bracket_numbers, bracketed, decimal, decimal_text, join_texts, joined_texts, lemma_views_push,
    text_until, until_char, views,
};
use vstd::prelude::*;
use vstd::string::*;

verus! {

/// One-line rendering of a refusal.
pub open spec fn brief_of(reason: ReasonView) -> Seq<char> {
    match reason {
        ReasonView::Dirty { entries } => "dirty("@ + decimal_text(entries as nat) + ")"@,
        ReasonView::UnpushedCommits { count } => "unpushed("@ + decimal_text(count as nat) + ")"@,
        ReasonView::Locked { note } => match note {
            Some(note) => "locked("@ + note + ")"@,
            None => "locked"@,
        },
        ReasonView::Detached { unreachable_commits } => "detached("@ + decimal_text(
            unreachable_commits as nat,
        ) + " unreachable)"@,
        ReasonView::LiveProcess { pids } => "live-process("@ + bracketed(pids) + ")"@,
        ReasonView::ActiveBuild { .. } => "active-build"@,
        ReasonView::CrossDevice => "cross-device"@,
        ReasonView::CloudBacked => "cloud-backed"@,
        ReasonView::Protected { pattern } => "protected("@ + pattern + ")"@,
        ReasonView::CachesExcluded => "caches-excluded"@,
        ReasonView::TooRecent { idle_days, min_idle_days } => "too-recent("@ + decimal_text(
            idle_days as nat,
        ) + "d < "@ + decimal_text(min_idle_days as nat) + "d)"@,
        ReasonView::TooSmall { size_bytes, min_size_bytes } => "too-small("@ + decimal_text(
            size_bytes as nat,
        ) + " < "@ + decimal_text(min_size_bytes as nat) + ")"@,
        ReasonView::Unknown { what } => "unknown("@ + what + ")"@,
    }
}

/// The shortest rendering of a refusal.
pub open spec fn short_of(reason: ReasonView) -> Seq<char> {
    match reason {
        ReasonView::Dirty { entries } => "dirty("@ + decimal_text(entries as nat) + ")"@,
        ReasonView::UnpushedCommits { count } => "unpushed("@ + decimal_text(count as nat) + ")"@,
        ReasonView::Locked { .. } => "locked"@,
        ReasonView::Detached { .. } => "detached"@,
        ReasonView::LiveProcess { pids } => "live("@ + decimal_text(pids.len()) + ")"@,
        ReasonView::ActiveBuild { .. } => "building"@,
        ReasonView::CrossDevice => "xdev"@,
        ReasonView::CloudBacked => "cloud"@,
        ReasonView::Protected { .. } => "protected"@,
        ReasonView::CachesExcluded => "cache(opt-in)"@,
        ReasonView::TooRecent { idle_days, min_idle_days } => "fresh("@ + decimal_text(
            idle_days as nat,
        ) + "d<"@ + decimal_text(min_idle_days as nat) + "d)"@,
        ReasonView::TooSmall { .. } => "small"@,
        ReasonView::Unknown { what } => "?"@ + what,
    }
}

/// What a refusal is counted under: its rendering, up to a bracket.
pub open spec fn code_of(reason: ReasonView) -> Seq<char> {
    until_char(brief_of(reason), '(')
}

fn between(start: &str, middle: &str, end: &str) -> (r: String)
    ensures
        r@ == start@ + middle@ + end@,
{
    let mut out = start.to_owned();
    out.append(middle);
    out.append(end);
    out
}

/// One-line rendering of a refusal.
pub fn reason_brief(reason: &RefusalReason) -> (r: String)
    ensures
        r@ == brief_of(reason@),
{
    match reason {
        RefusalReason::Dirty { entries } => between(
            "dirty(",
            decimal(*entries as u64).as_str(),
            ")",
        ),
        RefusalReason::UnpushedCommits { count } => between(
            "unpushed(",
            decimal(*count).as_str(),
            ")",
        ),
        RefusalReason::Locked { note } => match note {
            Some(note) => between("locked(", note.as_str(), ")"),
            None => "locked".to_owned(),
        },
        RefusalReason::Detached { unreachable_commits } => between(
            "detached(",
            decimal(*unreachable_commits).as_str(),
            " unreachable)",
        ),
        RefusalReason::LiveProcess { pids } => between(
            "live-process(",
            bracket_numbers(pids.as_slice()).as_str(),
            ")",
        ),
        RefusalReason::ActiveBuild { .. } => "active-build".to_owned(),
        RefusalReason::CrossDevice => "cross-device".to_owned(),
        RefusalReason::CloudBacked => "cloud-backed".to_owned(),
        RefusalReason::Protected { pattern } => between("protected(", pattern.as_str(), ")"),
        RefusalReason::CachesExcluded => "caches-excluded".to_owned(),
        RefusalReason::TooRecent { idle_days, min_idle_days } => {
            let mut out = between("too-recent(", decimal(*idle_days).as_str(), "d < ");
            out.append(decimal(*min_idle_days).as_str());
            out.append("d)");
            out
        },
        RefusalReason::TooSmall { size_bytes, min_size_bytes } => {
            let mut out = between("too-small(", decimal(*size_bytes).as_str(), " < ");
            out.append(decimal(*min_size_bytes).as_str());
            out.append(")");
            out
        },
        RefusalReason::Unknown { what } => between("unknown(", what.as_str(), ")"),
    }
}

/// The shortest rendering of a refusal.
pub fn reason_short(reason: &RefusalReason) -> (r: String)
    ensures
        r@ == short_of(reason@),
{
    match reason {
        RefusalReason::Dirty { entries } => between(
            "dirty(",
            decimal(*entries as u64).as_str(),
            ")",
        ),
        RefusalReason::UnpushedCommits { count } => between(
            "unpushed(",
            decimal(*count).as_str(),
            ")",
        ),
        RefusalReason::Locked { .. } => "locked".to_owned(),
        RefusalReason::Detached { .. } => "detached".to_owned(),
        RefusalReason::LiveProcess { pids } => between(
            "live(",
            decimal(pids.len() as u64).as_str(),
            ")",
        ),
        RefusalReason::ActiveBuild { .. } => "building".to_owned(),
        RefusalReason::CrossDevice => "xdev".to_owned(),
        RefusalReason::CloudBacked => "cloud".to_owned(),
        RefusalReason::Protected { .. } => "protected".to_owned(),
        RefusalReason::CachesExcluded => "cache(opt-in)".to_owned(),
        RefusalReason::TooRecent { idle_days, min_idle_days } => {
            let mut out = between("fresh(", decimal(*idle_days).as_str(), "d<");
            out.append(decimal(*min_idle_days).as_str());
            out.append("d)");
            out
        },
        RefusalReason::TooSmall { .. } => "small".to_owned(),
        RefusalReason::Unknown { what } => {
            let mut out = "?".to_owned();
            out.append(what.as_str());
            out
        },
    }
}

/// What a refusal is counted under.
pub fn reason_code(reason: &RefusalReason) -> (r: String)
    ensures
        r@ == code_of(reason@),
{
    text_until(reason_brief(reason).as_str(), '(')
}

/// The one-line renderings of a list of refusals.
pub open spec fn briefs_of(reasons: Seq<ReasonView>) -> Seq<Seq<char>> {
    Seq::new(reasons.len(), |i: int| brief_of(reasons[i]))
}

/// The shortest renderings of a list of refusals.
pub open spec fn shorts_of(reasons: Seq<ReasonView>) -> Seq<Seq<char>> {
    Seq::new(reasons.len(), |i: int| short_of(reasons[i]))
}

/// A verdict on one line.
pub open spec fn verdict_brief_of(d: Disposition) -> Seq<char> {
    match d {
        Disposition::Reapable => "reapable"@,
        Disposition::Refused { reasons } => "refused: "@ + joined_texts(
            briefs_of(views(reasons@)),
            " · "@,
        ),
    }
}

/// A verdict in a few words.
pub open spec fn verdict_short_of(d: Disposition) -> Seq<char> {
    match d {
        Disposition::Reapable => "● reapable"@,
        Disposition::Refused { reasons } => "⚠ "@ + joined_texts(
            shorts_of(views(reasons@)),
            " "@,
        ),
    }
}

/// A verdict on one line.
pub fn verdict_brief(d: &Disposition) -> (r: String)
    ensures
        r@ == verdict_brief_of(*d),
{
    match d {
        Disposition::Reapable => "reapable".to_owned(),
        Disposition::Refused { reasons } => {
            let ghost all = briefs_of(views(reasons@));
            let mut parts: Vec<String> = Vec::new();
            assert(views(parts@) =~= all.take(0));
            for i in 0..reasons.len()
                invariant
                    all == briefs_of(views(reasons@)),
                    views(parts@) == all.take(i as int),
            {
                broadcast use lemma_views_push;

                parts.push(reason_brief(&reasons[i]));
                assert(views(parts@) =~= all.take(i + 1));
            }
            assert(views(parts@) =~= all);
            let mut out = "refused: ".to_owned();
            out.append(join_texts(parts.as_slice(), " · ").as_str());
            out
        },
    }
}

/// A verdict in a few words.
pub fn verdict_short(d: &Disposition) -> (r: String)
    ensures
        r@ == verdict_short_of(*d),
{
    match d {
        Disposition::Reapable => "● reapable".to_owned(),
        Disposition::Refused { reasons } => {
            let ghost all = shorts_of(views(reasons@));
            let mut parts: Vec<String> = Vec::new();
            assert(views(parts@) =~= all.take(0));
            for i in 0..reasons.len()
                invariant
                    all == shorts_of(views(reasons@)),
                    views(parts@) == all.take(i as int),
            {
                broadcast use lemma_views_push;

                parts.push(reason_short(&reasons[i]));
                assert(views(parts@) =~= all.take(i + 1));
            }
            assert(views(parts@) =~= all);
            let mut out = "⚠ ".to_owned();
            out.append(join_texts(parts.as_slice(), " ").as_str());
            out
        },
    }
}

} // verus!
