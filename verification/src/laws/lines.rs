//! Lines: what is shown of reasons, rows and totals.

use crate::classify::verdict_reasons;
use crate::laws::texts::up_to_a_character;
use crate::model::{Disposition, ReasonView};
use crate::orchestrator::ScanTotals;
use crate::paths::text_less;
use crate::render::{
    brief_of, briefs_of, code_of, short_of, shorts_of, verdict_brief_of, verdict_short_of,
};
use crate::report::{Row, RowView};
use crate::sizes::human_text;
use crate::table::{
    codes_of, count, hint_text, is_last_line, is_tally, lists, row_codes, row_text, sealed_text,
    summary_text, tally_before, top_texts,
};
use crate::text::{bracketed, decimal_text, joined_texts, padded_left, padded_right, views};
use vstd::prelude::*;

verus! {

/// How each reason is shown, with what was found.
pub proof fn reasons_are_shown(
    entries: usize,
    count: u64,
    note: Seq<char>,
    pids: Seq<u32>,
    days: u64,
    least: u64,
)
    ensures
        brief_of(ReasonView::Dirty { entries }) == "dirty("@ + decimal_text(entries as nat) + ")"@,
        brief_of(ReasonView::UnpushedCommits { count }) == "unpushed("@ + decimal_text(count as nat)
            + ")"@,
        brief_of(ReasonView::Locked { note: Some(note) }) == "locked("@ + note + ")"@,
        brief_of(ReasonView::Locked { note: None }) == "locked"@,
        brief_of(ReasonView::Detached { unreachable_commits: count }) == "detached("@
            + decimal_text(count as nat) + " unreachable)"@,
        brief_of(ReasonView::LiveProcess { pids }) == "live-process("@ + bracketed(pids) + ")"@,
        brief_of(ReasonView::ActiveBuild { pids }) == "active-build"@,
        brief_of(ReasonView::CrossDevice) == "cross-device"@,
        brief_of(ReasonView::CloudBacked) == "cloud-backed"@,
        brief_of(ReasonView::Protected { pattern: note }) == "protected("@ + note + ")"@,
        brief_of(ReasonView::CachesExcluded) == "caches-excluded"@,
        brief_of(ReasonView::TooRecent { idle_days: days, min_idle_days: least })
            == "too-recent("@ + decimal_text(days as nat) + "d < "@ + decimal_text(least as nat)
            + "d)"@,
        brief_of(ReasonView::TooSmall { size_bytes: days, min_size_bytes: least })
            == "too-small("@ + decimal_text(days as nat) + " < "@ + decimal_text(least as nat)
            + ")"@,
        brief_of(ReasonView::Unknown { what: note }) == "unknown("@ + note + ")"@,
{
}

/// How each reason is shown where there is little room.
pub proof fn reasons_are_shown_shortly(
    entries: usize,
    count: u64,
    note: Option<Seq<char>>,
    text: Seq<char>,
    pids: Seq<u32>,
    days: u64,
    least: u64,
)
    ensures
        short_of(ReasonView::Dirty { entries }) == "dirty("@ + decimal_text(entries as nat) + ")"@,
        short_of(ReasonView::UnpushedCommits { count }) == "unpushed("@ + decimal_text(count as nat)
            + ")"@,
        short_of(ReasonView::Locked { note }) == "locked"@,
        short_of(ReasonView::Detached { unreachable_commits: count }) == "detached"@,
        short_of(ReasonView::LiveProcess { pids }) == "live("@ + decimal_text(pids.len()) + ")"@,
        short_of(ReasonView::ActiveBuild { pids }) == "building"@,
        short_of(ReasonView::CrossDevice) == "xdev"@,
        short_of(ReasonView::CloudBacked) == "cloud"@,
        short_of(ReasonView::Protected { pattern: text }) == "protected"@,
        short_of(ReasonView::CachesExcluded) == "cache(opt-in)"@,
        short_of(ReasonView::TooRecent { idle_days: days, min_idle_days: least }) == "fresh("@
            + decimal_text(days as nat) + "d<"@ + decimal_text(least as nat) + "d)"@,
        short_of(ReasonView::TooSmall { size_bytes: days, min_size_bytes: least }) == "small"@,
        short_of(ReasonView::Unknown { what: text }) == "?"@ + text,
{
}

/// The code of a reason is how it is shown, up to what was found.
pub proof fn codes_are_without_what_was_found(reason: ReasonView)
    ensures
        ({
            let n = code_of(reason).len() as int;
            &&& n <= brief_of(reason).len()
            &&& code_of(reason) == brief_of(reason).take(n)
            &&& forall|i: int| 0 <= i < n ==> brief_of(reason)[i] != '('
            &&& n < brief_of(reason).len() ==> brief_of(reason)[n] == '('
        }),
{
    up_to_a_character(brief_of(reason), '(');
}

/// A verdict is shown as reapable, or with every reason, in order.
pub proof fn verdicts_are_shown(d: Disposition)
    ensures
        d is Reapable ==> verdict_brief_of(d) == "reapable"@ && verdict_short_of(d)
            == "● reapable"@,
        verdict_reasons(d) matches Some(reasons) ==> {
            &&& d is Refused
            &&& verdict_brief_of(d) == "refused: "@ + joined_texts(
                Seq::new(reasons.len(), |i: int| brief_of(reasons[i])),
                " · "@,
            )
            &&& verdict_short_of(d) == "⚠ "@ + joined_texts(
                Seq::new(reasons.len(), |i: int| short_of(reasons[i])),
                " "@,
            )
        },
        d is Reapable <==> verdict_reasons(d) is None,
{
    if let Disposition::Refused { reasons } = d {
        let all = views(reasons@);
        assert(briefs_of(all) =~= Seq::new(all.len(), |i: int| brief_of(all[i])));
        assert(shorts_of(all) =~= Seq::new(all.len(), |i: int| short_of(all[i])));
    }
}

/// A row is shown with its size, ecosystem, idle days, path and verdict.
pub proof fn rows_are_shown(row: Row)
    ensures
        row_text(row) == padded_left(
            match row.size_bytes {
                Some(n) => human_text(n),
                None => "?"@,
            },
            9,
        ) + " "@ + padded_right(row.candidate.ecosystem.0@, 8) + " "@ + padded_right(
            match row.idle_days {
                Some(days) => "idle "@ + decimal_text(days as nat) + "d"@,
                None => "idle ?"@,
            },
            9,
        ) + " "@ + padded_right(row.candidate.path@, 40) + " "@ + verdict_brief_of(row.disposition),
{
}

/// How often a code occurs.
pub open spec fn occurrences(codes: Seq<Seq<char>>, code: Seq<char>) -> nat {
    codes.filter(|c: Seq<char>| c == code).len()
}

/// A code is counted as often as it occurs.
pub proof fn codes_are_counted(codes: Seq<Seq<char>>, code: Seq<char>)
    ensures
        count(codes, code) == occurrences(codes, code),
    decreases codes.len(),
{
    reveal(Seq::filter);
    if codes.len() > 0 {
        codes_are_counted(codes.drop_last(), code);
    }
}

/// The codes of the rows are those of every reason of every row.
pub proof fn codes_of_rows(rows: Seq<RowView>, row: RowView)
    ensures
        row_codes(seq![]).len() == 0,
        row.verdict is None ==> row_codes(rows.push(row)) == row_codes(rows),
        row.verdict matches Some(reasons) ==> row_codes(rows.push(row)) == row_codes(rows)
            + Seq::new(reasons.len(), |i: int| code_of(reasons[i])),
{
    assert(rows.push(row).drop_last() =~= rows);
    assert(row_codes(rows) + Seq::<Seq<char>>::empty() =~= row_codes(rows));
    if let Some(reasons) = row.verdict {
        assert(codes_of(reasons) =~= Seq::new(reasons.len(), |i: int| code_of(reasons[i])));
    }
}

/// A tally has a code.
pub open spec fn has_code(tally: Seq<(Seq<char>, nat)>, code: Seq<char>) -> bool {
    exists|i: int| 0 <= i < tally.len() && (#[trigger] tally[i]).0 == code
}

/// A tally has every code once, with how often it occurs, the most frequent first and the equally
/// frequent by their letters.
pub proof fn tallies_count_every_code(codes: Seq<Seq<char>>, tally: Seq<(Seq<char>, nat)>)
    requires
        is_tally(codes, tally),
    ensures
        forall|i: int|
            0 <= i < tally.len() ==> (#[trigger] tally[i]).1 == occurrences(codes, tally[i].0)
                && tally[i].1 > 0,
        forall|k: int| 0 <= k < codes.len() ==> has_code(tally, #[trigger] codes[k]),
        forall|i: int, j: int|
            0 <= i < j < tally.len() ==> {
                ||| (#[trigger] tally[i]).1 > (#[trigger] tally[j]).1
                ||| tally[i].1 == tally[j].1 && text_less(tally[i].0, tally[j].0)
            },
{
    assert forall|i: int| 0 <= i < tally.len() implies (#[trigger] tally[i]).1 == occurrences(
        codes,
        tally[i].0,
    ) && tally[i].1 > 0 by {
        codes_are_counted(codes, tally[i].0);
    }
    assert forall|k: int| 0 <= k < codes.len() implies has_code(tally, #[trigger] codes[k]) by {
        assert(lists(tally, codes[k]));
        let i = choose|i: int| 0 <= i < tally.len() && (#[trigger] tally[i]).0 == codes[k];
        assert(tally[i].0 == codes[k]);
    }
    assert forall|i: int, j: int| 0 <= i < j < tally.len() implies {
        ||| (#[trigger] tally[i]).1 > (#[trigger] tally[j]).1
        ||| tally[i].1 == tally[j].1 && text_less(tally[i].0, tally[j].0)
    } by {
        assert(tally_before(tally[i], tally[j]));
    }
}

/// Where nothing is reapable, the three most frequent reasons are named, with how often each
/// occurs.
pub proof fn hints_name_the_most_frequent(candidates: nat, tally: Seq<(Seq<char>, nat)>)
    ensures
        hint_text(candidates, tally) == "0 reapable — all "@ + decimal_text(candidates)
            + " candidate(s) refused ("@ + joined_texts(
            Seq::new(
                if tally.len() < 3 {
                    tally.len()
                } else {
                    3
                },
                |i: int| tally[i].0 + "×"@ + decimal_text(tally[i].1),
            ),
            " · "@,
        ) + "). Fresh builds age out: try --min-idle-days 1, or check the refusals above."@,
{
    assert(top_texts(tally) =~= Seq::new(
        if tally.len() < 3 {
            tally.len()
        } else {
            3
        },
        |i: int| tally[i].0 + "×"@ + decimal_text(tally[i].1),
    ));
}

/// What was scanned is summed up, and how much of it is reapable.
pub proof fn totals_are_shown(totals: ScanTotals, bytes: u64, digest: Seq<char>)
    ensures
        summary_text(totals, bytes) == decimal_text(totals.candidates as nat) + " candidate(s) · "@
            + decimal_text(totals.dirs as nat) + " dirs · "@ + decimal_text(totals.files as nat)
            + " files scanned · "@ + human_text(bytes) + " reapable"@,
        sealed_text(digest) == "plan sealed: reaper reap --plan "@ + digest
            + " [--execute]   (PERMANENT delete)"@,
{
}

/// The last line names the plan that was sealed; where none was, it is the hint.
pub proof fn last_lines(rows: Seq<RowView>, digest: Seq<char>, line: Seq<char>)
    ensures
        is_last_line(rows, Some(digest), line) <==> line == sealed_text(digest),
        is_last_line(rows, None, line) <==> exists|tally: Seq<(Seq<char>, nat)>| #[trigger]
            is_tally(row_codes(rows), tally) && line == hint_text(rows.len(), tally),
{
}

} // verus!
