//! The scan report as a table, for people.

use crate::model::{Disposition, ReasonView};
use crate::orchestrator::ScanTotals;
use crate::paths::{text_before, text_less, text_order_is_total, text_order_is_transitive};
use crate::render::{code_of, reason_code, verdict_brief, verdict_brief_of};
use crate::report::{Row, RowView};
use crate::sizes::{human_bytes, human_text};
use crate::text::{
    chars_of, decimal, decimal_text, join_texts, joined_texts, lemma_views_push, pad_left,
    pad_right, padded_left, padded_right, same_text, views,
};
use vstd::prelude::*;
use vstd::string::*;

verus! {

/// The size of a row, as it is shown.
pub open spec fn size_cell(size: Option<u64>) -> Seq<char> {
    match size {
        Some(n) => human_text(n),
        None => "?"@,
    }
}

/// The idleness of a row, as it is shown.
pub open spec fn idle_cell(idle: Option<u64>) -> Seq<char> {
    match idle {
        Some(days) => "idle "@ + decimal_text(days as nat) + "d"@,
        None => "idle ?"@,
    }
}

/// The line of a row.
pub open spec fn row_text(row: Row) -> Seq<char> {
    padded_left(size_cell(row.size_bytes), 9) + " "@ + padded_right(row.candidate@.ecosystem, 8)
        + " "@ + padded_right(idle_cell(row.idle_days), 9) + " "@ + padded_right(
        row.candidate@.path,
        40,
    ) + " "@ + verdict_brief_of(row.disposition)
}

/// The line of a row.
pub fn row_line(row: &Row) -> (r: String)
    ensures
        r@ == row_text(*row),
{
    let size = match row.size_bytes {
        Some(n) => human_bytes(n),
        None => "?".to_owned(),
    };
    let idle = match row.idle_days {
        Some(days) => {
            let mut out = "idle ".to_owned();
            out.append(decimal(days).as_str());
            out.append("d");
            out
        },
        None => "idle ?".to_owned(),
    };
    let mut out = pad_left(size.as_str(), 9);
    out.append(" ");
    out.append(pad_right(row.candidate.ecosystem.0.as_str(), 8).as_str());
    out.append(" ");
    out.append(pad_right(idle.as_str(), 9).as_str());
    out.append(" ");
    out.append(pad_right(row.candidate.path.as_str(), 40).as_str());
    out.append(" ");
    out.append(verdict_brief(&row.disposition).as_str());
    out
}

/// How often `code` occurs.
pub open spec fn count(codes: Seq<Seq<char>>, code: Seq<char>) -> nat
    decreases codes.len(),
{
    if codes.len() == 0 {
        0
    } else {
        count(codes.drop_last(), code) + (if codes.last() == code {
            1nat
        } else {
            0
        })
    }
}

/// The codes of a list of refusals.
pub open spec fn codes_of(reasons: Seq<ReasonView>) -> Seq<Seq<char>> {
    Seq::new(reasons.len(), |i: int| code_of(reasons[i]))
}

/// The codes of every refusal of the rows, in order.
pub open spec fn row_codes(rows: Seq<RowView>) -> Seq<Seq<char>>
    decreases rows.len(),
{
    if rows.len() == 0 {
        seq![]
    } else {
        row_codes(rows.drop_last()) + (match rows.last().verdict {
            Some(reasons) => codes_of(reasons),
            None => seq![],
        })
    }
}

/// More frequent codes come first, equally frequent ones in the order of their
/// texts.
pub open spec fn tally_before(a: (Seq<char>, nat), b: (Seq<char>, nat)) -> bool {
    a.1 > b.1 || (a.1 == b.1 && text_less(a.0, b.0))
}

/// `tally` lists this code.
pub open spec fn lists(tally: Seq<(Seq<char>, nat)>, code: Seq<char>) -> bool {
    exists|i: int| 0 <= i < tally.len() && (#[trigger] tally[i]).0 == code
}

/// `tally` lists each code that occurs, once, with how often it does, in order.
pub open spec fn is_tally(codes: Seq<Seq<char>>, tally: Seq<(Seq<char>, nat)>) -> bool {
    &&& forall|i: int, j: int|
        0 <= i < j < tally.len() ==> tally_before(#[trigger] tally[i], #[trigger] tally[j])
    &&& forall|i: int|
        0 <= i < tally.len() ==> (#[trigger] tally[i]).1 == count(codes, tally[i].0) && tally[i].1
            > 0
    &&& forall|k: int| 0 <= k < codes.len() ==> lists(tally, #[trigger] codes[k])
}

/// Codes and counts, as characters.
pub open spec fn tally_views(tally: Seq<(String, u64)>) -> Seq<(Seq<char>, nat)> {
    Seq::new(tally.len(), |i: int| (tally[i].0@, tally[i].1 as nat))
}

/// `counts` lists each of the codes once, with how often it occurs.
spec fn counts_all(codes: Seq<Seq<char>>, counts: Seq<(Seq<char>, nat)>) -> bool {
    &&& forall|i: int, j: int|
        0 <= i < j < counts.len() ==> (#[trigger] counts[i]).0 != (#[trigger] counts[j]).0
    &&& forall|i: int|
        0 <= i < counts.len() ==> (#[trigger] counts[i]).1 == count(codes, counts[i].0)
            && counts[i].1 > 0
    &&& forall|k: int| 0 <= k < codes.len() ==> lists(counts, #[trigger] codes[k])
}

proof fn lemma_count_absent(codes: Seq<Seq<char>>, code: Seq<char>)
    requires
        forall|k: int| 0 <= k < codes.len() ==> #[trigger] codes[k] != code,
    ensures
        count(codes, code) == 0,
    decreases codes.len(),
{
    if codes.len() > 0 {
        lemma_count_absent(codes.drop_last(), code);
    }
}

proof fn lemma_count_bound(codes: Seq<Seq<char>>, code: Seq<char>)
    ensures
        count(codes, code) <= codes.len(),
    decreases codes.len(),
{
    if codes.len() > 0 {
        lemma_count_bound(codes.drop_last(), code);
    }
}

/// Counts how often each code occurs.
fn count_codes(codes: &[String]) -> (r: Vec<(String, u64)>)
    ensures
        counts_all(views(codes@), tally_views(r@)),
{
    let ghost all = views(codes@);
    let mut counts: Vec<(String, u64)> = Vec::new();
    let n: usize = codes.len();
    let mut k: usize = 0;
    while k < n
        invariant
            n == codes@.len(),
            all == views(codes@),
            k <= n,
            counts_all(all.take(k as int), tally_views(counts@)),
        decreases n - k,
    {
        let ghost seen = all.take(k as int);
        let ghost now = all.take(k + 1);
        let ghost code = codes@[k as int]@;
        let ghost before = tally_views(counts@);
        assert(now.drop_last() =~= seen);
        assert(now.last() == code);
        assert(now =~= seen.push(code));
        let mut at: usize = 0;
        while at < counts.len() && !same_text(counts[at].0.as_str(), codes[k].as_str())
            invariant
                k < codes@.len(),
                code == codes@[k as int]@,
                at <= counts@.len(),
                before == tally_views(counts@),
                forall|i: int| 0 <= i < at ==> (#[trigger] before[i]).0 != code,
            decreases counts@.len() - at,
        {
            assert(before[at as int].0 == counts@[at as int].0@);
            at += 1;
        }
        if at < counts.len() {
            assert(before[at as int].0 == code);
            let old_count: u64 = counts[at].1;
            proof {
                assert(before[at as int].1 == count(seen, code));
                lemma_count_bound(seen, code);
            }
            let name = counts[at].0.clone();
            counts.set(at, (name, old_count + 1));
            proof {
                let after = tally_views(counts@);
                assert forall|i: int| 0 <= i < after.len() implies (#[trigger] after[i]).0
                    == before[i].0 by {}
                assert forall|i: int| 0 <= i < after.len() implies (#[trigger] after[i]).1
                    == count(now, after[i].0) && after[i].1 > 0 by {
                    assert(before[i].1 == count(seen, before[i].0));
                    if i != at {
                        if i < at {
                            assert(before[i].0 != before[at as int].0);
                        } else {
                            assert(before[at as int].0 != before[i].0);
                        }
                    }
                }
                assert forall|j: int| 0 <= j < now.len() implies lists(after, #[trigger] now[j]) by {
                    if j < seen.len() {
                        assert(now[j] == seen[j]);
                        assert(lists(before, seen[j]));
                        let i = choose|i: int|
                            0 <= i < before.len() && (#[trigger] before[i]).0 == seen[j];
                        assert(after[i].0 == now[j]);
                    } else {
                        assert(after[at as int].0 == now[j]);
                    }
                }
                assert forall|i: int, j: int| 0 <= i < j < after.len() implies (
                #[trigger] after[i]).0 != (#[trigger] after[j]).0 by {
                    assert(before[i].0 != before[j].0);
                }
            }
        } else {
            counts.push((codes[k].clone(), 1));
            proof {
                let after = tally_views(counts@);
                assert(after =~= before.push((code, 1nat)));
                assert forall|j: int| 0 <= j < seen.len() implies #[trigger] seen[j] != code by {
                    assert(lists(before, seen[j]));
                    let i = choose|i: int|
                        0 <= i < before.len() && (#[trigger] before[i]).0 == seen[j];
                    assert(before[i].0 != code);
                }
                lemma_count_absent(seen, code);
                assert forall|i: int| 0 <= i < after.len() implies (#[trigger] after[i]).1
                    == count(now, after[i].0) && after[i].1 > 0 by {
                    if i < before.len() {
                        assert(after[i] == before[i]);
                        assert(before[i].0 != code);
                    }
                }
                assert forall|j: int| 0 <= j < now.len() implies lists(after, #[trigger] now[j]) by {
                    if j < seen.len() {
                        assert(now[j] == seen[j]);
                        assert(lists(before, seen[j]));
                        let i = choose|i: int|
                            0 <= i < before.len() && (#[trigger] before[i]).0 == seen[j];
                        assert(after[i].0 == now[j]);
                    } else {
                        assert(after[before.len() as int].0 == now[j]);
                    }
                }
                assert forall|i: int, j: int| 0 <= i < j < after.len() implies (
                #[trigger] after[i]).0 != (#[trigger] after[j]).0 by {
                    assert(after[i] == before[i]);
                    if j < before.len() {
                        assert(after[j] == before[j]);
                    }
                }
            }
        }
        k += 1;
    }
    assert(all.take(all.len() as int) =~= all);
    counts
}

proof fn lemma_tally_order(a: (Seq<char>, nat), b: (Seq<char>, nat))
    requires
        a.0 != b.0,
    ensures
        tally_before(a, b) || tally_before(b, a),
{
    text_order_is_total(a.0, b.0);
}

proof fn lemma_tally_transitive(a: (Seq<char>, nat), b: (Seq<char>, nat), c: (Seq<char>, nat))
    requires
        tally_before(a, b),
        tally_before(b, c),
    ensures
        tally_before(a, c),
{
    if a.1 == b.1 && b.1 == c.1 {
        text_order_is_transitive(a.0, b.0, c.0);
    }
}

fn comes_before(a: &(String, u64), b: &(String, u64)) -> (r: bool)
    ensures
        r == tally_before((a.0@, a.1 as nat), (b.0@, b.1 as nat)),
{
    a.1 > b.1 || (a.1 == b.1 && text_before(
        chars_of(a.0.as_str()).as_slice(),
        chars_of(b.0.as_str()).as_slice(),
    ))
}

/// The pairs of `a` and of `b` are the same.
spec fn same_pairs(a: Seq<(Seq<char>, nat)>, b: Seq<(Seq<char>, nat)>) -> bool {
    &&& forall|i: int| 0 <= i < a.len() ==> b.contains(#[trigger] a[i])
    &&& forall|i: int| 0 <= i < b.len() ==> a.contains(#[trigger] b[i])
}

spec fn in_tally_order(tally: Seq<(Seq<char>, nat)>) -> bool {
    forall|i: int, j: int|
        0 <= i < j < tally.len() ==> tally_before(#[trigger] tally[i], #[trigger] tally[j])
}

fn insert_pair(tally: &mut Vec<(String, u64)>, pair: (String, u64))
    requires
        in_tally_order(tally_views(old(tally)@)),
        forall|i: int|
            0 <= i < old(tally)@.len() ==> (#[trigger] tally_views(old(tally)@)[i]).0 != pair.0@,
    ensures
        in_tally_order(tally_views(final(tally)@)),
        exists|at: int|
            0 <= at <= old(tally)@.len() && tally_views(final(tally)@) == #[trigger] tally_views(
                old(tally)@,
            ).insert(at, (pair.0@, pair.1 as nat)),
{
    let ghost before = tally_views(tally@);
    let ghost p = (pair.0@, pair.1 as nat);
    let mut at: usize = 0;
    while at < tally.len() && comes_before(&tally[at], &pair)
        invariant
            at <= tally@.len(),
            before == tally_views(tally@),
            p == (pair.0@, pair.1 as nat),
            forall|i: int| 0 <= i < at ==> tally_before(#[trigger] before[i], p),
        decreases tally@.len() - at,
    {
        assert(before[at as int] == (tally@[at as int].0@, tally@[at as int].1 as nat));
        at += 1;
    }
    proof {
        assert forall|i: int| at <= i < before.len() implies tally_before(
            p,
            #[trigger] before[i],
        ) by {
            let first = before[at as int];
            assert(first == (tally@[at as int].0@, tally@[at as int].1 as nat));
            lemma_tally_order(first, p);
            if i > at {
                lemma_tally_transitive(p, first, before[i]);
            }
        }
    }
    tally.insert(at, pair);
    proof {
        let after = tally_views(tally@);
        assert(after =~= before.insert(at as int, p));
        assert forall|i: int, j: int| 0 <= i < j < after.len() implies tally_before(
            #[trigger] after[i],
            #[trigger] after[j],
        ) by {
            let bi = if i < at {
                i
            } else {
                i - 1
            };
            let bj = if j < at {
                j
            } else {
                j - 1
            };
            if i != at {
                assert(after[i] == before[bi]);
            }
            if j != at {
                assert(after[j] == before[bj]);
            }
            if i != at && j != at {
                assert(tally_before(before[bi], before[bj]));
            }
        }
    }
}

fn sort_tally(counts: Vec<(String, u64)>) -> (r: Vec<(String, u64)>)
    requires
        forall|i: int, j: int|
            0 <= i < j < counts@.len() ==> (#[trigger] tally_views(counts@)[i]).0 != (
            #[trigger] tally_views(counts@)[j]).0,
    ensures
        in_tally_order(tally_views(r@)),
        same_pairs(tally_views(r@), tally_views(counts@)),
{
    let ghost list = counts@;
    let ghost all = tally_views(counts@);
    let mut out: Vec<(String, u64)> = Vec::new();
    for pair in it: counts
        invariant
            it.seq() == list,
            all == tally_views(list),
            forall|i: int, j: int|
                0 <= i < j < all.len() ==> (#[trigger] all[i]).0 != (#[trigger] all[j]).0,
            in_tally_order(tally_views(out@)),
            same_pairs(tally_views(out@), all.take(it.index() as int)),
    {
        let ghost k = it.index() as int;
        let ghost before = tally_views(out@);
        let ghost seen = all.take(k);
        let ghost p = (pair.0@, pair.1 as nat);
        proof {
            assert(all[k] == p);
            assert forall|i: int| 0 <= i < before.len() implies (#[trigger] before[i]).0 != p.0 by {
                assert(seen.contains(before[i]));
                let j = choose|j: int| 0 <= j < seen.len() && seen[j] == before[i];
                assert(all[j].0 != all[k].0);
            }
        }
        insert_pair(&mut out, pair);
        proof {
            let after = tally_views(out@);
            let now = all.take(k + 1);
            let at = choose|at: int|
                0 <= at <= before.len() && after == #[trigger] before.insert(at, p);
            assert forall|i: int| 0 <= i < after.len() implies now.contains(
                #[trigger] after[i],
            ) by {
                if i == at {
                    assert(now[k] == p);
                } else {
                    let bi = if i < at {
                        i
                    } else {
                        i - 1
                    };
                    assert(after[i] == before[bi]);
                    assert(seen.contains(before[bi]));
                    let j = choose|j: int| 0 <= j < seen.len() && seen[j] == before[bi];
                    assert(now[j] == before[bi]);
                }
            }
            assert forall|j: int| 0 <= j < now.len() implies after.contains(#[trigger] now[j]) by {
                if j == k {
                    assert(after[at] == p);
                } else {
                    assert(now[j] == seen[j]);
                    assert(before.contains(seen[j]));
                    let i = choose|i: int| 0 <= i < before.len() && before[i] == seen[j];
                    if i < at {
                        assert(after[i] == now[j]);
                    } else {
                        assert(after[i + 1] == now[j]);
                    }
                }
            }
        }
    }
    assert(all.take(all.len() as int) =~= all);
    out
}

fn collect_codes(rows: &[Row]) -> (r: Vec<String>)
    ensures
        views(r@) == row_codes(views(rows@)),
{
    let ghost all = views(rows@);
    let mut out: Vec<String> = Vec::new();
    assert(views(out@) =~= row_codes(all.take(0)));
    for i in 0..rows.len()
        invariant
            all == views(rows@),
            views(out@) == row_codes(all.take(i as int)),
    {
        let ghost before = views(out@);
        assert(all.take(i + 1).drop_last() =~= all.take(i as int));
        assert(all.take(i + 1).last() == rows@[i as int]@);
        match &rows[i].disposition {
            Disposition::Reapable => {
                assert(before + Seq::<Seq<char>>::empty() =~= before);
            },
            Disposition::Refused { reasons } => {
                let ghost codes = codes_of(views(reasons@));
                assert(before =~= before + codes.take(0));
                for j in 0..reasons.len()
                    invariant
                        codes == codes_of(views(reasons@)),
                        views(out@) == before + codes.take(j as int),
                {
                    broadcast use lemma_views_push;

                    out.push(reason_code(&reasons[j]));
                    assert(views(out@) =~= before + codes.take(j + 1));
                }
                assert(codes.take(codes.len() as int) =~= codes);
            },
        }
    }
    assert(all.take(all.len() as int) =~= all);
    out
}

/// Counts the refusals of the rows by their codes: more frequent codes come
/// first, equally frequent ones in the order of their texts.
pub fn tally_refusals(rows: &[Row]) -> (r: Vec<(String, u64)>)
    ensures
        is_tally(row_codes(views(rows@)), tally_views(r@)),
{
    let codes = collect_codes(rows);
    let ghost all = views(codes@);
    let counts = count_codes(codes.as_slice());
    let ghost counted = tally_views(counts@);
    let tally = sort_tally(counts);
    proof {
        let t = tally_views(tally@);
        assert forall|i: int| 0 <= i < t.len() implies (#[trigger] t[i]).1 == count(all, t[i].0)
            && t[i].1 > 0 by {
            assert(counted.contains(t[i]));
            let j = choose|j: int| 0 <= j < counted.len() && counted[j] == t[i];
            assert(counted[j].1 == count(all, counted[j].0));
        }
        assert forall|k: int| 0 <= k < all.len() implies lists(t, #[trigger] all[k]) by {
            assert(lists(counted, all[k]));
            let j = choose|j: int| 0 <= j < counted.len() && (#[trigger] counted[j]).0 == all[k];
            assert(t.contains(counted[j]));
            let i = choose|i: int| 0 <= i < t.len() && t[i] == counted[j];
            assert(t[i].0 == all[k]);
        }
    }
    tally
}

/// How many codes a hint names.
pub const HINT_CODES: usize = 3;

/// The most frequent codes of a tally, each with its count.
pub open spec fn top_texts(tally: Seq<(Seq<char>, nat)>) -> Seq<Seq<char>> {
    Seq::new(
        if tally.len() < HINT_CODES {
            tally.len()
        } else {
            HINT_CODES as nat
        },
        |i: int| tally[i].0 + "×"@ + decimal_text(tally[i].1),
    )
}

/// Where nothing is reapable the report says why, and hands over the lever.
pub open spec fn hint_text(candidates: nat, tally: Seq<(Seq<char>, nat)>) -> Seq<char> {
    "0 reapable — all "@ + decimal_text(candidates) + " candidate(s) refused ("@ + joined_texts(
        top_texts(tally),
        " · "@,
    ) + "). Fresh builds age out: try --min-idle-days 1, or check the refusals above."@
}

/// The hint for these rows.
pub fn hint_line(rows: &[Row]) -> (r: String)
    ensures
        exists|tally: Seq<(Seq<char>, nat)>| #[trigger]
            is_tally(row_codes(views(rows@)), tally) && r@ == hint_text(rows@.len(), tally),
{
    let tally = tally_refusals(rows);
    let ghost t = tally_views(tally@);
    let n: usize = if tally.len() < HINT_CODES {
        tally.len()
    } else {
        HINT_CODES
    };
    let mut top: Vec<String> = Vec::new();
    assert(views(top@) =~= top_texts(t).take(0));
    for i in 0..n
        invariant
            t == tally_views(tally@),
            n <= tally@.len(),
            n == top_texts(t).len(),
            views(top@) == top_texts(t).take(i as int),
    {
        broadcast use lemma_views_push;

        let mut text = tally[i].0.clone();
        text.append("×");
        text.append(decimal(tally[i].1).as_str());
        top.push(text);
        assert(views(top@) =~= top_texts(t).take(i + 1));
    }
    assert(views(top@) =~= top_texts(t));
    let mut out = "0 reapable — all ".to_owned();
    out.append(decimal(rows.len() as u64).as_str());
    out.append(" candidate(s) refused (");
    out.append(join_texts(top.as_slice(), " · ").as_str());
    out.append("). Fresh builds age out: try --min-idle-days 1, or check the refusals above.");
    assert(is_tally(row_codes(views(rows@)), t) && out@ == hint_text(rows@.len(), t));
    out
}

/// The line that sums up a scan.
pub open spec fn summary_text(totals: ScanTotals, reapable_bytes: u64) -> Seq<char> {
    decimal_text(totals.candidates as nat) + " candidate(s) · "@ + decimal_text(totals.dirs as nat)
        + " dirs · "@ + decimal_text(totals.files as nat) + " files scanned · "@ + human_text(
        reapable_bytes,
    ) + " reapable"@
}

/// The line that sums up a scan.
pub fn summary_line(totals: &ScanTotals, reapable_bytes: u64) -> (r: String)
    ensures
        r@ == summary_text(*totals, reapable_bytes),
{
    let mut out = decimal(totals.candidates);
    out.append(" candidate(s) · ");
    out.append(decimal(totals.dirs).as_str());
    out.append(" dirs · ");
    out.append(decimal(totals.files).as_str());
    out.append(" files scanned · ");
    out.append(human_bytes(reapable_bytes).as_str());
    out.append(" reapable");
    out
}

/// The line that hands over the plan.
pub open spec fn sealed_text(digest: Seq<char>) -> Seq<char> {
    "plan sealed: reaper reap --plan "@ + digest + " [--execute]   (PERMANENT delete)"@
}

/// `line` is the last line of a report: the plan, where there is one; else why
/// there is none.
pub open spec fn is_last_line(
    rows: Seq<RowView>,
    digest: Option<Seq<char>>,
    line: Seq<char>,
) -> bool {
    match digest {
        Some(digest) => line == sealed_text(digest),
        None => exists|tally: Seq<(Seq<char>, nat)>| #[trigger]
            is_tally(row_codes(rows), tally) && line == hint_text(rows.len(), tally),
    }
}

/// The report as a table: a line for each row, the line that sums it up, and,
/// unless there is neither a plan nor a candidate, a last line.
pub fn table_lines(
    rows: &[Row],
    totals: &ScanTotals,
    reapable_bytes: u64,
    digest: Option<&str>,
) -> (r: Vec<String>)
    ensures
        r@.len() == rows@.len() + (if digest is Some || rows@.len() > 0 {
            2int
        } else {
            1
        }),
        forall|i: int| 0 <= i < rows@.len() ==> (#[trigger] r@[i])@ == row_text(rows@[i]),
        r@[rows@.len() as int]@ == summary_text(*totals, reapable_bytes),
        r@.len() == rows@.len() + 2 ==> is_last_line(
            views(rows@),
            match digest {
                Some(d) => Some(d@),
                None => None,
            },
            r@.last()@,
        ),
{
    let mut out: Vec<String> = Vec::new();
    for i in 0..rows.len()
        invariant
            out@.len() == i,
            forall|j: int| 0 <= j < i ==> (#[trigger] out@[j])@ == row_text(rows@[j]),
    {
        out.push(row_line(&rows[i]));
    }
    out.push(summary_line(totals, reapable_bytes));
    match digest {
        Some(digest) => {
            let mut line = "plan sealed: reaper reap --plan ".to_owned();
            line.append(digest);
            line.append(" [--execute]   (PERMANENT delete)");
            out.push(line);
        },
        None => {
            if rows.len() > 0 {
                out.push(hint_line(rows));
            }
        },
    }
    out
}

} // verus!
