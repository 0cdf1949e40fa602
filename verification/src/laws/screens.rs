//! Screens: what the keys of the interactive browser do, and what it shows.

use crate::browser::{
    added, entry_point, key_next, mark_of, marked_facts, marked_sizes, reported, rows_left,
    visible_rows, was_reaped, BrowserView, ItemView, Key, ModeView,
};
use crate::classify::verdict;
use crate::deleter::OutcomeView;
use crate::laws::verdicts::reapable_needs_every_gate;
use crate::model::{FactsView, ReasonView};
use crate::paths::path_components;
use crate::policy::PolicyView;
use crate::report::size_or_zero;
use crate::text::text_contains;
use vstd::prelude::*;

verus! {

/// The key is this character, whatever is held with it.
pub open spec fn types(key: Key, c: char) -> bool {
    key matches Key::Char { c: typed, .. } && typed == c
}

/// While rows are browsed, down and `j` go one row on, up and `k` one row back, never past the ends.
/// Nothing else moves.
pub proof fn arrows_move_by_one(b: BrowserView, key: Key)
    requires
        b.mode is Browse,
        b.items.len() <= usize::MAX,
    ensures
        ({
            let n = b.items.len() as int;
            let at = if b.selected is Some {
                b.selected->0 as int
            } else {
                0
            };
            let now = key_next(b, key).0.selected;
            let down = key is Down || types(key, 'j');
            let up = key is Up || types(key, 'k');
            &&& n > 0 && down && at + 1 < n ==> now == Some((at + 1) as usize)
            &&& n > 0 && down && at + 1 >= n ==> now == Some((n - 1) as usize)
            &&& n > 0 && up && 0 < at <= n ==> now == Some((at - 1) as usize)
            &&& n > 0 && up && at == 0 ==> now == Some(0usize)
            &&& n > 0 && up && at > n ==> now == Some((n - 1) as usize)
            &&& n == 0 || (!down && !up) ==> now == b.selected
        }),
{
}

/// Blank turns the mark of the selected row, if that is reapable; `a` marks every row that is. No
/// other key marks anything, and no key does in another mode.
pub proof fn keys_that_mark(b: BrowserView, key: Key, i: int)
    requires
        0 <= i < b.items.len(),
    ensures
        ({
            let item = b.items[i];
            let now = key_next(b, key).0.items[i];
            let browsing = b.mode is Browse;
            &&& key_next(b, key).0.items.len() == b.items.len()
            &&& now == (ItemView { marked: now.marked, ..item })
            &&& browsing && types(key, ' ') && b.selected == Some(i as usize) && b.selected->0 == i
                && item.verdict is None ==> now.marked == !item.marked
            &&& browsing && types(key, ' ') && !(b.selected is Some && b.selected->0 == i) ==> now
                == item
            &&& browsing && types(key, 'a') && item.verdict is None ==> now.marked
            &&& item.verdict is Some ==> now == item
            &&& !browsing || !(types(key, ' ') || types(key, 'a')) ==> now == item
        }),
{
}

/// What a key asks for: `q`, escape and control-`c` quit, `x` and `d` seal, while rows are browsed;
/// `y` executes, where a plan is to be confirmed; nothing else asks for anything.
pub proof fn keys_that_act(b: BrowserView, key: Key)
    ensures
        ({
            let action = key_next(b, key).1;
            &&& action is Quit <==> b.mode is Browse && (key is Esc || types(key, 'q') || key == (
            Key::Char { c: 'c', control: true }))
            &&& action is Seal <==> b.mode is Browse && (types(key, 'x') || types(key, 'd'))
            &&& action is Execute <==> b.mode is Confirm && types(key, 'y')
        }),
{
}

/// A slash begins a filter; what is typed is added to it, backspace takes the last character off,
/// and escape or enter ends it. A report is left with any key, and a plan to confirm with any but
/// `y`. Else the mode stays.
pub proof fn keys_that_change_the_mode(b: BrowserView, key: Key)
    ensures
        ({
            let now = key_next(b, key).0.mode;
            &&& b.mode is Browse && types(key, '/') ==> now == ModeView::Filter(seq![])
            &&& b.mode is Browse && !types(key, '/') ==> now == b.mode
            &&& b.mode matches ModeView::Filter(f) ==> {
                &&& key is Esc || key is Enter ==> now is Browse
                &&& key matches Key::Char { c, .. } ==> now == ModeView::Filter(f.push(c))
                &&& key is Backspace && f.len() > 0 ==> now == ModeView::Filter(f.drop_last())
                &&& key is Backspace && f.len() == 0 ==> now == b.mode
                &&& key is Up || key is Down || key is Other ==> now == b.mode
            }
            &&& b.mode is Report ==> now is Browse
            &&& b.mode is Confirm && !types(key, 'y') ==> now is Browse
            &&& b.mode is Confirm && types(key, 'y') ==> now == b.mode
            &&& !(b.mode is Browse) ==> key_next(b, key).0.selected == b.selected
        }),
{
}

/// A row enters after all that are at least as large, and before all that are smaller.
pub proof fn rows_enter_by_size(items: Seq<ItemView>, size: u64)
    ensures
        ({
            let at = entry_point(items, size);
            &&& at <= items.len()
            &&& forall|i: int|
                0 <= i < at ==> (match (#[trigger] items[i]).facts.size_bytes {
                    Some(n) => n,
                    None => 0u64,
                }) >= size
            &&& at < items.len() ==> (match items[at as int].facts.size_bytes {
                Some(n) => n,
                None => 0u64,
            }) < size
        }),
    decreases items.len(),
{
    if items.len() > 0 && size_or_zero(items[0].facts) >= size {
        let rest = items.skip(1);
        rows_enter_by_size(rest, size);
        let at = entry_point(items, size);
        assert forall|i: int| 0 <= i < at implies (match (
        #[trigger] items[i]).facts.size_bytes {
            Some(n) => n,
            None => 0u64,
        }) >= size by {
            if i > 0 {
                assert(items[i] == rest[i - 1]);
            }
        }
        if at < items.len() {
            assert(items[at as int] == rest[at - 1]);
        }
    }
}

/// The rows are kept largest first, and only what is reapable is marked.
pub proof fn what_a_browser_keeps(b: BrowserView)
    ensures
        b.wf() <==> {
            &&& forall|i: int, j: int|
                0 <= i < j < b.items.len() ==> size_or_zero((#[trigger] b.items[i]).facts)
                    >= size_or_zero((#[trigger] b.items[j]).facts)
            &&& forall|i: int|
                0 <= i < b.items.len() && (#[trigger] b.items[i]).marked
                    ==> b.items[i].verdict is None
        },
{
}

/// What is reaped of the rows is what is marked and still reapable, all of it, in order.
pub proof fn marked_rows_are_reaped(items: Seq<ItemView>, p: PolicyView)
    ensures
        marked_facts(items, p) == items.filter(
            |i: ItemView| i.marked && verdict(i.facts, p) is None,
        ).map_values(|i: ItemView| i.facts),
    decreases items.len(),
{
    reveal(Seq::filter);
    let pred = |i: ItemView| i.marked && verdict(i.facts, p) is None;
    let facts = |i: ItemView| i.facts;
    if items.len() > 0 {
        marked_rows_are_reaped(items.drop_last(), p);
        reapable_needs_every_gate(items.last().facts, p);
    }
    assert(marked_facts(items, p) =~= items.filter(pred).map_values(facts));
}

/// A row leaves where its path was reaped; the others stay, in order.
pub proof fn rows_leave_when_reaped(items: Seq<ItemView>, outcomes: Seq<OutcomeView>)
    ensures
        rows_left(items, outcomes) == items.filter(
            |item: ItemView|
                forall|i: int|
                    0 <= i < outcomes.len() ==> !(#[trigger] outcomes[i] matches OutcomeView::Reaped {
                        path,
                        ..
                    } && path_components(path) == path_components(item.facts.candidate.path)),
        ),
    decreases items.len(),
{
    reveal(Seq::filter);
    let pred = |item: ItemView|
        forall|i: int|
            0 <= i < outcomes.len() ==> !(#[trigger] outcomes[i] matches OutcomeView::Reaped {
                path,
                ..
            } && path_components(path) == path_components(item.facts.candidate.path));
    if items.len() > 0 {
        rows_leave_when_reaped(items.drop_last(), outcomes);
        let item = items.last();
        assert(was_reaped(outcomes, item.facts.candidate.path) <==> !pred(item)) by {
            if was_reaped(outcomes, item.facts.candidate.path) {
                let i = choose|i: int|
                    0 <= i < outcomes.len() && ((
                    #[trigger] outcomes[i]) matches OutcomeView::Reaped { path: p, .. }
                        && crate::paths::same_path(p, item.facts.candidate.path));
                assert(outcomes[i] is Reaped);
            }
        }
    }
    assert(rows_left(items, outcomes) =~= items.filter(pred));
}

/// A text holds another where it stands somewhere in it.
pub proof fn texts_hold_what_stands_in_them(s: Seq<char>, part: Seq<char>)
    ensures
        text_contains(s, part) <==> exists|k: int|
            0 <= k <= s.len() - part.len() && #[trigger] s.subrange(k, k + part.len()) == part,
{
}

/// A row is shown where its path holds what is filtered for; without a filter every row is. The
/// rows are shown in order, each once.
pub proof fn filters_hide_other_rows(b: BrowserView, n: int)
    requires
        0 <= n <= b.items.len() <= usize::MAX,
    ensures
        forall|i: int|
            0 <= i < n ==> (visible_rows(b, n).contains(i as usize) <==> {
                b.mode matches ModeView::Filter(f) ==> f.len() == 0 || text_contains(
                    (#[trigger] b.items[i]).facts.candidate.path,
                    f,
                )
            }),
        forall|k: int|
            0 <= k < visible_rows(b, n).len() ==> (#[trigger] visible_rows(b, n)[k]) < n,
        forall|j: int, k: int|
            0 <= j < k < visible_rows(b, n).len() ==> (#[trigger] visible_rows(b, n)[j]) < (
            #[trigger] visible_rows(b, n)[k]),
    decreases n,
{
    if n > 0 {
        let rest = visible_rows(b, n - 1);
        let all = visible_rows(b, n);
        filters_hide_other_rows(b, n - 1);
        assert forall|k: int| 0 <= k < rest.len() implies all[k] == rest[k] by {}
        assert forall|i: int| 0 <= i < n implies (all.contains(i as usize) <==> {
            b.mode matches ModeView::Filter(f) ==> f.len() == 0 || text_contains(
                (#[trigger] b.items[i]).facts.candidate.path,
                f,
            )
        }) by {
            if i < n - 1 {
                if rest.contains(i as usize) {
                    let k = choose|k: int| 0 <= k < rest.len() && rest[k] == i as usize;
                    assert(all[k] == i as usize);
                }
                if all.contains(i as usize) {
                    let k = choose|k: int| 0 <= k < all.len() && all[k] == i as usize;
                    assert(k < rest.len());
                    assert(rest[k] == i as usize);
                }
            } else {
                if all.len() > rest.len() {
                    assert(all[rest.len() as int] == i as usize);
                }
                if all.contains(i as usize) {
                    let k = choose|k: int| 0 <= k < all.len() && all[k] == i as usize;
                    if k < rest.len() {
                        assert(rest[k] < n - 1);
                    }
                }
            }
        }
    }
}

/// The sizes of the marked rows are counted, each known one with its bytes.
pub proof fn marked_rows_are_counted(items: Seq<ItemView>)
    ensures
        marked_sizes(items) == items.filter(|i: ItemView| i.marked).map_values(
            |i: ItemView|
                match i.facts.size_bytes {
                    Some(n) => n,
                    None => 0u64,
                },
        ),
    decreases items.len(),
{
    reveal(Seq::filter);
    let size = |i: ItemView|
        match i.facts.size_bytes {
            Some(n) => n,
            None => 0u64,
        };
    if items.len() > 0 {
        marked_rows_are_counted(items.drop_last());
    }
    assert(marked_sizes(items) =~= items.filter(|i: ItemView| i.marked).map_values(size));
}

/// A row that is added is not marked, and says what is known and the verdict; the others stay as they
/// are. The first one is selected.
pub proof fn rows_are_added(b: BrowserView, facts: FactsView, verdict: Option<Seq<ReasonView>>)
    ensures
        ({
            let after = added(b, facts, verdict);
            let at = entry_point(b.items, size_or_zero(facts)) as int;
            &&& after.items.len() == b.items.len() + 1
            &&& after.items[at] == (ItemView { facts, verdict, marked: false })
            &&& forall|i: int| 0 <= i < at ==> #[trigger] after.items[i] == b.items[i]
            &&& forall|i: int|
                at < i < after.items.len() ==> #[trigger] after.items[i] == b.items[i - 1]
            &&& after.mode == b.mode
            &&& b.selected is Some ==> after.selected == b.selected
            &&& b.selected is None ==> after.selected == Some(0usize)
        }),
{
    rows_enter_by_size(b.items, size_or_zero(facts));
}

/// After an execution its outcomes are reported, and what was reaped is gone from the rows.
pub proof fn executions_are_reported(b: BrowserView, outcomes: Seq<OutcomeView>)
    ensures
        reported(b, outcomes).mode == ModeView::Report(outcomes),
        reported(b, outcomes).items == rows_left(b.items, outcomes),
        reported(b, outcomes).items.len() == 0 ==> reported(b, outcomes).selected is None,
        reported(b, outcomes).items.len() > 0 ==> reported(b, outcomes).selected == Some(0usize),
{
}

/// A row that cannot be marked shows no mark.
pub proof fn marks_are_shown(item: ItemView)
    ensures
        item.verdict is Some ==> mark_of(item) == " "@,
        item.verdict is None && item.marked ==> mark_of(item) == "✔"@,
        item.verdict is None && !item.marked ==> mark_of(item) == "·"@,
{
}

} // verus!
