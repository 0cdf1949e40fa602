//! The interactive browser: what each key does to what is on screen. Refused
//! rows can't be marked, and nothing is executed without a typed confirmation.

use crate::classify::{admit_facts, all_clean, verdict_reasons, Admitted};
use crate::deleter::{OutcomeView, StepOutcome};
use crate::model::{Disposition, Facts, FactsView, ReasonView};
use crate::paths::{equal_paths, same_path};
use crate::plan::{SealedPlan, SealedView};
use crate::policy::{Policy, PolicyView};
use crate::report::size_or_zero;
use crate::sizes::{human_bytes, human_text, sum_of, total};
use crate::text::{
    chars_of, contains_text, decimal, decimal_text, lemma_views_push, text_contains, text_of, views,
};
use vstd::prelude::*;
use vstd::slice::slice_subrange;
use vstd::string::*;

verus! {

/// One row on screen.
#[derive(Debug)]
pub struct Item {
    pub facts: Facts,
    pub disposition: Disposition,
    pub marked: bool,
}

/// The view of an [`Item`]; the verdict is the reasons for which it is refused,
/// or `None` where it is reapable.
pub struct ItemView {
    pub facts: FactsView,
    pub verdict: Option<Seq<ReasonView>>,
    pub marked: bool,
}

impl View for Item {
    type V = ItemView;

    open spec fn view(&self) -> ItemView {
        ItemView {
            facts: self.facts@,
            verdict: verdict_reasons(self.disposition),
            marked: self.marked,
        }
    }
}

/// What is on screen besides the rows.
#[derive(Debug)]
pub enum Mode {
    Browse,
    /// A filter is being typed.
    Filter(String),
    /// A plan waits for a typed confirmation.
    Confirm(SealedPlan),
    /// A plan has been executed.
    Report(Vec<StepOutcome>),
}

/// The view of a [`Mode`].
pub enum ModeView {
    Browse,
    Filter(Seq<char>),
    Confirm(SealedView),
    Report(Seq<OutcomeView>),
}

impl View for Mode {
    type V = ModeView;

    open spec fn view(&self) -> ModeView {
        match *self {
            Mode::Browse => ModeView::Browse,
            Mode::Filter(s) => ModeView::Filter(s@),
            Mode::Confirm(plan) => ModeView::Confirm(plan@),
            Mode::Report(outcomes) => ModeView::Report(views(outcomes@)),
        }
    }
}

/// A key that was pressed.
#[derive(Debug, Clone, Copy, PartialEq, Eq)]
pub enum Key {
    Esc,
    Enter,
    Backspace,
    Down,
    Up,
    /// A character, with the control key or without.
    Char { c: char, control: bool },
    Other,
}

/// What a key asks for, besides what it does on screen.
#[derive(Debug, Clone, Copy, PartialEq, Eq)]
pub enum KeyAction {
    Nothing,
    Quit,
    /// Seal what is marked into a plan, and ask for a confirmation.
    Seal,
    /// Execute the plan that was confirmed.
    Execute,
}

/// The browser's state.
#[derive(Debug)]
pub struct Browser {
    pub items: Vec<Item>,
    pub selected: Option<usize>,
    pub mode: Mode,
}

/// The view of a [`Browser`].
pub struct BrowserView {
    pub items: Seq<ItemView>,
    pub selected: Option<usize>,
    pub mode: ModeView,
}

impl View for Browser {
    type V = BrowserView;

    open spec fn view(&self) -> BrowserView {
        BrowserView { items: views(self.items@), selected: self.selected, mode: self.mode@ }
    }
}

/// Larger rows come first.
pub open spec fn by_size(items: Seq<ItemView>) -> bool {
    forall|i: int, j: int|
        0 <= i < j < items.len() ==> size_or_zero((#[trigger] items[i]).facts) >= size_or_zero(
            (#[trigger] items[j]).facts,
        )
}

/// Only what is reapable is marked.
pub open spec fn marks_are_reapable(items: Seq<ItemView>) -> bool {
    forall|i: int| 0 <= i < items.len() && (#[trigger] items[i]).marked ==> items[i].verdict is None
}

impl BrowserView {
    /// Rows are ordered by size, and only reapable rows are marked.
    pub open spec fn wf(self) -> bool {
        by_size(self.items) && marks_are_reapable(self.items)
    }
}

/// The position at which a row of this size enters: after every row that is at
/// least as large.
pub open spec fn entry_point(items: Seq<ItemView>, size: u64) -> nat
    decreases items.len(),
{
    if items.len() == 0 || size_or_zero(items[0].facts) < size {
        0
    } else {
        1 + entry_point(items.skip(1), size)
    }
}

proof fn lemma_entry_point(items: Seq<ItemView>, size: u64, n: int)
    requires
        0 <= n <= items.len(),
        forall|i: int| 0 <= i < n ==> size_or_zero((#[trigger] items[i]).facts) >= size,
        n == items.len() || size_or_zero(items[n].facts) < size,
    ensures
        entry_point(items, size) == n,
    decreases n,
{
    if n > 0 {
        let rest = items.skip(1);
        assert(size_or_zero(items[0].facts) >= size);
        assert forall|i: int| 0 <= i < n - 1 implies size_or_zero((#[trigger] rest[i]).facts)
            >= size by {
            assert(rest[i] == items[i + 1]);
        }
        lemma_entry_point(rest, size, n - 1);
    }
}

fn size_of(facts: &Facts) -> (r: u64)
    ensures
        r == size_or_zero(facts@),
{
    match facts.size_bytes {
        Some(n) => n,
        None => 0,
    }
}

/// The selection moved by one row, down or up, within `n` rows.
pub open spec fn moved(selected: Option<usize>, n: nat, down: bool) -> Option<usize> {
    let at = match selected {
        Some(v) => v as int,
        None => 0,
    };
    if n == 0 {
        selected
    } else if down {
        Some(
            (if at + 1 < n {
                at + 1
            } else {
                n - 1
            }) as usize,
        )
    } else {
        Some(
            (if at - 1 < 0 {
                0
            } else if at - 1 < n {
                at - 1
            } else {
                n - 1
            }) as usize,
        )
    }
}

/// A row with its mark turned over, if it is reapable.
pub open spec fn toggled(item: ItemView) -> ItemView {
    if item.verdict is None {
        ItemView { marked: !item.marked, ..item }
    } else {
        item
    }
}

/// A row marked, if it is reapable.
pub open spec fn marked(item: ItemView) -> ItemView {
    if item.verdict is None {
        ItemView { marked: true, ..item }
    } else {
        item
    }
}

/// The rows with the selected one's mark turned over.
pub open spec fn toggle_selected(b: BrowserView) -> Seq<ItemView> {
    match b.selected {
        Some(v) => if v < b.items.len() {
            b.items.update(v as int, toggled(b.items[v as int]))
        } else {
            b.items
        },
        None => b.items,
    }
}

/// What a key does while browsing.
pub open spec fn browse_key(b: BrowserView, key: Key) -> (BrowserView, KeyAction) {
    match key {
        Key::Esc => (b, KeyAction::Quit),
        Key::Down => (
            BrowserView { selected: moved(b.selected, b.items.len(), true), ..b },
            KeyAction::Nothing,
        ),
        Key::Up => (
            BrowserView { selected: moved(b.selected, b.items.len(), false), ..b },
            KeyAction::Nothing,
        ),
        Key::Char { c, control } => if c == 'q' || (c == 'c' && control) {
            (b, KeyAction::Quit)
        } else if c == 'j' || c == 'k' {
            (
                BrowserView { selected: moved(b.selected, b.items.len(), c == 'j'), ..b },
                KeyAction::Nothing,
            )
        } else if c == '/' {
            (BrowserView { mode: ModeView::Filter(seq![]), ..b }, KeyAction::Nothing)
        } else if c == ' ' {
            (BrowserView { items: toggle_selected(b), ..b }, KeyAction::Nothing)
        } else if c == 'a' {
            (
                BrowserView {
                    items: Seq::new(b.items.len(), |i: int| marked(b.items[i])),
                    ..b
                },
                KeyAction::Nothing,
            )
        } else if c == 'x' || c == 'd' {
            (b, KeyAction::Seal)
        } else {
            (b, KeyAction::Nothing)
        },
        _ => (b, KeyAction::Nothing),
    }
}

/// What a key does: while a filter is typed, it edits it; while a plan waits, `y`
/// commits and anything else aborts; after a report, any key goes on.
pub open spec fn key_next(b: BrowserView, key: Key) -> (BrowserView, KeyAction) {
    let browse = BrowserView { mode: ModeView::Browse, ..b };
    match b.mode {
        ModeView::Filter(f) => match key {
            Key::Esc => (browse, KeyAction::Nothing),
            Key::Enter => (browse, KeyAction::Nothing),
            Key::Backspace => (
                BrowserView {
                    mode: ModeView::Filter(
                        if f.len() > 0 {
                            f.drop_last()
                        } else {
                            f
                        },
                    ),
                    ..b
                },
                KeyAction::Nothing,
            ),
            Key::Char { c, .. } => (
                BrowserView { mode: ModeView::Filter(f.push(c)), ..b },
                KeyAction::Nothing,
            ),
            _ => (b, KeyAction::Nothing),
        },
        ModeView::Confirm(_) => if key matches Key::Char { c, .. } && c == 'y' {
            (b, KeyAction::Execute)
        } else {
            (browse, KeyAction::Nothing)
        },
        ModeView::Report(_) => (browse, KeyAction::Nothing),
        ModeView::Browse => browse_key(b, key),
    }
}

/// The browser after a row was added.
pub open spec fn added(
    b: BrowserView,
    facts: FactsView,
    verdict: Option<Seq<ReasonView>>,
) -> BrowserView {
    BrowserView {
        items: b.items.insert(
            entry_point(b.items, size_or_zero(facts)) as int,
            ItemView { facts, verdict, marked: false },
        ),
        selected: if b.selected is None {
            Some(0)
        } else {
            b.selected
        },
        mode: b.mode,
    }
}

/// The browser after an execution.
pub open spec fn reported(b: BrowserView, outcomes: Seq<OutcomeView>) -> BrowserView {
    let items = rows_left(b.items, outcomes);
    BrowserView {
        items,
        selected: if items.len() == 0 {
            None
        } else {
            Some(0)
        },
        mode: ModeView::Report(outcomes),
    }
}

/// How the mark of a row is shown.
pub open spec fn mark_of(item: ItemView) -> Seq<char> {
    if item.verdict is Some {
        " "@
    } else if item.marked {
        "✔"@
    } else {
        "·"@
    }
}

impl Browser {
    /// A browser without rows.
    pub fn new() -> (r: Self)
        ensures
            r@ == (BrowserView { items: seq![], selected: None, mode: ModeView::Browse }),
            r@.wf(),
    {
        let r = Browser { items: Vec::new(), selected: None, mode: Mode::Browse };
        assert(r@.items =~= seq![]);
        r
    }

    /// Adds a row, unmarked, after every row that is at least as large. The first
    /// row is selected.
    pub fn add_item(&mut self, facts: Facts, disposition: Disposition)
        requires
            old(self)@.wf(),
        ensures
            final(self)@ == (BrowserView {
                items: old(self)@.items.insert(
                    entry_point(old(self)@.items, size_or_zero(facts@)) as int,
                    ItemView {
                        facts: facts@,
                        verdict: verdict_reasons(disposition),
                        marked: false,
                    },
                ),
                selected: if old(self)@.selected is None {
                    Some(0)
                } else {
                    old(self)@.selected
                },
                mode: old(self)@.mode,
            }),
            final(self)@ == added(old(self)@, facts@, verdict_reasons(disposition)),
            final(self)@.wf(),
    {
        let size: u64 = size_of(&facts);
        let ghost before = self@.items;
        let mut at: usize = 0;
        while at < self.items.len() && size_of(&self.items[at].facts) >= size
            invariant
                before == views(self.items@),
                at <= before.len(),
                forall|i: int|
                    0 <= i < at ==> size_or_zero((#[trigger] before[i]).facts) >= size,
            decreases before.len() - at,
        {
            assert(before[at as int] == self.items@[at as int]@);
            at += 1;
        }
        proof {
            if at < before.len() {
                assert(before[at as int] == self.items@[at as int]@);
            }
            lemma_entry_point(before, size, at as int);
        }
        let item = Item { facts, disposition, marked: false };
        let ghost view = item@;
        self.items.insert(at, item);
        if self.selected.is_none() {
            self.selected = Some(0);
        }
        proof {
            let after = self@.items;
            assert(after =~= before.insert(at as int, view));
            assert forall|i: int, j: int| 0 <= i < j < after.len() implies size_or_zero(
                (#[trigger] after[i]).facts,
            ) >= size_or_zero((#[trigger] after[j]).facts) by {
                let bi = if i < at {
                    i
                } else {
                    i - 1
                };
                let bj = if j < at {
                    j
                } else {
                    j - 1
                };
                if i != at {
                    assert(after[i] == before[bi]);
                }
                if j != at {
                    assert(after[j] == before[bj]);
                }
                if i == at {
                    assert(size_or_zero(before[at as int].facts) >= size_or_zero(before[bj].facts));
                }
            }
            assert forall|i: int| 0 <= i < after.len() && (#[trigger] after[i]).marked implies
                after[i].verdict is None by {
                let bi = if i < at {
                    i
                } else {
                    i - 1
                };
                if i != at {
                    assert(after[i] == before[bi]);
                }
            }
        }
    }

    fn move_selection(&mut self, down: bool)
        ensures
            final(self)@ == (BrowserView {
                selected: moved(old(self)@.selected, old(self)@.items.len(), down),
                ..old(self)@
            }),
    {
        let n: usize = self.items.len();
        if n == 0 {
            return;
        }
        let at: usize = match self.selected {
            Some(v) => v,
            None => 0,
        };
        let next: usize = if down {
            if at < n - 1 {
                at + 1
            } else {
                n - 1
            }
        } else if at == 0 {
            0
        } else if at - 1 < n {
            at - 1
        } else {
            n - 1
        };
        self.selected = Some(next);
    }

    fn toggle(&mut self)
        ensures
            final(self)@ == (BrowserView { items: toggle_selected(old(self)@), ..old(self)@ }),
    {
        let ghost before = self@.items;
        if let Some(v) = self.selected {
            if v < self.items.len() {
                assert(before[v as int] == self.items@[v as int]@);
                if matches!(&self.items[v].disposition, Disposition::Reapable) {
                    let now: bool = !self.items[v].marked;
                    self.items[v].marked = now;
                }
                assert(self@.items =~= before.update(v as int, toggled(before[v as int])));
            }
        }
        assert(self@.items =~= toggle_selected(old(self)@));
    }

    fn mark_all(&mut self)
        ensures
            final(self)@ == (BrowserView {
                items: Seq::new(old(self)@.items.len(), |i: int| marked(old(self)@.items[i])),
                ..old(self)@
            }),
    {
        let ghost before = self@.items;
        let ghost selected = self.selected;
        let ghost mode = self.mode;
        let n: usize = self.items.len();
        for k in 0..n
            invariant
                n == before.len() == self.items@.len(),
                self.selected == selected,
                self.mode == mode,
                forall|i: int| 0 <= i < k ==> (#[trigger] self.items@[i])@ == marked(before[i]),
                forall|i: int| k <= i < n ==> (#[trigger] self.items@[i])@ == before[i],
        {
            if matches!(&self.items[k].disposition, Disposition::Reapable) {
                self.items[k].marked = true;
            }
        }
        assert(self@.items =~= Seq::new(before.len(), |i: int| marked(before[i])));
    }

    fn on_browse_key(&mut self, key: Key) -> (r: KeyAction)
        requires
            old(self)@.mode is Browse,
        ensures
            (final(self)@, r) == browse_key(old(self)@, key),
    {
        match key {
            Key::Esc => KeyAction::Quit,
            Key::Down => {
                self.move_selection(true);
                KeyAction::Nothing
            },
            Key::Up => {
                self.move_selection(false);
                KeyAction::Nothing
            },
            Key::Char { c, control } => {
                if c == 'q' || (c == 'c' && control) {
                    KeyAction::Quit
                } else if c == 'j' || c == 'k' {
                    self.move_selection(c == 'j');
                    KeyAction::Nothing
                } else if c == '/' {
                    let filter = String::new();
                    assert(filter@ =~= seq![]);
                    self.mode = Mode::Filter(filter);
                    KeyAction::Nothing
                } else if c == ' ' {
                    self.toggle();
                    KeyAction::Nothing
                } else if c == 'a' {
                    self.mark_all();
                    KeyAction::Nothing
                } else if c == 'x' || c == 'd' {
                    KeyAction::Seal
                } else {
                    KeyAction::Nothing
                }
            },
            _ => KeyAction::Nothing,
        }
    }

    /// Takes in a key that was pressed.
    pub fn on_key(&mut self, key: Key) -> (r: KeyAction)
        requires
            old(self)@.wf(),
        ensures
            (final(self)@, r) == key_next(old(self)@, key),
            final(self)@.wf(),
    {
        proof {
            lemma_key_keeps_wf(self@, key);
        }
        let filter: Option<String> = match &self.mode {
            Mode::Browse => return self.on_browse_key(key),
            Mode::Report(_) => None,
            Mode::Confirm(_) => {
                if let Key::Char { c, .. } = key {
                    if c == 'y' {
                        return KeyAction::Execute;
                    }
                }
                None
            },
            Mode::Filter(f) => match key {
                Key::Esc => None,
                Key::Enter => None,
                Key::Backspace => {
                    let chars = chars_of(f.as_str());
                    if chars.len() > 0 {
                        let rest = slice_subrange(chars.as_slice(), 0, chars.len() - 1);
                        assert(rest@ =~= f@.drop_last());
                        Some(text_of(rest))
                    } else {
                        return KeyAction::Nothing;
                    }
                },
                Key::Char { c, .. } => {
                    let mut more = f.clone();
                    more.push(c);
                    Some(more)
                },
                _ => return KeyAction::Nothing,
            },
        };
        self.mode = match filter {
            Some(f) => Mode::Filter(f),
            None => Mode::Browse,
        };
        KeyAction::Nothing
    }
}

proof fn lemma_key_keeps_wf(b: BrowserView, key: Key)
    requires
        b.wf(),
    ensures
        key_next(b, key).0.wf(),
{
    let after = key_next(b, key).0.items;
    assert forall|i: int, j: int| 0 <= i < j < after.len() implies size_or_zero(
        (#[trigger] after[i]).facts,
    ) >= size_or_zero((#[trigger] after[j]).facts) by {
        assert(after[i].facts == b.items[i].facts);
        assert(after[j].facts == b.items[j].facts);
    }
    assert forall|i: int| 0 <= i < after.len() && (#[trigger] after[i]).marked implies
        after[i].verdict is None by {
        assert(after[i].verdict == b.items[i].verdict);
        assert(b.items[i].marked ==> b.items[i].verdict is None);
    }
}

/// Refused rows can't be marked: no key changes a refused row.
pub proof fn refused_rows_cannot_be_marked(b: BrowserView, key: Key, i: int)
    requires
        0 <= i < b.items.len(),
        b.items[i].verdict is Some,
    ensures
        key_next(b, key).0.items.len() == b.items.len(),
        key_next(b, key).0.items[i] == b.items[i],
{
}

/// Nothing is executed without a typed confirmation: an execution is asked for
/// only by `y`, and only while a sealed plan waits.
pub proof fn only_y_executes(b: BrowserView, key: Key)
    ensures
        key_next(b, key).1 is Execute <==> b.mode is Confirm && (key matches Key::Char { c, .. }
            && c == 'y'),
{
}

/// Anything but `y` aborts: the plan that waited is gone, and every row is as it
/// was.
pub proof fn any_other_key_aborts(b: BrowserView, key: Key)
    requires
        b.mode is Confirm,
        !(key matches Key::Char { c, .. } && c == 'y'),
    ensures
        key_next(b, key) == (
            BrowserView { mode: ModeView::Browse, ..b },
            KeyAction::Nothing,
        ),
{
}

/// The facts of the marked rows that pass every gate, in order.
pub open spec fn marked_facts(items: Seq<ItemView>, p: PolicyView) -> Seq<FactsView>
    decreases items.len(),
{
    if items.len() == 0 {
        seq![]
    } else {
        let rest = marked_facts(items.drop_last(), p);
        if items.last().marked && all_clean(items.last().facts, p) {
            rest.push(items.last().facts)
        } else {
            rest
        }
    }
}

/// The path is that of a step that was reaped.
pub open spec fn was_reaped(outcomes: Seq<OutcomeView>, path: Seq<char>) -> bool {
    exists|i: int|
        0 <= i < outcomes.len() && ((#[trigger] outcomes[i]) matches OutcomeView::Reaped {
            path: p,
            ..
        } && same_path(p, path))
}

/// The rows whose paths were not reaped, in order.
pub open spec fn rows_left(items: Seq<ItemView>, outcomes: Seq<OutcomeView>) -> Seq<ItemView>
    decreases items.len(),
{
    if items.len() == 0 {
        seq![]
    } else {
        let rest = rows_left(items.drop_last(), outcomes);
        if was_reaped(outcomes, items.last().facts.candidate.path) {
            rest
        } else {
            rest.push(items.last())
        }
    }
}

fn reaped(outcomes: &Vec<StepOutcome>, path: &str) -> (r: bool)
    ensures
        r == was_reaped(views(outcomes@), path@),
{
    let ghost all = views(outcomes@);
    let mut i: usize = 0;
    while i < outcomes.len()
        invariant
            i <= outcomes@.len(),
            all == views(outcomes@),
            forall|j: int|
                0 <= j < i ==> !((#[trigger] all[j]) matches OutcomeView::Reaped { path: p, .. }
                    && same_path(p, path@)),
        decreases outcomes@.len() - i,
    {
        assert(all[i as int] == outcomes@[i as int]@);
        if let StepOutcome::Reaped { path: p, .. } = &outcomes[i] {
            if equal_paths(p.as_str(), path) {
                return true;
            }
        }
        i += 1;
    }
    false
}

proof fn lemma_rows_left(items: Seq<ItemView>, outcomes: Seq<OutcomeView>)
    ensures
        forall|i: int|
            0 <= i < rows_left(items, outcomes).len() ==> items.contains(
                #[trigger] rows_left(items, outcomes)[i],
            ),
        by_size(items) ==> by_size(rows_left(items, outcomes)),
        marks_are_reapable(items) ==> marks_are_reapable(rows_left(items, outcomes)),
    decreases items.len(),
{
    if items.len() > 0 {
        let before = items.drop_last();
        let rest = rows_left(before, outcomes);
        let all = rows_left(items, outcomes);
        lemma_rows_left(before, outcomes);
        assert forall|i: int| 0 <= i < all.len() implies items.contains(#[trigger] all[i]) by {
            if i < rest.len() {
                assert(all[i] == rest[i]);
                assert(before.contains(rest[i]));
                let k = choose|k: int| 0 <= k < before.len() && before[k] == rest[i];
                assert(items[k] == all[i]);
            } else {
                assert(items[items.len() - 1] == all[i]);
            }
        }
        if by_size(items) {
            assert forall|i: int, j: int| 0 <= i < j < before.len() implies size_or_zero(
                (#[trigger] before[i]).facts,
            ) >= size_or_zero((#[trigger] before[j]).facts) by {
                assert(before[i] == items[i] && before[j] == items[j]);
            }
            assert forall|i: int, j: int| 0 <= i < j < all.len() implies size_or_zero(
                (#[trigger] all[i]).facts,
            ) >= size_or_zero((#[trigger] all[j]).facts) by {
                assert(all[i] == rest[i]);
                if j < rest.len() {
                    assert(all[j] == rest[j]);
                } else {
                    assert(before.contains(rest[i]));
                    let k = choose|k: int| 0 <= k < before.len() && before[k] == rest[i];
                    assert(items[k] == all[i]);
                    assert(items[items.len() - 1] == all[j]);
                }
            }
        }
        if marks_are_reapable(items) {
            assert forall|i: int| 0 <= i < all.len() && (#[trigger] all[i]).marked implies
                all[i].verdict is None by {
                assert(items.contains(all[i]));
                let k = choose|k: int| 0 <= k < items.len() && items[k] == all[i];
                assert(items[k].verdict is None);
            }
        }
    }
}

impl Browser {
    /// The marked rows that are admitted, in order.
    pub fn marked_admitted(&self, policy: &Policy) -> (r: Vec<Admitted>)
        ensures
            views(r@) == marked_facts(self@.items, policy@),
    {
        let ghost all = self@.items;
        let mut out: Vec<Admitted> = Vec::new();
        assert(views(out@) =~= marked_facts(all.take(0), policy@));
        for i in 0..self.items.len()
            invariant
                all == self@.items,
                views(out@) == marked_facts(all.take(i as int), policy@),
        {
            broadcast use lemma_views_push;

            assert(all.take(i + 1).drop_last() =~= all.take(i as int));
            assert(all.take(i + 1).last() == self.items@[i as int]@);
            if self.items[i].marked {
                if let Ok(admitted) = admit_facts(&self.items[i].facts, policy) {
                    out.push(admitted);
                }
            }
        }
        assert(all.take(all.len() as int) =~= all);
        out
    }

    /// Asks for a confirmation of a sealed plan.
    pub fn confirm(&mut self, plan: SealedPlan)
        requires
            old(self)@.wf(),
        ensures
            final(self)@ == (BrowserView { mode: ModeView::Confirm(plan@), ..old(self)@ }),
            final(self)@.wf(),
    {
        self.mode = Mode::Confirm(plan);
    }

    /// Shows what became of a plan. Reaped rows leave; refusals stay visible.
    pub fn report(&mut self, outcomes: Vec<StepOutcome>)
        requires
            old(self)@.wf(),
        ensures
            final(self)@ == ({
                let items = rows_left(old(self)@.items, views(outcomes@));
                BrowserView {
                    items,
                    selected: if items.len() == 0 {
                        None
                    } else {
                        Some(0)
                    },
                    mode: ModeView::Report(views(outcomes@)),
                }
            }),
            final(self)@ == reported(old(self)@, views(outcomes@)),
            final(self)@.wf(),
    {
        let ghost all = self@.items;
        let ghost done = views(outcomes@);
        proof {
            lemma_rows_left(all, done);
        }
        let mut items: Vec<Item> = Vec::new();
        std::mem::swap(&mut items, &mut self.items);
        let ghost list = items@;
        assert(all == views(list));
        let mut left: Vec<Item> = Vec::new();
        assert(views(left@) =~= rows_left(all.take(0), done));
        for item in it: items
            invariant
                it.seq() == list,
                all == views(list),
                done == views(outcomes@),
                views(left@) == rows_left(all.take(it.index() as int), done),
        {
            broadcast use lemma_views_push;

            let ghost i = it.index() as int;
            assert(all.take(i + 1).drop_last() =~= all.take(i));
            assert(all.take(i + 1).last() == item@);
            if !reaped(&outcomes, item.facts.candidate.path.as_str()) {
                left.push(item);
            }
        }
        assert(all.take(all.len() as int) =~= all);
        self.selected = if left.len() == 0 {
            None
        } else {
            Some(0)
        };
        self.items = left;
        self.mode = Mode::Report(outcomes);
    }

    /// The positions of the rows on screen: those whose path holds the filter that
    /// is being typed; all of them otherwise.
    pub fn visible(&self) -> (r: Vec<usize>)
        ensures
            r@ == visible_rows(self@, self@.items.len() as int),
    {
        let ghost all = self@.items;
        let filter: Vec<char> = match &self.mode {
            Mode::Filter(f) => chars_of(f.as_str()),
            _ => Vec::new(),
        };
        assert(filter@ =~= filter_of(self@));
        let mut out: Vec<usize> = Vec::new();
        for i in 0..self.items.len()
            invariant
                all == self@.items,
                filter@ == filter_of(self@),
                out@ == visible_rows(self@, i as int),
        {
            let path = chars_of(self.items[i].facts.candidate.path.as_str());
            assert(all[i as int] == self.items@[i as int]@);
            if filter.len() == 0 || contains_text(path.as_slice(), filter.as_slice()) {
                out.push(i);
            }
        }
        out
    }

    /// The bytes of the marked rows, or `None` where they are more than can be
    /// counted.
    pub fn marked_bytes(&self) -> (r: Option<u64>)
        ensures
            r is Some <==> sum_of(marked_sizes(self@.items)) <= u64::MAX,
            r matches Some(sum) ==> sum == sum_of(marked_sizes(self@.items)),
    {
        let ghost all = self@.items;
        let mut sizes: Vec<u64> = Vec::new();
        assert(sizes@ =~= marked_sizes(all.take(0)));
        for i in 0..self.items.len()
            invariant
                all == self@.items,
                sizes@ == marked_sizes(all.take(i as int)),
        {
            assert(all.take(i + 1).drop_last() =~= all.take(i as int));
            assert(all.take(i + 1).last() == self.items@[i as int]@);
            if self.items[i].marked {
                sizes.push(size_of(&self.items[i].facts));
            }
        }
        assert(all.take(all.len() as int) =~= all);
        total(sizes.as_slice())
    }

    /// The number of marked rows.
    pub fn marked_count(&self) -> (r: usize)
        ensures
            r == marked_sizes(self@.items).len(),
    {
        let ghost all = self@.items;
        let mut n: usize = 0;
        for i in 0..self.items.len()
            invariant
                all == self@.items,
                n <= i,
                n == marked_sizes(all.take(i as int)).len(),
        {
            assert(all.take(i + 1).drop_last() =~= all.take(i as int));
            assert(all.take(i + 1).last() == self.items@[i as int]@);
            if self.items[i].marked {
                n += 1;
            }
        }
        assert(all.take(all.len() as int) =~= all);
        n
    }
}

/// The filter that is being typed, empty where there is none.
pub open spec fn filter_of(b: BrowserView) -> Seq<char> {
    match b.mode {
        ModeView::Filter(f) => f,
        _ => seq![],
    }
}

/// The positions of the rows on screen among the first `n`, in order.
pub open spec fn visible_rows(b: BrowserView, n: int) -> Seq<usize>
    decreases n,
{
    if n <= 0 {
        seq![]
    } else {
        let rest = visible_rows(b, n - 1);
        let path = b.items[n - 1].facts.candidate.path;
        if filter_of(b).len() == 0 || text_contains(path, filter_of(b)) {
            rest.push((n - 1) as usize)
        } else {
            rest
        }
    }
}

/// The sizes of the marked rows, in order.
pub open spec fn marked_sizes(items: Seq<ItemView>) -> Seq<u64>
    decreases items.len(),
{
    if items.len() == 0 {
        seq![]
    } else {
        let rest = marked_sizes(items.drop_last());
        if items.last().marked {
            rest.push(size_or_zero(items.last().facts))
        } else {
            rest
        }
    }
}

/// A row that was reaped leaves, and one that was not stays.
pub proof fn reaped_rows_leave(items: Seq<ItemView>, outcomes: Seq<OutcomeView>, i: int)
    requires
        0 <= i < items.len(),
    ensures
        rows_left(items, outcomes).contains(items[i]) <==> !was_reaped(
            outcomes,
            items[i].facts.candidate.path,
        ),
    decreases items.len(),
{
    let before = items.drop_last();
    let rest = rows_left(before, outcomes);
    let all = rows_left(items, outcomes);
    lemma_left_not_reaped(items, outcomes);
    if !was_reaped(outcomes, items[i].facts.candidate.path) {
        if i < before.len() {
            assert(before[i] == items[i]);
            reaped_rows_leave(before, outcomes, i);
            let k = choose|k: int| 0 <= k < rest.len() && rest[k] == items[i];
            assert(all[k] == items[i]);
        } else {
            assert(all[all.len() - 1] == items[i]);
        }
    }
}

proof fn lemma_left_not_reaped(items: Seq<ItemView>, outcomes: Seq<OutcomeView>)
    ensures
        forall|i: int|
            0 <= i < rows_left(items, outcomes).len() ==> !was_reaped(
                outcomes,
                (#[trigger] rows_left(items, outcomes)[i]).facts.candidate.path,
            ),
    decreases items.len(),
{
    if items.len() > 0 {
        let rest = rows_left(items.drop_last(), outcomes);
        let all = rows_left(items, outcomes);
        lemma_left_not_reaped(items.drop_last(), outcomes);
        assert forall|i: int| 0 <= i < all.len() implies !was_reaped(
            outcomes,
            (#[trigger] all[i]).facts.candidate.path,
        ) by {
            if i < rest.len() {
                assert(all[i] == rest[i]);
            }
        }
    }
}

/// What the header says.
pub fn header_text(status: &str, candidates: usize) -> (r: String)
    ensures
        r@ == "── "@ + status@ + " · "@ + decimal_text(candidates as nat) + " candidates "@,
{
    let mut out = "── ".to_owned();
    out.append(status);
    out.append(" · ");
    out.append(decimal(candidates as u64).as_str());
    out.append(" candidates ");
    out
}

/// What the header says of a scan that is done.
pub fn scanned_text(dirs: u64, files: u64) -> (r: String)
    ensures
        r@ == decimal_text(dirs as nat) + " dirs · "@ + decimal_text(files as nat)
            + " files scanned"@,
{
    let mut out = decimal(dirs);
    out.append(" dirs · ");
    out.append(decimal(files).as_str());
    out.append(" files scanned");
    out
}

/// The mark of a row.
pub fn mark_text(item: &Item) -> (r: &'static str)
    ensures
        r@ == (if item@.verdict is Some {
            " "@
        } else if item@.marked {
            "✔"@
        } else {
            "·"@
        }),
        r@ == mark_of(item@),
{
    match &item.disposition {
        Disposition::Refused { .. } => " ",
        Disposition::Reapable => {
            if item.marked {
                "✔"
            } else {
                "·"
            }
        },
    }
}

/// The idleness of a row.
pub fn idle_text(facts: &Facts) -> (r: String)
    ensures
        r@ == (match facts@.idle_days {
            Some(days) => decimal_text(days as nat).push('d'),
            None => "?"@,
        }),
{
    match facts.idle_days {
        Some(days) => {
            let mut out = decimal(days);
            out.push('d');
            out
        },
        None => "?".to_owned(),
    }
}

/// Permanence is loud: what stands below a plan that waits.
pub fn confirm_banner(steps: usize, bytes: u64) -> (r: String)
    ensures
        r@ == " ⚠ PERMANENT DELETE — "@ + decimal_text(steps as nat) + " step(s), "@
            + human_text(bytes) + " · type y to commit, any key aborts "@,
{
    let mut out = " ⚠ PERMANENT DELETE — ".to_owned();
    out.append(decimal(steps as u64).as_str());
    out.append(" step(s), ");
    out.append(human_bytes(bytes).as_str());
    out.append(" · type y to commit, any key aborts ");
    out
}

/// What stands below a report: what was freed, what was left in place, and what was
/// interrupted, if anything was.
pub fn report_banner(freed: u64, refused: usize, interrupted: usize) -> (r: String)
    ensures
        r@ == " freed "@ + human_text(freed) + " · "@ + decimal_text(refused as nat)
            + " left in place"@ + (if interrupted > 0 {
            " · "@ + decimal_text(interrupted as nat) + " interrupted"@
        } else {
            seq![]
        }) + " · any key continues "@,
{
    let mut out = " freed ".to_owned();
    out.append(human_bytes(freed).as_str());
    out.append(" · ");
    out.append(decimal(refused as u64).as_str());
    out.append(" left in place");
    let ghost before = out@;
    if interrupted > 0 {
        out.append(" · ");
        out.append(decimal(interrupted as u64).as_str());
        out.append(" interrupted");
        assert(out@ =~= before + (" · "@ + decimal_text(interrupted as nat) + " interrupted"@));
    } else {
        assert(before + Seq::<char>::empty() =~= before);
    }
    out.append(" · any key continues ");
    out
}

/// What stands below the rows while a filter is typed.
pub fn filter_banner(filter: &str) -> (r: String)
    ensures
        r@ == " / "@ + filter@ + "▌  (Enter/Esc done)"@,
{
    let mut out = " / ".to_owned();
    out.append(filter);
    out.append("▌  (Enter/Esc done)");
    out
}

/// What stands below the rows while browsing.
pub fn browse_banner(bytes: u64, marked: usize) -> (r: String)
    ensures
        r@ == " SELECTED "@ + human_text(bytes) + " in "@ + decimal_text(marked as nat)
            + " · ⚠ PERMANENT DELETE · space mark  a all  x reap  / filter  q quit "@,
{
    let mut out = " SELECTED ".to_owned();
    out.append(human_bytes(bytes).as_str());
    out.append(" in ");
    out.append(decimal(marked as u64).as_str());
    out.append(" · ⚠ PERMANENT DELETE · space mark  a all  x reap  / filter  q quit ");
    out
}

} // verus!
