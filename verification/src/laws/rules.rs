//! Rules: what a row of a ruleset says.

use crate::model::SafetyView;
use crate::registry::{
    array_row, detector_of, detectors_of, known_field, no_text, parsed_marker, parsed_ruleset,
    row_field, row_of, rows_of, ruleset_of, table_row, toml_rows, unknown_field, DetectorView,
    KindView, RowReadView, RowView,
};
use crate::text::debug_text;
use vstd::prelude::*;

verus! {

/// A row is a rule where its safety class is one of three, its kind is one of two or left out, and
/// a row without a kind names what it reclaims. The rule says what the row says.
pub proof fn rows_are_rules(row: RowView)
    ensures
        detector_of(row) is Ok <==> {
            &&& row.safety == "regenerable"@ || row.safety == "git_worktree"@ || row.safety
                == "package_cache"@
            &&& row.kind is None ==> row.reclaim_dir is Some
            &&& row.kind is Some ==> row.kind == Some("git_worktree"@) || row.kind == Some(
                "cachedir_tag"@,
            )
        },
        detector_of(row) matches Ok(d) ==> {
            &&& d.id == row.id
            &&& d.ecosystem == row.ecosystem
            &&& row.safety == "regenerable"@ ==> d.safety == (SafetyView::Regenerable {
                regenerate_hint: row.regenerate,
            })
            &&& row.safety == "git_worktree"@ ==> d.safety is GitWorktree
            &&& row.safety == "package_cache"@ ==> d.safety is PackageCache
            &&& row.kind == Some("git_worktree"@) ==> d.kind is GitWorktreeSelf
            &&& row.kind == Some("cachedir_tag"@) ==> d.kind is CachedirTag
            &&& row.kind is None ==> d.kind == (KindView::SiblingMarker {
                reclaim_dir: row.reclaim_dir->0,
                marker: if row.marker is Some {
                    Some(parsed_marker(row.marker->0))
                } else {
                    None
                },
            })
        },
{
    reveal_strlit("regenerable");
    reveal_strlit("git_worktree");
    reveal_strlit("package_cache");
    reveal_strlit("cachedir_tag");
    assert("regenerable"@.len() == 11 && "git_worktree"@.len() == 12 && "package_cache"@.len()
        == 13);
    assert("cachedir_tag"@[0] == 'c' && "git_worktree"@[0] == 'g');
}

/// The names that a row may have.
pub proof fn names_of_a_row(name: Seq<char>)
    ensures
        known_field(name) <==> name == "id"@ || name == "ecosystem"@ || name == "kind"@ || name
            == "reclaim_dir"@ || name == "marker"@ || name == "safety"@ || name == "regenerate"@,
{
}

/// A table is a row where it has nothing but what a row may have, all of it text, and what a row
/// must have. Each part of the row is the text under its name.
pub proof fn tables_are_rows(row: Seq<(Seq<char>, Option<Seq<char>>)>)
    requires
        forall|i: int, j: int| 0 <= i < j < row.len() ==> (#[trigger] row[i]).0 != (#[trigger] row[j]).0,
    ensures
        table_row(row) is Ok <==> {
            &&& forall|i: int|
                0 <= i < row.len() ==> known_field((#[trigger] row[i]).0) && row[i].1 is Some
            &&& exists|i: int| 0 <= i < row.len() && (#[trigger] row[i]).0 == "id"@
            &&& exists|i: int| 0 <= i < row.len() && (#[trigger] row[i]).0 == "ecosystem"@
            &&& exists|i: int| 0 <= i < row.len() && (#[trigger] row[i]).0 == "safety"@
        },
        table_row(row) matches Ok(r) ==> forall|i: int|
            0 <= i < row.len() ==> {
                &&& (#[trigger] row[i]).0 == "id"@ ==> row[i].1 == Some(r.id)
                &&& row[i].0 == "ecosystem"@ ==> row[i].1 == Some(r.ecosystem)
                &&& row[i].0 == "safety"@ ==> row[i].1 == Some(r.safety)
                &&& row[i].0 == "kind"@ ==> row[i].1 == r.kind
                &&& row[i].0 == "reclaim_dir"@ ==> row[i].1 == r.reclaim_dir
                &&& row[i].0 == "marker"@ ==> row[i].1 == r.marker
                &&& row[i].0 == "regenerate"@ ==> row[i].1 == r.regenerate
            },
        table_row(row) matches Ok(r) ==> {
            &&& r.kind is Some ==> exists|i: int|
                0 <= i < row.len() && (#[trigger] row[i]).0 == "kind"@
            &&& r.reclaim_dir is Some ==> exists|i: int|
                0 <= i < row.len() && (#[trigger] row[i]).0 == "reclaim_dir"@
            &&& r.marker is Some ==> exists|i: int|
                0 <= i < row.len() && (#[trigger] row[i]).0 == "marker"@
            &&& r.regenerate is Some ==> exists|i: int|
                0 <= i < row.len() && (#[trigger] row[i]).0 == "regenerate"@
        },
{
    lemma_unknown(row);
    lemma_no_text(row);
    lemma_field(row, "id"@);
    lemma_field(row, "ecosystem"@);
    lemma_field(row, "safety"@);
    lemma_field(row, "kind"@);
    lemma_field(row, "reclaim_dir"@);
    lemma_field(row, "marker"@);
    lemma_field(row, "regenerate"@);
}

proof fn lemma_unknown(row: Seq<(Seq<char>, Option<Seq<char>>)>)
    ensures
        unknown_field(row) is None <==> forall|i: int|
            0 <= i < row.len() ==> known_field((#[trigger] row[i]).0),
    decreases row.len(),
{
    if row.len() > 0 {
        let rest = row.skip(1);
        lemma_unknown(rest);
        assert forall|i: int| 0 <= i < rest.len() implies #[trigger] rest[i] == row[i + 1] by {}
        if unknown_field(row) is None {
            assert forall|i: int| 0 <= i < row.len() implies known_field((#[trigger] row[i]).0) by {
                if i > 0 {
                    assert(rest[i - 1] == row[i]);
                }
            }
        }
    }
}

proof fn lemma_no_text(row: Seq<(Seq<char>, Option<Seq<char>>)>)
    ensures
        no_text(row) is None <==> forall|i: int|
            0 <= i < row.len() ==> (#[trigger] row[i]).1 is Some,
    decreases row.len(),
{
    if row.len() > 0 {
        let rest = row.skip(1);
        lemma_no_text(rest);
        assert forall|i: int| 0 <= i < rest.len() implies #[trigger] rest[i] == row[i + 1] by {}
        if no_text(row) is None {
            assert forall|i: int| 0 <= i < row.len() implies (#[trigger] row[i]).1 is Some by {
                if i > 0 {
                    assert(rest[i - 1] == row[i]);
                }
            }
        }
    }
}

proof fn lemma_field(row: Seq<(Seq<char>, Option<Seq<char>>)>, name: Seq<char>)
    requires
        forall|i: int, j: int| 0 <= i < j < row.len() ==> (#[trigger] row[i]).0 != (#[trigger] row[j]).0,
    ensures
        forall|i: int|
            0 <= i < row.len() && (#[trigger] row[i]).0 == name ==> row_field(row, name) == row[i].1,
        row_field(row, name) is Some ==> exists|i: int|
            0 <= i < row.len() && (#[trigger] row[i]).0 == name,
    decreases row.len(),
{
    if row.len() > 0 {
        let rest = row.skip(1);
        assert forall|i: int| 0 <= i < rest.len() implies #[trigger] rest[i] == row[i + 1] by {}
        assert forall|i: int, j: int| 0 <= i < j < rest.len() implies (#[trigger] rest[i]).0 != (
        #[trigger] rest[j]).0 by {
            assert(row[i + 1].0 != row[j + 1].0);
        }
        lemma_field(rest, name);
        if row[0].0 == name {
            assert forall|i: int| 0 <= i < row.len() && (#[trigger] row[i]).0 == name implies i
                == 0 by {
                if i > 0 {
                    assert(row[0].0 != row[i].0);
                }
            }
        } else {
            assert forall|i: int| 0 <= i < row.len() && (#[trigger] row[i]).0 == name implies row_field(
                row,
                name,
            ) == row[i].1 by {
                assert(rest[i - 1] == row[i]);
            }
            if row_field(rest, name) is Some {
                let i = choose|i: int| 0 <= i < rest.len() && (#[trigger] rest[i]).0 == name;
                assert(row[i + 1].0 == name);
            }
        }
    }
}

/// An array is a row where it has all that a row has, all of it text, in order.
pub proof fn arrays_are_rows(items: Seq<Option<Seq<char>>>)
    ensures
        array_row(items) is Ok <==> items.len() >= 7 && items[0] is Some && items[1] is Some
            && items[2] is Some && items[3] is Some && items[4] is Some && items[5] is Some
            && items[6] is Some,
        array_row(items) matches Ok(row) ==> {
            &&& items[0] == Some(row.id)
            &&& items[1] == Some(row.ecosystem)
            &&& items[2] == row.kind
            &&& items[3] == row.reclaim_dir
            &&& items[4] == row.marker
            &&& items[5] == Some(row.safety)
            &&& items[6] == row.regenerate
        },
{
}

/// A ruleset loads exactly where every row of it is a rule.
pub proof fn rulesets_load_whole(read: Seq<RowReadView>)
    ensures
        ruleset_of(read) is Ok <==> forall|i: int|
            0 <= i < read.len() ==> (row_of(#[trigger] read[i]) matches Ok(row) && detector_of(
                row,
            ) is Ok),
{
    lemma_rows_load(read, read.len() as int);
    if rows_of(read, read.len() as int) is Ok {
        let rows = rows_of(read, read.len() as int)->Ok_0;
        lemma_detectors_load(rows, rows.len() as int);
        assert forall|i: int| 0 <= i < read.len() implies (row_of(#[trigger] read[i]) matches Ok(
            row,
        ) && row == rows[i]) by {}
        if forall|i: int|
            0 <= i < read.len() ==> (row_of(#[trigger] read[i]) matches Ok(row) && detector_of(
                row,
            ) is Ok) {
            assert forall|i: int| 0 <= i < rows.len() implies detector_of(
                #[trigger] rows[i],
            ) is Ok by {
                assert(row_of(read[i]) is Ok);
            }
        }
        if ruleset_of(read) is Ok {
            assert forall|i: int| 0 <= i < read.len() implies (row_of(
                #[trigger] read[i],
            ) matches Ok(row) && detector_of(row) is Ok) by {
                assert(detector_of(rows[i]) is Ok);
            }
        }
    }
}

proof fn lemma_rows_load(read: Seq<RowReadView>, n: int)
    requires
        0 <= n <= read.len(),
    ensures
        rows_of(read, n) is Ok <==> forall|i: int|
            0 <= i < n ==> row_of(#[trigger] read[i]) is Ok,
        rows_of(read, n) matches Ok(rows) ==> rows.len() == n && forall|i: int|
            0 <= i < n ==> row_of(#[trigger] read[i]) == Ok::<RowView, Seq<char>>(rows[i]),
    decreases n,
{
    if n > 0 {
        lemma_rows_load(read, n - 1);
    }
}

proof fn lemma_detectors_load(rows: Seq<RowView>, n: int)
    requires
        0 <= n <= rows.len(),
    ensures
        detectors_of(rows, n) is Ok <==> forall|i: int|
            0 <= i < n ==> detector_of(#[trigger] rows[i]) is Ok,
    decreases n,
{
    if n > 0 {
        lemma_detectors_load(rows, n - 1);
    }
}

/// Why a row is no rule: its safety class comes first, then what it reclaims or its kind.
pub proof fn why_a_row_is_no_rule(row: RowView)
    ensures
        row.safety != "regenerable"@ && row.safety != "git_worktree"@ && row.safety
            != "package_cache"@ ==> detector_of(row) == Err::<DetectorView, Seq<char>>(
            "detector "@ + row.id + ": unknown safety "@ + debug_text(row.safety),
        ),
        row.safety == "regenerable"@ || row.safety == "git_worktree"@ || row.safety
            == "package_cache"@ ==> {
            &&& row.kind is None && row.reclaim_dir is None ==> detector_of(row) == Err::<
                DetectorView,
                Seq<char>,
            >("detector "@ + row.id + ": reclaim_dir required"@)
            &&& row.kind matches Some(kind) ==> kind != "git_worktree"@ && kind != "cachedir_tag"@
                ==> detector_of(row) == Err::<DetectorView, Seq<char>>(
                "detector "@ + row.id + ": unknown kind "@ + debug_text(kind),
            )
        },
{
}

/// A text is a ruleset where it has rows, and they are rules.
pub proof fn texts_are_rulesets(text: Seq<char>)
    ensures
        toml_rows(text, "detector"@) matches Err(e) ==> parsed_ruleset(text) == Err::<
            Seq<DetectorView>,
            Seq<char>,
        >(e),
        toml_rows(text, "detector"@) matches Ok(None) ==> parsed_ruleset(text) is Err,
        toml_rows(text, "detector"@) matches Ok(Some(None)) ==> parsed_ruleset(text) is Err,
        toml_rows(text, "detector"@) matches Ok(Some(Some(read))) ==> parsed_ruleset(text)
            == ruleset_of(read),
{
}

/// A row is a table or an array, and nothing else.
pub proof fn rows_are_tables_or_arrays(
    fields: Seq<(Seq<char>, Option<Seq<char>>)>,
    items: Seq<Option<Seq<char>>>,
)
    ensures
        row_of(RowReadView::Table(fields)) == table_row(fields),
        row_of(RowReadView::Array(items)) == array_row(items),
        row_of(RowReadView::Other) is Err,
{
}

} // verus!
