//! Walks: what a directory's listing makes a walk discover and descend.

use crate::dirread::{EntryView, FileKind};
use crate::model::CandidateView;
use crate::orchestrator::{
    beats, entered, is_pruned, kept_names, names_of, recorded, stops_here, visit_of, ScanTotals,
    VisitView,
};
use crate::paths::{path_components, path_file_name, path_join, same_path};
use crate::registry::{
    claim_of, claimed, claims, marker_hits, parsed_marker, DetectorView, KindView, MarkerView,
    MatchView,
};
use crate::text::{text_ends_with, text_starts_with};
use vstd::prelude::*;

verus! {

/// The names of one kind are those of the entries of that kind, in order.
pub proof fn names_are_those_of_the_kind(entries: Seq<EntryView>, kind: FileKind)
    ensures
        names_of(entries, kind) == entries.filter(|e: EntryView| e.kind == kind).map_values(
            |e: EntryView| e.name,
        ),
        forall|name: Seq<char>| #[trigger]
            names_of(entries, kind).contains(name) <==> exists|i: int|
                0 <= i < entries.len() && (#[trigger] entries[i]).kind == kind && entries[i].name
                    == name,
    decreases entries.len(),
{
    reveal(Seq::filter);
    let pred = |e: EntryView| e.kind == kind;
    let name_of = |e: EntryView| e.name;
    let names = names_of(entries, kind);
    if entries.len() == 0 {
        assert(names =~= entries.filter(pred).map_values(name_of));
    } else {
        let before = entries.drop_last();
        let rest = names_of(before, kind);
        let n = before.len() as int;
        names_are_those_of_the_kind(before, kind);
        assert(names =~= entries.filter(pred).map_values(name_of));
        assert forall|name: Seq<char>| #[trigger] names.contains(name) implies exists|i: int|
            0 <= i < entries.len() && (#[trigger] entries[i]).kind == kind && entries[i].name
                == name by {
            let k = choose|k: int| 0 <= k < names.len() && names[k] == name;
            if k < rest.len() {
                assert(rest[k] == name);
                assert(rest.contains(name));
                let i = choose|i: int|
                    0 <= i < before.len() && (#[trigger] before[i]).kind == kind && before[i].name
                        == name;
                assert(entries[i] == before[i]);
            } else {
                assert(entries[n].name == name);
            }
        }
        assert forall|name: Seq<char>|
            (exists|i: int|
                0 <= i < entries.len() && (#[trigger] entries[i]).kind == kind && entries[i].name
                    == name) implies #[trigger] names.contains(name) by {
            let i = choose|i: int|
                0 <= i < entries.len() && (#[trigger] entries[i]).kind == kind && entries[i].name
                    == name;
            if i < n {
                assert(before[i] == entries[i]);
                assert(rest.contains(name));
                let k = choose|k: int| 0 <= k < rest.len() && rest[k] == name;
                assert(names[k] == name);
            } else {
                assert(names[names.len() - 1] == name);
            }
        }
    }
}

/// A text ends with another where it is something followed by it, and starts with another where it
/// is that followed by something.
pub proof fn ends_and_starts(s: Seq<char>, part: Seq<char>)
    ensures
        text_ends_with(s, part) <==> exists|front: Seq<char>| s == #[trigger] (front + part),
        text_starts_with(s, part) <==> exists|rest: Seq<char>| s == #[trigger] (part + rest),
{
    let n = s.len() - part.len();
    if text_ends_with(s, part) {
        assert(s =~= s.take(n) + part);
    }
    if text_starts_with(s, part) {
        assert(s =~= part + s.skip(part.len() as int));
    }
    if exists|front: Seq<char>| s == #[trigger] (front + part) {
        let front = choose|front: Seq<char>| s == #[trigger] (front + part);
        assert((front + part).skip(front.len() as int) =~= part);
    }
    if exists|rest: Seq<char>| s == #[trigger] (part + rest) {
        let rest = choose|rest: Seq<char>| s == #[trigger] (part + rest);
        assert((part + rest).take(part.len() as int) =~= part);
    }
}

/// A marker is a name, or a star and how a name ends.
pub proof fn markers_are_names_or_endings(s: Seq<char>)
    ensures
        parsed_marker(seq!['*'] + s) == MarkerView::Extension(s),
        s.len() == 0 || s[0] != '*' ==> parsed_marker(s) == MarkerView::Exact(s),
{
    assert((seq!['*'] + s).skip(1) =~= s);
}

/// A marker is hit by a file or a directory of its name or ending, and by nothing else.
pub proof fn markers_are_hit_by_names(
    part: Seq<char>,
    files: Seq<Seq<char>>,
    dirs: Seq<Seq<char>>,
)
    ensures
        marker_hits(MarkerView::Exact(part), files, dirs) <==> {
            ||| exists|i: int| 0 <= i < files.len() && #[trigger] files[i] == part
            ||| exists|i: int| 0 <= i < dirs.len() && #[trigger] dirs[i] == part
        },
        marker_hits(MarkerView::Extension(part), files, dirs) <==> {
            ||| exists|i: int|
                0 <= i < files.len() && (#[trigger] files[i]).len() >= part.len() && files[i].skip(
                    files[i].len() - part.len(),
                ) == part
            ||| exists|i: int|
                0 <= i < dirs.len() && (#[trigger] dirs[i]).len() >= part.len() && dirs[i].skip(
                    dirs[i].len() - part.len(),
                ) == part
        },
{
}

/// What a row claims of a listing: a subdirectory of the row's name beside its marker, where it
/// has one; the directory itself, where it holds a `.git` file or a cache tag. All but the worktree
/// are pruned. The candidate is named by the row.
pub proof fn rows_claim_what_they_name(
    d: DetectorView,
    dir: Seq<char>,
    files: Seq<Seq<char>>,
    dirs: Seq<Seq<char>>,
)
    ensures
        ({
            let claim = claim_of(d, dir, files, dirs);
            &&& claim is Some <==> match d.kind {
                KindView::SiblingMarker { reclaim_dir, marker } => dirs.contains(reclaim_dir) && (
                marker is None || marker_hits(marker->0, files, dirs)),
                KindView::GitWorktreeSelf => files.contains(".git"@),
                KindView::CachedirTag => files.contains("CACHEDIR.TAG"@),
            }
            &&& claim matches Some(m) ==> {
                &&& m.candidate.ecosystem == d.ecosystem
                &&& m.candidate.detector == d.id
                &&& m.candidate.safety_class == d.safety
                &&& m.prune <==> !(d.kind is GitWorktreeSelf)
                &&& d.kind is GitWorktreeSelf || d.kind is CachedirTag ==> m.candidate.path == dir
                &&& d.kind matches KindView::SiblingMarker { reclaim_dir, .. } ==> m.candidate.path
                    == path_join(dir, reclaim_dir)
            }
        }),
{
}

/// Two paths are one where their components are.
pub proof fn paths_are_their_components(a: Seq<char>, b: Seq<char>)
    ensures
        same_path(a, b) <==> path_components(a) == path_components(b),
{
}

/// Every claim of a row is heard, and every claim that is heard is one of the first row to claim
/// its path.
pub proof fn every_claim_is_heard(
    rows: Seq<DetectorView>,
    dir: Seq<char>,
    files: Seq<Seq<char>>,
    dirs: Seq<Seq<char>>,
)
    ensures
        forall|k: int|
            0 <= k < rows.len() ==> (claim_of(#[trigger] rows[k], dir, files, dirs) matches Some(m)
                ==> exists|i: int|
                0 <= i < claims(rows, dir, files, dirs).len() && path_components(
                    (#[trigger] claims(rows, dir, files, dirs)[i]).candidate.path,
                ) == path_components(m.candidate.path)),
        forall|i: int|
            0 <= i < claims(rows, dir, files, dirs).len() ==> exists|k: int|
                0 <= k < rows.len() && claim_of(#[trigger] rows[k], dir, files, dirs) == Some(
                    #[trigger] claims(rows, dir, files, dirs)[i],
                ) && forall|j: int|
                    0 <= j < k ==> (claim_of(#[trigger] rows[j], dir, files, dirs) matches Some(m)
                        ==> path_components(m.candidate.path) != path_components(
                        claims(rows, dir, files, dirs)[i].candidate.path,
                    )),
    decreases rows.len(),
{
    let all = claims(rows, dir, files, dirs);
    if rows.len() > 0 {
        let before = rows.drop_last();
        let earlier = claims(before, dir, files, dirs);
        let n = before.len() as int;
        every_claim_is_heard(before, dir, files, dirs);
        assert forall|k: int| 0 <= k < rows.len() implies (claim_of(
            #[trigger] rows[k],
            dir,
            files,
            dirs,
        ) matches Some(m) ==> exists|i: int|
            0 <= i < all.len() && path_components((#[trigger] all[i]).candidate.path)
                == path_components(m.candidate.path)) by {
            if claim_of(rows[k], dir, files, dirs) is Some {
                let m = claim_of(rows[k], dir, files, dirs)->0;
                if k < n {
                    assert(before[k] == rows[k]);
                    let i = choose|i: int|
                        0 <= i < earlier.len() && path_components(
                            (#[trigger] earlier[i]).candidate.path,
                        ) == path_components(m.candidate.path);
                    assert(all[i] == earlier[i]);
                } else if claimed(earlier, m.candidate.path) {
                    let i = choose|i: int|
                        0 <= i < earlier.len() && same_path(
                            (#[trigger] earlier[i]).candidate.path,
                            m.candidate.path,
                        );
                    assert(all[i] == earlier[i]);
                } else {
                    assert(all[earlier.len() as int] == m);
                }
            }
        }
        assert forall|i: int| 0 <= i < all.len() implies exists|k: int|
            0 <= k < rows.len() && claim_of(#[trigger] rows[k], dir, files, dirs) == Some(
                #[trigger] all[i],
            ) && forall|j: int|
                0 <= j < k ==> (claim_of(#[trigger] rows[j], dir, files, dirs) matches Some(m)
                    ==> path_components(m.candidate.path) != path_components(
                    all[i].candidate.path,
                )) by {
            if i < earlier.len() {
                assert(all[i] == earlier[i]);
                let k = choose|k: int|
                    0 <= k < before.len() && claim_of(#[trigger] before[k], dir, files, dirs)
                        == Some(earlier[i]) && forall|j: int|
                        0 <= j < k ==> (claim_of(#[trigger] before[j], dir, files, dirs) matches Some(
                            m,
                        ) ==> path_components(m.candidate.path) != path_components(
                            earlier[i].candidate.path,
                        ));
                assert(rows[k] == before[k]);
                assert forall|j: int| 0 <= j < k implies (claim_of(
                    #[trigger] rows[j],
                    dir,
                    files,
                    dirs,
                ) matches Some(m) ==> path_components(m.candidate.path) != path_components(
                    all[i].candidate.path,
                )) by {
                    assert(rows[j] == before[j]);
                }
            } else {
                let m = all[i];
                assert(claim_of(rows[n], dir, files, dirs) == Some(m));
                assert forall|j: int| 0 <= j < n implies (claim_of(
                    #[trigger] rows[j],
                    dir,
                    files,
                    dirs,
                ) matches Some(other) ==> path_components(other.candidate.path) != path_components(
                    m.candidate.path,
                )) by {
                    assert(rows[j] == before[j]);
                    if claim_of(rows[j], dir, files, dirs) is Some {
                        let other = claim_of(rows[j], dir, files, dirs)->0;
                        let x = choose|x: int|
                            0 <= x < earlier.len() && path_components(
                                (#[trigger] earlier[x]).candidate.path,
                            ) == path_components(other.candidate.path);
                        if path_components(other.candidate.path) == path_components(
                            m.candidate.path,
                        ) {
                            assert(same_path(earlier[x].candidate.path, m.candidate.path));
                            assert(claimed(earlier, m.candidate.path));
                        }
                    }
                }
            }
        }
    }
}

/// A further row changes nothing of what the rows before it claim: it adds its own claim at the
/// end, where its path is not claimed yet, and else nothing.
pub proof fn a_further_row_comes_last(
    rows: Seq<DetectorView>,
    d: DetectorView,
    dir: Seq<char>,
    files: Seq<Seq<char>>,
    dirs: Seq<Seq<char>>,
)
    ensures
        ({
            let before = claims(rows, dir, files, dirs);
            let after = claims(rows.push(d), dir, files, dirs);
            &&& after.len() <= before.len() + 1
            &&& before.len() <= after.len()
            &&& after.take(before.len() as int) == before
            &&& after.len() == before.len() + 1 ==> claim_of(d, dir, files, dirs) == Some(
                after.last(),
            )
        }),
{
    let all = rows.push(d);
    assert(all.drop_last() =~= rows);
    let before = claims(rows, dir, files, dirs);
    let after = claims(all, dir, files, dirs);
    assert(after.take(before.len() as int) =~= before);
}

/// What a visit discovers is what the rows claim of the files and directories of the listing.
pub proof fn discoveries_are_claims(
    rows: Seq<DetectorView>,
    dir: Seq<char>,
    entries: Seq<EntryView>,
)
    ensures
        ({
            let heard = claims(
                rows,
                dir,
                names_of(entries, FileKind::File),
                names_of(entries, FileKind::Dir),
            );
            &&& visit_of(rows, dir, entries).discovered.len() == heard.len()
            &&& forall|i: int|
                0 <= i < heard.len() ==> #[trigger] visit_of(rows, dir, entries).discovered[i]
                    == heard[i].candidate
        }),
{
}

/// A subdirectory that a row is for is discovered: it is there under the row's name, and what marks
/// it stands beside it. The candidate is the row's own, unless an earlier row has the same path.
pub proof fn what_a_row_is_for_is_discovered(
    rows: Seq<DetectorView>,
    dir: Seq<char>,
    entries: Seq<EntryView>,
    k: int,
    i: int,
    j: int,
)
    requires
        0 <= k < rows.len(),
        0 <= i < entries.len(),
        0 <= j < entries.len(),
        entries[i].kind is Dir,
        entries[j].kind is Dir || entries[j].kind is File,
        rows[k].kind matches KindView::SiblingMarker { reclaim_dir, marker } && reclaim_dir
            == entries[i].name && (marker matches Some(m) ==> {
            ||| m == MarkerView::Exact(entries[j].name)
            ||| m matches MarkerView::Extension(ext) && entries[j].name.len() >= ext.len()
                && entries[j].name.skip(entries[j].name.len() - ext.len()) == ext
        }),
    ensures
        ({
            let found = visit_of(rows, dir, entries).discovered;
            let path = path_join(dir, entries[i].name);
            &&& exists|x: int|
                0 <= x < found.len() && path_components((#[trigger] found[x]).path)
                    == path_components(path)
            &&& (forall|y: int|
                0 <= y < k ==> (claim_of(
                    #[trigger] rows[y],
                    dir,
                    names_of(entries, FileKind::File),
                    names_of(entries, FileKind::Dir),
                ) matches Some(m) ==> path_components(m.candidate.path) != path_components(path)))
                ==> found.contains(
                CandidateView {
                    path,
                    ecosystem: rows[k].ecosystem,
                    detector: rows[k].id,
                    safety_class: rows[k].safety,
                },
            )
        }),
{
    let files = names_of(entries, FileKind::File);
    let dirs = names_of(entries, FileKind::Dir);
    names_are_those_of_the_kind(entries, FileKind::File);
    names_are_those_of_the_kind(entries, FileKind::Dir);
    let path = path_join(dir, entries[i].name);
    assert(dirs.contains(entries[i].name));
    if entries[j].kind is Dir {
        assert(dirs.contains(entries[j].name));
        let x = choose|x: int| 0 <= x < dirs.len() && dirs[x] == entries[j].name;
        assert(dirs[x] == entries[j].name);
    } else {
        assert(files.contains(entries[j].name));
        let x = choose|x: int| 0 <= x < files.len() && files[x] == entries[j].name;
        assert(files[x] == entries[j].name);
    }
    let claim = claim_of(rows[k], dir, files, dirs);
    assert(claim is Some);
    assert(claim->0.candidate.path == path);
    let heard = claims(rows, dir, files, dirs);
    let found = visit_of(rows, dir, entries).discovered;
    every_claim_is_heard(rows, dir, files, dirs);
    let x = choose|x: int|
        0 <= x < heard.len() && path_components((#[trigger] heard[x]).candidate.path)
            == path_components(path);
    assert(found[x] == heard[x].candidate);
    if forall|y: int|
        0 <= y < k ==> (claim_of(#[trigger] rows[y], dir, files, dirs) matches Some(m)
            ==> path_components(m.candidate.path) != path_components(path)) {
        let z = choose|z: int|
            0 <= z < rows.len() && claim_of(#[trigger] rows[z], dir, files, dirs) == Some(heard[x])
                && forall|j: int|
                0 <= j < z ==> (claim_of(#[trigger] rows[j], dir, files, dirs) matches Some(m)
                    ==> path_components(m.candidate.path) != path_components(
                    heard[x].candidate.path,
                ));
        if k < z {
            assert(claim_of(rows[k], dir, files, dirs) is Some);
        }
        assert(z == k);
        assert(found[x] == claim->0.candidate);
    }
}

/// A pruning claim names a directory entry: it is on a path that ends in its name, and not on the
/// listed directory itself.
pub open spec fn names_it(m: MatchView, dir: Seq<char>, name: Seq<char>) -> bool {
    m.prune && path_components(m.candidate.path) != path_components(dir) && path_file_name(
        m.candidate.path,
    ) == Some(name)
}

/// A pruning claim is on the listed directory itself.
pub open spec fn is_on(m: MatchView, dir: Seq<char>) -> bool {
    m.prune && path_components(m.candidate.path) == path_components(dir)
}

/// Where no pruning claim is on the directory itself, every subdirectory that no pruning claim
/// names is descended, and nothing else is, in the order of the listing; and every file is counted.
/// Where one is, nothing is descended and nothing is counted.
pub proof fn what_is_not_pruned_is_descended(
    rows: Seq<DetectorView>,
    dir: Seq<char>,
    entries: Seq<EntryView>,
)
    ensures
        ({
            let heard = claims(
                rows,
                dir,
                names_of(entries, FileKind::File),
                names_of(entries, FileKind::Dir),
            );
            let visit = visit_of(rows, dir, entries);
            &&& (exists|i: int| 0 <= i < heard.len() && is_on(#[trigger] heard[i], dir))
                ==> visit.descend.len() == 0 && visit.files == 0
            &&& (forall|i: int| 0 <= i < heard.len() ==> !is_on(#[trigger] heard[i], dir)) ==> {
                &&& visit.files == entries.filter(|e: EntryView| e.kind is File).len()
                &&& visit.descend == entries.filter(
                    |e: EntryView|
                        e.kind is Dir && forall|i: int|
                            0 <= i < heard.len() ==> !names_it(#[trigger] heard[i], dir, e.name),
                ).map_values(|e: EntryView| path_join(dir, e.name))
                &&& forall|x: int|
                    0 <= x < entries.len() && (#[trigger] entries[x]).kind is Dir && (forall|i: int|
                        0 <= i < heard.len() ==> !names_it(
                            #[trigger] heard[i],
                            dir,
                            entries[x].name,
                        )) ==> visit.descend.contains(path_join(dir, entries[x].name))
            }
        }),
{
    let files = names_of(entries, FileKind::File);
    let heard = claims(rows, dir, files, names_of(entries, FileKind::Dir));
    let visit = visit_of(rows, dir, entries);
    let join = |e: EntryView| path_join(dir, e.name);
    let kept = |e: EntryView|
        e.kind is Dir && forall|i: int|
            0 <= i < heard.len() ==> !names_it(#[trigger] heard[i], dir, e.name);
    if exists|i: int| 0 <= i < heard.len() && is_on(#[trigger] heard[i], dir) {
        let i = choose|i: int| 0 <= i < heard.len() && is_on(#[trigger] heard[i], dir);
        assert(heard[i].prune && same_path(heard[i].candidate.path, dir));
        assert(stops_here(heard, dir));
    }
    if forall|i: int| 0 <= i < heard.len() ==> !is_on(#[trigger] heard[i], dir) {
        assert(!stops_here(heard, dir)) by {
            if stops_here(heard, dir) {
                let i = choose|i: int|
                    0 <= i < heard.len() && (#[trigger] heard[i]).prune && same_path(
                        heard[i].candidate.path,
                        dir,
                    );
                assert(is_on(heard[i], dir));
            }
        }
        names_are_those_of_the_kind(entries, FileKind::File);
        lemma_same_filter(
            entries,
            |e: EntryView| e.kind == FileKind::File,
            |e: EntryView| e.kind is File,
        );
        lemma_kept_names_are_filtered(entries, heard, dir, kept);
        let names = kept_names(entries, heard, dir);
        assert(visit.descend =~= entries.filter(kept).map_values(join));
        assert forall|x: int|
            0 <= x < entries.len() && (#[trigger] entries[x]).kind is Dir && (forall|i: int|
                0 <= i < heard.len() ==> !names_it(
                    #[trigger] heard[i],
                    dir,
                    entries[x].name,
                )) implies visit.descend.contains(path_join(dir, entries[x].name)) by {
            assert(kept(entries[x]));
            entries.lemma_filter_contains(kept, x);
            let y = choose|y: int|
                0 <= y < entries.filter(kept).len() && entries.filter(kept)[y] == entries[x];
            assert(visit.descend[y] == path_join(dir, entries[x].name));
        }
    }
}

proof fn lemma_same_filter<A>(s: Seq<A>, p: spec_fn(A) -> bool, q: spec_fn(A) -> bool)
    requires
        forall|x: A| #[trigger] p(x) == q(x),
    ensures
        s.filter(p) == s.filter(q),
    decreases s.len(),
{
    reveal(Seq::filter);
    if s.len() > 0 {
        lemma_same_filter(s.drop_last(), p, q);
        assert(p(s.last()) == q(s.last()));
    }
}

proof fn lemma_kept_names_are_filtered(
    entries: Seq<EntryView>,
    heard: Seq<MatchView>,
    dir: Seq<char>,
    kept: spec_fn(EntryView) -> bool,
)
    requires
        forall|e: EntryView| #[trigger]
            kept(e) <==> e.kind is Dir && forall|i: int|
                0 <= i < heard.len() ==> !names_it(#[trigger] heard[i], dir, e.name),
    ensures
        kept_names(entries, heard, dir) == entries.filter(kept).map_values(
            |e: EntryView| e.name,
        ),
    decreases entries.len(),
{
    reveal(Seq::filter);
    let name_of = |e: EntryView| e.name;
    if entries.len() == 0 {
        assert(kept_names(entries, heard, dir) =~= entries.filter(kept).map_values(name_of));
    } else {
        let e = entries.last();
        lemma_kept_names_are_filtered(entries.drop_last(), heard, dir, kept);
        assert(is_pruned(heard, dir, e.name) <==> exists|i: int|
            0 <= i < heard.len() && names_it(#[trigger] heard[i], dir, e.name)) by {
            if is_pruned(heard, dir, e.name) {
                let i = choose|i: int|
                    0 <= i < heard.len() && (#[trigger] heard[i]).prune && !same_path(
                        heard[i].candidate.path,
                        dir,
                    ) && path_file_name(heard[i].candidate.path) == Some(e.name);
                assert(names_it(heard[i], dir, e.name));
            }
            if exists|i: int| 0 <= i < heard.len() && names_it(#[trigger] heard[i], dir, e.name) {
                let i = choose|i: int|
                    0 <= i < heard.len() && names_it(#[trigger] heard[i], dir, e.name);
                assert(heard[i].prune);
            }
        }
        assert(kept_names(entries, heard, dir) =~= entries.filter(kept).map_values(name_of));
    }
}

/// A walk counts what its visits found: their files and candidates, and no more directories than
/// it entered.
pub proof fn totals_add_up(totals: (int, int, int), visit: VisitView)
    ensures
        recorded(totals, visit).0 == totals.0,
        recorded(totals, visit).1 == totals.1 + visit.files,
        recorded(totals, visit).2 == totals.2 + visit.discovered.len(),
{
}

/// Every directory that is entered counts once, and every 128 of them there is a heartbeat.
pub proof fn directories_are_counted(totals: (int, int, int), dirs: u64)
    ensures
        entered(totals).0 == totals.0 + 1,
        entered(totals).1 == totals.1,
        entered(totals).2 == totals.2,
        beats(dirs) <==> dirs % 128 == 0,
{
}

/// The totals are counted one by one.
pub proof fn totals_are_counts(totals: ScanTotals)
    ensures
        totals.counts().0 == totals.dirs,
        totals.counts().1 == totals.files,
        totals.counts().2 == totals.candidates,
{
}

} // verus!
