//! What a walk does in one directory: which candidates it discovers, and which
//! subdirectories it descends. Reclaim roots are recorded and never descended;
//! symlinks are never followed, so cycles cannot occur. A directory that cannot
//! be read is one that is never claimed (fail closed).

use crate::dirread::{Entry, EntryView, FileKind};
use crate::model::{Candidate, CandidateView};
use crate::paths::{
    equal_paths, file_name, join, normal, path_components, path_file_name, path_join, plain_base,
    plain_name, same_path,
};
use crate::registry::{
    claim_of, claimed, claims, claims_end_in_names, ends_in_name, first_match_wins,
    first_to_claim, reclaimed_name, DetectorView, Match, MatchView, Registry,
};
use crate::text::{lemma_views_push, same_text, str_views, views};
use vstd::prelude::*;

verus! {

/// The event seam that surfaces consume.
#[derive(Debug)]
#[non_exhaustive]
pub enum ScanEvent {
    Discovered(Candidate),
    /// Heartbeat while walking.
    Progress { dirs: u64, files: u64 },
}

/// What a walk has seen.
#[derive(Debug, Clone, Copy, PartialEq, Eq)]
pub struct ScanTotals {
    pub dirs: u64,
    pub files: u64,
    pub candidates: u64,
}

/// What a walk does in one directory.
#[derive(Debug)]
pub struct Visit {
    /// The candidates found there.
    pub discovered: Vec<Candidate>,
    /// The subdirectories to visit next.
    pub descend: Vec<String>,
    /// The files counted there.
    pub files: u64,
}

/// The view of a [`Visit`].
pub struct VisitView {
    pub discovered: Seq<CandidateView>,
    pub descend: Seq<Seq<char>>,
    pub files: int,
}

impl View for Visit {
    type V = VisitView;

    open spec fn view(&self) -> VisitView {
        VisitView {
            discovered: views(self.discovered@),
            descend: views(self.descend@),
            files: self.files as int,
        }
    }
}

/// The names of the entries of one kind, in order.
pub open spec fn names_of(entries: Seq<EntryView>, kind: FileKind) -> Seq<Seq<char>>
    decreases entries.len(),
{
    if entries.len() == 0 {
        seq![]
    } else {
        let rest = names_of(entries.drop_last(), kind);
        if entries.last().kind == kind {
            rest.push(entries.last().name)
        } else {
            rest
        }
    }
}

/// What the rows claim in a directory with these entries.
pub open spec fn listing_claims(
    rows: Seq<DetectorView>,
    dir: Seq<char>,
    entries: Seq<EntryView>,
) -> Seq<MatchView> {
    claims(rows, dir, names_of(entries, FileKind::File), names_of(entries, FileKind::Dir))
}

/// A claim says not to descend, and is on the directory itself: it declares
/// itself a cache.
pub open spec fn stops_here(matches: Seq<MatchView>, dir: Seq<char>) -> bool {
    exists|i: int|
        0 <= i < matches.len() && (#[trigger] matches[i]).prune && same_path(
            matches[i].candidate.path,
            dir,
        )
}

/// A claim says not to descend the subdirectory of this name.
pub open spec fn is_pruned(matches: Seq<MatchView>, dir: Seq<char>, name: Seq<char>) -> bool {
    exists|i: int|
        0 <= i < matches.len() && (#[trigger] matches[i]).prune && !same_path(
            matches[i].candidate.path,
            dir,
        ) && path_file_name(matches[i].candidate.path) == Some(name)
}

/// The names of the subdirectories that are not pruned, in order.
pub open spec fn kept_names(
    entries: Seq<EntryView>,
    matches: Seq<MatchView>,
    dir: Seq<char>,
) -> Seq<Seq<char>>
    decreases entries.len(),
{
    if entries.len() == 0 {
        seq![]
    } else {
        let rest = kept_names(entries.drop_last(), matches, dir);
        let e = entries.last();
        if e.kind is Dir && !is_pruned(matches, dir, e.name) {
            rest.push(e.name)
        } else {
            rest
        }
    }
}

/// The names of the subdirectories to descend.
pub open spec fn descended_names(
    rows: Seq<DetectorView>,
    dir: Seq<char>,
    entries: Seq<EntryView>,
) -> Seq<Seq<char>> {
    let matches = listing_claims(rows, dir, entries);
    if stops_here(matches, dir) {
        seq![]
    } else {
        kept_names(entries, matches, dir)
    }
}

/// The candidates of a list of matches.
pub open spec fn candidates_of(matches: Seq<MatchView>) -> Seq<CandidateView> {
    Seq::new(matches.len(), |i: int| matches[i].candidate)
}

/// What a walk does in a directory with these entries. In a self-declared cache
/// it discovers, and neither counts nor descends.
pub open spec fn visit_of(
    rows: Seq<DetectorView>,
    dir: Seq<char>,
    entries: Seq<EntryView>,
) -> VisitView {
    let matches = listing_claims(rows, dir, entries);
    let names = descended_names(rows, dir, entries);
    VisitView {
        discovered: candidates_of(matches),
        descend: Seq::new(names.len(), |i: int| path_join(dir, names[i])),
        files: if stops_here(matches, dir) {
            0
        } else {
            names_of(entries, FileKind::File).len() as int
        },
    }
}

/// The names of the entries of one kind, in order.
fn collect_names<'a>(entries: &'a [Entry], kind: FileKind) -> (r: Vec<&'a str>)
    ensures
        str_views(r@) == names_of(views(entries@), kind),
{
    let ghost all = views(entries@);
    let mut out: Vec<&'a str> = Vec::new();
    assert(str_views(out@) =~= names_of(all.take(0), kind));
    for i in 0..entries.len()
        invariant
            all == views(entries@),
            str_views(out@) == names_of(all.take(i as int), kind),
    {
        let e = &entries[i];
        let ghost before = str_views(out@);
        assert(all.take(i + 1).drop_last() =~= all.take(i as int));
        if e.kind == kind {
            out.push(e.name.as_str());
            assert(str_views(out@) =~= before.push(e.name@));
        }
    }
    assert(all.take(all.len() as int) =~= all);
    out
}

fn stops(matches: &Vec<Match>, dir: &str) -> (r: bool)
    ensures
        r == stops_here(views(matches@), dir@),
{
    let ghost all = views(matches@);
    let mut i: usize = 0;
    while i < matches.len()
        invariant
            i <= matches@.len(),
            all == views(matches@),
            forall|j: int|
                0 <= j < i ==> !((#[trigger] all[j]).prune && same_path(
                    all[j].candidate.path,
                    dir@,
                )),
        decreases matches@.len() - i,
    {
        assert(all[i as int] == matches@[i as int]@);
        if matches[i].prune && equal_paths(matches[i].candidate.path.as_str(), dir) {
            return true;
        }
        i += 1;
    }
    false
}

fn prunes(matches: &Vec<Match>, dir: &str, name: &str) -> (r: bool)
    ensures
        r == is_pruned(views(matches@), dir@, name@),
{
    let ghost all = views(matches@);
    let mut i: usize = 0;
    while i < matches.len()
        invariant
            i <= matches@.len(),
            all == views(matches@),
            forall|j: int|
                0 <= j < i ==> !((#[trigger] all[j]).prune && !same_path(
                    all[j].candidate.path,
                    dir@,
                ) && path_file_name(all[j].candidate.path) == Some(name@)),
        decreases matches@.len() - i,
    {
        assert(all[i as int] == matches@[i as int]@);
        let path = matches[i].candidate.path.as_str();
        if matches[i].prune && !equal_paths(path, dir) {
            if let Some(last) = file_name(path) {
                if same_text(last.as_str(), name) {
                    return true;
                }
            }
        }
        i += 1;
    }
    false
}

/// Visits one directory: its entries decide what is discovered and where the
/// walk goes on. A claimed reclaim root is one candidate and zero descents.
pub fn visit(registry: &Registry, dir: &str, entries: &[Entry]) -> (r: Visit)
    ensures
        r@ == visit_of(registry@, dir@, views(entries@)),
        reclaim_roots_are_kept_out(registry@, dir@, views(entries@)),
{
    let ghost all = views(entries@);
    let ghost rows = registry@;
    let files = collect_names(entries, FileKind::File);
    let dirs = collect_names(entries, FileKind::Dir);
    let matched = registry.match_listing(dir, files.as_slice(), dirs.as_slice());
    let ghost matches = views(matched@);
    proof {
        lemma_reclaim_roots(rows, dir@, all);
    }
    let mut discovered: Vec<Candidate> = Vec::new();
    assert(views(discovered@) =~= candidates_of(matches).take(0));
    for i in 0..matched.len()
        invariant
            matches == views(matched@),
            views(discovered@) == candidates_of(matches).take(i as int),
    {
        broadcast use lemma_views_push;

        discovered.push(matched[i].candidate.clone());
        assert(views(discovered@) =~= candidates_of(matches).take(i + 1));
    }
    assert(views(discovered@) =~= candidates_of(matches));
    let mut descend: Vec<String> = Vec::new();
    if stops(&matched, dir) {
        assert(views(descend@) =~= visit_of(rows, dir@, all).descend);
        return Visit { discovered, descend, files: 0 };
    }
    assert(views(descend@) =~= joined(dir@, kept_names(all.take(0), matches, dir@)));
    for i in 0..entries.len()
        invariant
            all == views(entries@),
            matches == views(matched@),
            views(descend@) == joined(dir@, kept_names(all.take(i as int), matches, dir@)),
    {
        broadcast use lemma_views_push;

        let e = &entries[i];
        let ghost before = views(descend@);
        assert(all.take(i + 1).drop_last() =~= all.take(i as int));
        assert(all.take(i + 1).last() == e@);
        if matches!(e.kind, FileKind::Dir) && !prunes(&matched, dir, e.name.as_str()) {
            descend.push(join(dir, e.name.as_str()));
            assert(views(descend@) =~= joined(
                dir@,
                kept_names(all.take(i + 1), matches, dir@),
            ));
        }
    }
    assert(all.take(all.len() as int) =~= all);
    assert(views(descend@) =~= visit_of(rows, dir@, all).descend);
    assert(files@.len() == str_views(files@).len());
    Visit { discovered, descend, files: files.len() as u64 }
}

/// Names joined to a directory.
pub open spec fn joined(dir: Seq<char>, names: Seq<Seq<char>>) -> Seq<Seq<char>> {
    Seq::new(names.len(), |i: int| path_join(dir, names[i]))
}

/// A subdirectory that a row claims by its name is recorded and never
/// descended.
pub open spec fn reclaim_roots_are_kept_out(
    rows: Seq<DetectorView>,
    dir: Seq<char>,
    entries: Seq<EntryView>,
) -> bool {
    let files = names_of(entries, FileKind::File);
    let dirs = names_of(entries, FileKind::Dir);
    plain_base(dir) ==> forall|k: int|
        0 <= k < rows.len() ==> (reclaimed_name(#[trigger] rows[k], files, dirs) matches Some(name)
            ==> (plain_name(name) ==> {
            &&& claimed(listing_claims(rows, dir, entries), path_join(dir, name))
            &&& !descended_names(rows, dir, entries).contains(name)
        }))
}

proof fn lemma_kept_names(
    entries: Seq<EntryView>,
    matches: Seq<MatchView>,
    dir: Seq<char>,
    name: Seq<char>,
)
    requires
        is_pruned(matches, dir, name),
    ensures
        !kept_names(entries, matches, dir).contains(name),
    decreases entries.len(),
{
    if entries.len() > 0 {
        lemma_kept_names(entries.drop_last(), matches, dir, name);
        let rest = kept_names(entries.drop_last(), matches, dir);
        let all = kept_names(entries, matches, dir);
        if all.contains(name) {
            let i = choose|i: int| 0 <= i < all.len() && all[i] == name;
            if i < rest.len() {
                assert(rest[i] == name);
            }
        }
    }
}

proof fn lemma_reclaim_roots(rows: Seq<DetectorView>, dir: Seq<char>, entries: Seq<EntryView>)
    requires
        claims_end_in_names(
            rows,
            dir,
            names_of(entries, FileKind::File),
            names_of(entries, FileKind::Dir),
        ),
    ensures
        reclaim_roots_are_kept_out(rows, dir, entries),
{
    let files = names_of(entries, FileKind::File);
    let dirs = names_of(entries, FileKind::Dir);
    let matches = listing_claims(rows, dir, entries);
    first_match_wins(rows, dir, files, dirs);
    if plain_base(dir) {
        assert forall|k: int| 0 <= k < rows.len() implies (reclaimed_name(
            #[trigger] rows[k],
            files,
            dirs,
        ) matches Some(name) ==> (plain_name(name) ==> {
            &&& claimed(matches, path_join(dir, name))
            &&& !descended_names(rows, dir, entries).contains(name)
        })) by {
            if reclaimed_name(rows[k], files, dirs) is Some {
                let name = reclaimed_name(rows[k], files, dirs)->0;
                if plain_name(name) {
                    let path = path_join(dir, name);
                    assert(ends_in_name(rows[k], dir, files, dirs));
                    assert(claim_of(rows[k], dir, files, dirs) is Some);
                    assert(claimed(matches, path));
                    let i = choose|i: int|
                        0 <= i < matches.len() && same_path(
                            (#[trigger] matches[i]).candidate.path,
                            path,
                        );
                    let j = choose|j: int| #[trigger]
                        first_to_claim(rows, j, dir, files, dirs) && claim_of(
                            rows[j],
                            dir,
                            files,
                            dirs,
                        ) == Some(matches[i]);
                    let parts = path_components(matches[i].candidate.path);
                    assert(parts == path_components(dir).push((normal(), name)));
                    assert(parts.len() == path_components(dir).len() + 1);
                    assert(parts.last() == (normal(), name));
                    assert(!(rows[j].kind is GitWorktreeSelf));
                    assert(is_pruned(matches, dir, name));
                    lemma_kept_names(entries, matches, dir, name);
                    assert(!Seq::<Seq<char>>::empty().contains(name));
                }
            }
        }
    }
}

/// A self-declared cache is one candidate and zero descents: where a row that
/// looks for CACHEDIR.TAG finds it, nothing there is descended or counted.
pub proof fn self_declared_cache_is_not_descended(
    rows: Seq<DetectorView>,
    dir: Seq<char>,
    entries: Seq<EntryView>,
    k: int,
)
    requires
        0 <= k < rows.len(),
        rows[k].kind is CachedirTag,
        names_of(entries, FileKind::File).contains("CACHEDIR.TAG"@),
        forall|j: int| 0 <= j < k ==> !((#[trigger] rows[j]).kind is GitWorktreeSelf),
    ensures
        visit_of(rows, dir, entries).descend.len() == 0,
        visit_of(rows, dir, entries).files == 0,
{
    let files = names_of(entries, FileKind::File);
    let dirs = names_of(entries, FileKind::Dir);
    let matches = listing_claims(rows, dir, entries);
    let i = lemma_cache_claim_stands(rows, dir, files, dirs, k);
    assert(matches[i].prune && same_path(matches[i].candidate.path, dir));
    assert(stops_here(matches, dir));
}

/// Where a row that looks for CACHEDIR.TAG finds it, and no worktree row comes
/// before it, the claim on the directory itself is one that prunes.
proof fn lemma_cache_claim_stands(
    rows: Seq<DetectorView>,
    dir: Seq<char>,
    files: Seq<Seq<char>>,
    dirs: Seq<Seq<char>>,
    k: int,
) -> (i: int)
    requires
        0 <= k < rows.len(),
        rows[k].kind is CachedirTag,
        files.contains("CACHEDIR.TAG"@),
        forall|j: int| 0 <= j < k ==> !((#[trigger] rows[j]).kind is GitWorktreeSelf),
    ensures
        0 <= i < claims(rows, dir, files, dirs).len(),
        claims(rows, dir, files, dirs)[i].prune,
        same_path(claims(rows, dir, files, dirs)[i].candidate.path, dir),
{
    let matches = claims(rows, dir, files, dirs);
    first_match_wins(rows, dir, files, dirs);
    let own = claim_of(rows[k], dir, files, dirs)->0;
    assert(own.candidate.path == dir);
    assert(claimed(matches, own.candidate.path));
    let i = choose|i: int|
        0 <= i < matches.len() && same_path((#[trigger] matches[i]).candidate.path, dir);
    let j = choose|j: int| #[trigger]
        first_to_claim(rows, j, dir, files, dirs) && claim_of(rows[j], dir, files, dirs) == Some(
            matches[i],
        );
    lemma_first_claimer(rows, j, k, dir, files, dirs);
    lemma_prunes_unless_worktree(rows[j], dir, files, dirs);
    i
}

/// The first row to claim a path does not come after another that claims it.
proof fn lemma_first_claimer(
    rows: Seq<DetectorView>,
    j: int,
    k: int,
    dir: Seq<char>,
    files: Seq<Seq<char>>,
    dirs: Seq<Seq<char>>,
)
    requires
        first_to_claim(rows, j, dir, files, dirs),
        0 <= k < rows.len(),
        claim_of(rows[k], dir, files, dirs) is Some,
        same_path(
            claim_of(rows[k], dir, files, dirs)->0.candidate.path,
            claim_of(rows[j], dir, files, dirs)->0.candidate.path,
        ),
    ensures
        j <= k,
{
}

/// Every claim prunes, but for a worktree's claim on itself.
proof fn lemma_prunes_unless_worktree(
    d: DetectorView,
    dir: Seq<char>,
    files: Seq<Seq<char>>,
    dirs: Seq<Seq<char>>,
)
    requires
        claim_of(d, dir, files, dirs) is Some,
        !(d.kind is GitWorktreeSelf),
    ensures
        claim_of(d, dir, files, dirs)->0.prune,
{
}

/// Symlinks are counted nowhere and followed never: an entry that is neither a
/// file nor a directory does not change what a walk does.
pub proof fn symlinks_change_nothing(
    rows: Seq<DetectorView>,
    dir: Seq<char>,
    entries: Seq<EntryView>,
    e: EntryView,
)
    requires
        !(e.kind is File),
        !(e.kind is Dir),
    ensures
        visit_of(rows, dir, entries.push(e)) == visit_of(rows, dir, entries),
{
    let more = entries.push(e);
    assert(more.drop_last() =~= entries);
    assert(names_of(more, FileKind::File) == names_of(entries, FileKind::File));
    assert(names_of(more, FileKind::Dir) == names_of(entries, FileKind::Dir));
    let matches = listing_claims(rows, dir, entries);
    assert(kept_names(more, matches, dir) == kept_names(entries, matches, dir));
}

/// A walk with no rows discovers nothing and descends everything.
pub proof fn no_rows_prune_nothing(dir: Seq<char>, entries: Seq<EntryView>)
    ensures
        visit_of(seq![], dir, entries).discovered.len() == 0,
        visit_of(seq![], dir, entries).descend == joined(dir, names_of(entries, FileKind::Dir)),
        visit_of(seq![], dir, entries).files == names_of(entries, FileKind::File).len(),
{
    let matches = listing_claims(seq![], dir, entries);
    assert(matches.len() == 0);
    lemma_nothing_pruned(entries, matches, dir);
}

proof fn lemma_nothing_pruned(entries: Seq<EntryView>, matches: Seq<MatchView>, dir: Seq<char>)
    requires
        matches.len() == 0,
    ensures
        kept_names(entries, matches, dir) == names_of(entries, FileKind::Dir),
    decreases entries.len(),
{
    if entries.len() > 0 {
        lemma_nothing_pruned(entries.drop_last(), matches, dir);
    }
}

/// How many directories a walk visits between two heartbeats.
pub const HEARTBEAT: u64 = 128;

/// The totals after a directory was entered.
pub open spec fn entered(totals: (int, int, int)) -> (int, int, int) {
    (totals.0 + 1, totals.1, totals.2)
}

/// There is a heartbeat after so many directories.
pub open spec fn beats(dirs: u64) -> bool {
    dirs % HEARTBEAT == 0
}

impl ScanTotals {
    /// The directories, files and candidates seen.
    pub open spec fn counts(self) -> (int, int, int) {
        (self.dirs as int, self.files as int, self.candidates as int)
    }

    /// Nothing seen yet.
    pub fn new() -> (r: Self)
        ensures
            r == (ScanTotals { dirs: 0, files: 0, candidates: 0 }),
    {
        ScanTotals { dirs: 0, files: 0, candidates: 0 }
    }

    /// Counts a directory as the walk enters it. Every so many directories
    /// there is a heartbeat, with what has been seen so far.
    pub fn enter(&mut self) -> (r: Option<ScanEvent>)
        requires
            old(self).dirs < u64::MAX,
        ensures
            *final(self) == (ScanTotals { dirs: (old(self).dirs + 1) as u64, ..*old(self) }),
            r is Some <==> final(self).dirs % HEARTBEAT == 0,
            r is Some <==> beats(final(self).dirs),
            final(self).counts() == entered(old(self).counts()),
            r matches Some(event) ==> event == (ScanEvent::Progress {
                dirs: final(self).dirs,
                files: final(self).files,
            }),
    {
        self.dirs = self.dirs + 1;
        if self.dirs % HEARTBEAT == 0 {
            Some(ScanEvent::Progress { dirs: self.dirs, files: self.files })
        } else {
            None
        }
    }

    /// Counts what a visit found.
    pub fn record(&mut self, visit: &Visit)
        requires
            old(self).files + visit.files <= u64::MAX,
            old(self).candidates + visit.discovered@.len() <= u64::MAX,
        ensures
            final(self).counts() == recorded(old(self).counts(), visit@),
    {
        self.files = self.files + visit.files;
        self.candidates = self.candidates + visit.discovered.len() as u64;
    }
}

/// The totals after a visit was recorded.
pub open spec fn recorded(totals: (int, int, int), visit: VisitView) -> (int, int, int) {
    (totals.0, totals.1 + visit.files, totals.2 + visit.discovered.len())
}

/// The order in which visits are recorded does not matter: directories can be
/// visited in parallel.
pub proof fn visits_commute(totals: (int, int, int), a: VisitView, b: VisitView)
    ensures
        recorded(recorded(totals, a), b) == recorded(recorded(totals, b), a),
{
}

} // verus!
