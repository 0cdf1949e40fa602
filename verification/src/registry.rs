//! Detection is data: the embedded ruleset, parsed not validated. An unknown
//! `safety` or `kind` is a load error, never a silent skip. Three detector
//! shapes exist; nearly all rows are pure sibling-marker data.

use crate::model::{Candidate, CandidateView, DetectorId, EcosystemId, SafetyClass, SafetyView};
use crate::paths::{
    equal_paths, join, normal, path_components, path_join, plain_base, plain_name, same_path,
};
use crate::rules::RULES;
use crate::text::{
    chars_of, clone_text_option, debug_quoted, debug_text, decimal, decimal_text, ends_with,
    holds_text, lemma_views_empty, lemma_views_push, same_text, str_views, text_ends_with, text_of,
    text_option, views,
};
use toml::Value;
use vstd::prelude::*;
use vstd::string::*;

verus! {

/// How a sibling marker matches: an exact file name, or `*.ext`.
#[derive(Debug, PartialEq, Eq)]
pub enum Marker {
    Exact(String),
    /// ".csproj" matches any *.csproj in the listing.
    Extension(String),
}

/// The view of a [`Marker`].
pub enum MarkerView {
    Exact(Seq<char>),
    Extension(Seq<char>),
}

impl View for Marker {
    type V = MarkerView;

    open spec fn view(&self) -> MarkerView {
        match *self {
            Marker::Exact(name) => MarkerView::Exact(name@),
            Marker::Extension(ext) => MarkerView::Extension(ext@),
        }
    }
}

/// A marker as a row writes it: a leading `*` makes it an ending.
pub open spec fn parsed_marker(s: Seq<char>) -> MarkerView {
    if s.len() > 0 && s[0] == '*' {
        MarkerView::Extension(s.skip(1))
    } else {
        MarkerView::Exact(s)
    }
}

/// Some entry of the list ends with `ext`.
pub open spec fn some_ends_with(names: Seq<Seq<char>>, ext: Seq<char>) -> bool {
    exists|i: int| 0 <= i < names.len() && text_ends_with(#[trigger] names[i], ext)
}

/// A marker is a sibling entry of that name, file or directory: bundle markers
/// like *.xcodeproj are directories.
pub open spec fn marker_hits(
    marker: MarkerView,
    files: Seq<Seq<char>>,
    dirs: Seq<Seq<char>>,
) -> bool {
    match marker {
        MarkerView::Exact(name) => files.contains(name) || dirs.contains(name),
        MarkerView::Extension(ext) => some_ends_with(files, ext) || some_ends_with(dirs, ext),
    }
}

fn any_ends_with(names: &[&str], ext: &str) -> (r: bool)
    ensures
        r == some_ends_with(str_views(names@), ext@),
{
    let ghost all = str_views(names@);
    let mut i: usize = 0;
    while i < names.len()
        invariant
            i <= names@.len(),
            all == str_views(names@),
            forall|j: int| 0 <= j < i ==> !text_ends_with(#[trigger] all[j], ext@),
        decreases names@.len() - i,
    {
        if ends_with(names[i], ext) {
            assert(text_ends_with(all[i as int], ext@));
            return true;
        }
        i += 1;
    }
    false
}

impl Marker {
    /// Reads a marker as a row writes it.
    pub fn parse(s: &str) -> (r: Self)
        ensures
            r@ == parsed_marker(s@),
    {
        let chars = chars_of(s);
        if chars.len() > 0 && chars[0] == '*' {
            let rest = &chars[1..chars.len()];
            assert(rest@ =~= s@.skip(1));
            Marker::Extension(text_of(rest))
        } else {
            Marker::Exact(s.to_owned())
        }
    }

    /// Whether a sibling entry, file or directory, matches.
    pub fn hits(&self, files: &[&str], dirs: &[&str]) -> (r: bool)
        ensures
            r == marker_hits(self@, str_views(files@), str_views(dirs@)),
    {
        match self {
            Marker::Exact(name) => holds_text(files, name.as_str()) || holds_text(
                dirs,
                name.as_str(),
            ),
            Marker::Extension(ext) => any_ends_with(files, ext.as_str()) || any_ends_with(
                dirs,
                ext.as_str(),
            ),
        }
    }
}

/// What a detector claims.
#[derive(Debug, PartialEq, Eq)]
pub enum DetectorKind {
    /// Reclaim a child directory with this name, gated on a sibling marker
    /// when one is declared (`None`: the name alone is unambiguous, e.g.
    /// `__pycache__`).
    SiblingMarker { reclaim_dir: String, marker: Option<Marker> },
    /// The listed directory itself is a linked git worktree (`.git` file
    /// present; a `.git` directory is someone's main checkout, never a
    /// candidate).
    GitWorktreeSelf,
    /// The listed directory declares itself a cache (CACHEDIR.TAG present):
    /// the Cache Directory Tagging Standard catch-all.
    CachedirTag,
}

/// The view of a [`DetectorKind`].
pub enum KindView {
    SiblingMarker { reclaim_dir: Seq<char>, marker: Option<MarkerView> },
    GitWorktreeSelf,
    CachedirTag,
}

impl View for DetectorKind {
    type V = KindView;

    open spec fn view(&self) -> KindView {
        match *self {
            DetectorKind::SiblingMarker { reclaim_dir, marker } => KindView::SiblingMarker {
                reclaim_dir: reclaim_dir@,
                marker: match marker {
                    Some(m) => Some(m@),
                    None => None,
                },
            },
            DetectorKind::GitWorktreeSelf => KindView::GitWorktreeSelf,
            DetectorKind::CachedirTag => KindView::CachedirTag,
        }
    }
}

/// One row of the ruleset.
#[derive(Debug)]
pub struct Detector {
    pub id: String,
    pub ecosystem: String,
    pub kind: DetectorKind,
    pub safety: SafetyClass,
}

/// The view of a [`Detector`].
pub struct DetectorView {
    pub id: Seq<char>,
    pub ecosystem: Seq<char>,
    pub kind: KindView,
    pub safety: SafetyView,
}

impl View for Detector {
    type V = DetectorView;

    open spec fn view(&self) -> DetectorView {
        DetectorView {
            id: self.id@,
            ecosystem: self.ecosystem@,
            kind: self.kind@,
            safety: self.safety@,
        }
    }
}

impl Clone for Marker {
    fn clone(&self) -> (r: Self)
        ensures
            r@ == self@,
    {
        match self {
            Marker::Exact(name) => Marker::Exact(name.clone()),
            Marker::Extension(ext) => Marker::Extension(ext.clone()),
        }
    }
}

impl Clone for DetectorKind {
    fn clone(&self) -> (r: Self)
        ensures
            r@ == self@,
    {
        match self {
            DetectorKind::SiblingMarker { reclaim_dir, marker } => DetectorKind::SiblingMarker {
                reclaim_dir: reclaim_dir.clone(),
                marker: match marker {
                    Some(marker) => Some(marker.clone()),
                    None => None,
                },
            },
            DetectorKind::GitWorktreeSelf => DetectorKind::GitWorktreeSelf,
            DetectorKind::CachedirTag => DetectorKind::CachedirTag,
        }
    }
}

impl Clone for Detector {
    fn clone(&self) -> (r: Self)
        ensures
            r@ == self@,
    {
        Detector {
            id: self.id.clone(),
            ecosystem: self.ecosystem.clone(),
            kind: self.kind.clone(),
            safety: self.safety.clone(),
        }
    }
}

/// One match: the candidate plus whether the walker must prune. Reclaim
/// subdirectories and self-declared caches prune; a worktree candidate does
/// not (its inner bloat stays independently reapable).
#[derive(Debug)]
pub struct Match {
    pub candidate: Candidate,
    pub prune: bool,
}

/// The view of a [`Match`].
pub struct MatchView {
    pub candidate: CandidateView,
    pub prune: bool,
}

impl View for Match {
    type V = MatchView;

    open spec fn view(&self) -> MatchView {
        MatchView { candidate: self.candidate@, prune: self.prune }
    }
}

/// A ruleset that does not load.
#[derive(Debug, PartialEq, Eq)]
pub struct RulesetError(pub String);

impl RulesetError {
    /// The error as it is shown.
    pub fn message(&self) -> (r: String)
        ensures
            r@ == "ruleset error: "@ + self.0@,
    {
        let mut out = "ruleset error: ".to_owned();
        out.append(self.0.as_str());
        out
    }
}

/// The active rows, in order of precedence.
#[derive(Debug)]
pub struct Registry {
    detectors: Vec<Detector>,
}

impl View for Registry {
    type V = Seq<DetectorView>;

    closed spec fn view(&self) -> Seq<DetectorView> {
        views(self.detectors@)
    }
}

/// The candidate that a row makes of a directory.
pub open spec fn candidate_of(d: DetectorView, path: Seq<char>) -> CandidateView {
    CandidateView { path, ecosystem: d.ecosystem, detector: d.id, safety_class: d.safety }
}

/// What one row claims in a directory with these entries.
pub open spec fn claim_of(
    d: DetectorView,
    dir: Seq<char>,
    files: Seq<Seq<char>>,
    dirs: Seq<Seq<char>>,
) -> Option<MatchView> {
    match d.kind {
        KindView::SiblingMarker { reclaim_dir, marker } => {
            if dirs.contains(reclaim_dir) && (marker matches Some(m) ==> marker_hits(
                m,
                files,
                dirs,
            )) {
                Some(
                    MatchView {
                        candidate: candidate_of(d, path_join(dir, reclaim_dir)),
                        prune: true,
                    },
                )
            } else {
                None
            }
        },
        KindView::GitWorktreeSelf => if files.contains(".git"@) {
            Some(MatchView { candidate: candidate_of(d, dir), prune: false })
        } else {
            None
        },
        KindView::CachedirTag => if files.contains("CACHEDIR.TAG"@) {
            Some(MatchView { candidate: candidate_of(d, dir), prune: true })
        } else {
            None
        },
    }
}

/// Some match has claimed this path.
pub open spec fn claimed(matches: Seq<MatchView>, path: Seq<char>) -> bool {
    exists|i: int|
        0 <= i < matches.len() && same_path((#[trigger] matches[i]).candidate.path, path)
}

/// What the rows claim in a directory with these entries, in ruleset order:
/// what a row claims counts unless an earlier row has claimed the path.
pub open spec fn claims(
    rows: Seq<DetectorView>,
    dir: Seq<char>,
    files: Seq<Seq<char>>,
    dirs: Seq<Seq<char>>,
) -> Seq<MatchView>
    decreases rows.len(),
{
    if rows.len() == 0 {
        seq![]
    } else {
        let earlier = claims(rows.drop_last(), dir, files, dirs);
        match claim_of(rows.last(), dir, files, dirs) {
            Some(m) => if claimed(earlier, m.candidate.path) {
                earlier
            } else {
                earlier.push(m)
            },
            None => earlier,
        }
    }
}

/// The name of a claimed subdirectory, where a row claims one.
pub open spec fn reclaimed_name(
    d: DetectorView,
    files: Seq<Seq<char>>,
    dirs: Seq<Seq<char>>,
) -> Option<Seq<char>> {
    match d.kind {
        KindView::SiblingMarker { reclaim_dir, marker } => if dirs.contains(reclaim_dir) && (
        marker matches Some(m) ==> marker_hits(m, files, dirs)) {
            Some(reclaim_dir)
        } else {
            None
        },
        _ => None,
    }
}

impl Registry {
    /// A registry that matches nothing.
    pub fn empty() -> (r: Self)
        ensures
            r@ == Seq::<DetectorView>::empty(),
    {
        let r = Registry { detectors: Vec::new() };
        assert(r@ =~= Seq::<DetectorView>::empty());
        r
    }

    /// The active rows, for an audit.
    pub fn detectors(&self) -> (r: &[Detector])
        ensures
            views(r@) == self@,
    {
        self.detectors.as_slice()
    }

    fn candidate(d: &Detector, path: String) -> (r: Candidate)
        ensures
            r@ == candidate_of(d@, path@),
    {
        Candidate {
            path,
            ecosystem: EcosystemId(d.ecosystem.clone()),
            detector: DetectorId(d.id.clone()),
            safety_class: d.safety.clone(),
        }
    }

    /// What one row claims. The path of a claimed subdirectory ends in its
    /// name.
    fn claim(d: &Detector, dir: &str, files: &[&str], dirs: &[&str]) -> (r: Option<Match>)
        ensures
            r is Some <==> claim_of(d@, dir@, str_views(files@), str_views(dirs@)) is Some,
            r matches Some(m) ==> claim_of(d@, dir@, str_views(files@), str_views(dirs@)) == Some(
                m@,
            ),
            ends_in_name(d@, dir@, str_views(files@), str_views(dirs@)),
    {
        match &d.kind {
            DetectorKind::SiblingMarker { reclaim_dir, marker } => {
                let marked = match marker {
                    Some(marker) => marker.hits(files, dirs),
                    None => true,
                };
                if marked && holds_text(dirs, reclaim_dir.as_str()) {
                    let path = join(dir, reclaim_dir.as_str());
                    Some(Match { candidate: Self::candidate(d, path), prune: true })
                } else {
                    None
                }
            },
            DetectorKind::GitWorktreeSelf => {
                if holds_text(files, ".git") {
                    Some(Match { candidate: Self::candidate(d, dir.to_owned()), prune: false })
                } else {
                    None
                }
            },
            DetectorKind::CachedirTag => {
                if holds_text(files, "CACHEDIR.TAG") {
                    Some(Match { candidate: Self::candidate(d, dir.to_owned()), prune: true })
                } else {
                    None
                }
            },
        }
    }

    fn is_claimed(matches: &Vec<Match>, path: &str) -> (r: bool)
        ensures
            r == claimed(views(matches@), path@),
    {
        let ghost all = views(matches@);
        let mut i: usize = 0;
        while i < matches.len()
            invariant
                i <= matches@.len(),
                all == views(matches@),
                forall|j: int|
                    0 <= j < i ==> !same_path((#[trigger] all[j]).candidate.path, path@),
            decreases matches@.len() - i,
        {
            if equal_paths(matches[i].candidate.path.as_str(), path) {
                assert(same_path(all[i as int].candidate.path, path@));
                return true;
            }
            i += 1;
        }
        false
    }

    /// Matches against one directory's listing, split by entry kind. Ruleset
    /// order is precedence: the first match per path wins. The path of a
    /// claimed subdirectory ends in its name.
    pub fn match_listing(&self, dir: &str, files: &[&str], dirs: &[&str]) -> (r: Vec<Match>)
        ensures
            views(r@) == claims(self@, dir@, str_views(files@), str_views(dirs@)),
            claims_end_in_names(self@, dir@, str_views(files@), str_views(dirs@)),
    {
        let ghost rows = self@;
        let ghost f = str_views(files@);
        let ghost s = str_views(dirs@);
        let mut out: Vec<Match> = Vec::new();
        assert(views(out@) =~= claims(rows.take(0), dir@, f, s));
        let mut i: usize = 0;
        while i < self.detectors.len()
            invariant
                i <= self.detectors@.len(),
                rows == self@,
                f == str_views(files@),
                s == str_views(dirs@),
                views(out@) == claims(rows.take(i as int), dir@, f, s),
                forall|k: int|
                    0 <= k < i ==> ends_in_name(#[trigger] rows[k], dir@, f, s),
            decreases self.detectors@.len() - i,
        {
            broadcast use lemma_views_push;

            let claim = Self::claim(&self.detectors[i], dir, files, dirs);
            proof {
                assert(rows[i as int] == self.detectors@[i as int]@);
                assert(rows.take(i + 1).drop_last() =~= rows.take(i as int));
                assert(rows.take(i + 1).last() == rows[i as int]);
            }
            if let Some(m) = claim {
                if !Self::is_claimed(&out, m.candidate.path.as_str()) {
                    out.push(m);
                }
            }
            i += 1;
        }
        assert(rows.take(rows.len() as int) =~= rows);
        out
    }
}

/// If the row claims a subdirectory, the claimed path is that of the directory
/// with the name as one more component.
pub open spec fn ends_in_name(
    d: DetectorView,
    dir: Seq<char>,
    files: Seq<Seq<char>>,
    dirs: Seq<Seq<char>>,
) -> bool {
    reclaimed_name(d, files, dirs) matches Some(name) ==> (plain_base(dir) && plain_name(name)
        ==> path_components(path_join(dir, name)) == path_components(dir).push((normal(), name)))
}

/// Every claimed subdirectory's path ends in its name.
pub open spec fn claims_end_in_names(
    rows: Seq<DetectorView>,
    dir: Seq<char>,
    files: Seq<Seq<char>>,
    dirs: Seq<Seq<char>>,
) -> bool {
    forall|k: int| 0 <= k < rows.len() ==> ends_in_name(#[trigger] rows[k], dir, files, dirs)
}

/// A row of a ruleset, as it is read: what is no text is `None`.
#[derive(Debug, PartialEq, Eq)]
pub enum RowRead {
    /// A table: its names, with their values.
    Table(Vec<(String, Option<String>)>),
    /// An array: its items.
    Array(Vec<Option<String>>),
    Other,
}

/// The view of a [`RowRead`].
pub enum RowReadView {
    Table(Seq<(Seq<char>, Option<Seq<char>>)>),
    Array(Seq<Option<Seq<char>>>),
    Other,
}

/// A table of texts, as characters.
pub open spec fn pair_views(row: Seq<(String, Option<String>)>) -> Seq<
    (Seq<char>, Option<Seq<char>>),
> {
    Seq::new(row.len(), |i: int| (row[i].0@, text_option(row[i].1)))
}

/// An array of texts, as characters.
pub open spec fn text_views(items: Seq<Option<String>>) -> Seq<Option<Seq<char>>> {
    Seq::new(items.len(), |i: int| text_option(items[i]))
}

impl View for RowRead {
    type V = RowReadView;

    open spec fn view(&self) -> RowReadView {
        match *self {
            RowRead::Table(row) => RowReadView::Table(pair_views(row@)),
            RowRead::Array(items) => RowReadView::Array(text_views(items@)),
            RowRead::Other => RowReadView::Other,
        }
    }
}

/// What stands under `key` in a TOML text: the items of an array, `Some(None)` for
/// anything else, and `None` where there is no such key; or why the text cannot be
/// read. As `toml::from_str` reads the text into a table, whose names are in order.
pub uninterp spec fn toml_rows(text: Seq<char>, key: Seq<char>) -> Result<
    Option<Option<Seq<RowReadView>>>,
    Seq<char>,
>;

/// What [`read_rows`] returns, by views.
pub open spec fn rows_result(r: Result<Option<Option<Vec<RowRead>>>, String>) -> Result<
    Option<Option<Seq<RowReadView>>>,
    Seq<char>,
> {
    match r {
        Ok(Some(Some(rows))) => Ok(Some(Some(views(rows@)))),
        Ok(Some(None)) => Ok(Some(None)),
        Ok(None) => Ok(None),
        Err(e) => Err(e@),
    }
}

/// `toml::from_str` into a table, of which `toml::Table::get` takes the value under
/// `key`; or the text of the error. What the value and its parts are, `as_array`,
/// `as_table` and `as_str` of `toml::Value` say.
#[verifier::external_body]
fn read_rows(text: &str, key: &str) -> (r: Result<Option<Option<Vec<RowRead>>>, String>)
    ensures
        rows_result(r) == toml_rows(text@, key@),
{
    let file: toml::Table = toml::from_str(text).map_err(|e| e.to_string())?;
    let field = |v: &Value| v.as_str().map(String::from);
    let row = |v: &Value| match (v.as_table(), v.as_array()) {
        (Some(t), _) => RowRead::Table(t.iter().map(|(n, v)| (n.clone(), field(v))).collect()),
        (_, Some(a)) => RowRead::Array(a.iter().map(field).collect()),
        _ => RowRead::Other,
    };
    Ok(file.get(key).map(|v| v.as_array().map(|rows| rows.iter().map(row).collect())))
}

/// How the error for an unknown name goes on.
pub const UNKNOWN_FIELD: &'static str =
    "`, expected one of `id`, `ecosystem`, `kind`, `reclaim_dir`, `marker`, `safety`, `regenerate`";

/// How the error for an array that is too short goes on.
pub const SHORT_ROW: &'static str = ", expected struct DetectorRow with 7 elements";

/// The ruleset row: parsed into a typed [`Detector`] or rejected loudly.
struct DetectorRow {
    id: String,
    ecosystem: String,
    kind: Option<String>,
    reclaim_dir: Option<String>,
    marker: Option<String>,
    safety: String,
    regenerate: Option<String>,
}

/// A ruleset row.
pub struct RowView {
    pub id: Seq<char>,
    pub ecosystem: Seq<char>,
    pub kind: Option<Seq<char>>,
    pub reclaim_dir: Option<Seq<char>>,
    pub marker: Option<Seq<char>>,
    pub safety: Seq<char>,
    pub regenerate: Option<Seq<char>>,
}

impl View for DetectorRow {
    type V = RowView;

    closed spec fn view(&self) -> RowView {
        RowView {
            id: self.id@,
            ecosystem: self.ecosystem@,
            kind: text_option(self.kind),
            reclaim_dir: text_option(self.reclaim_dir),
            marker: text_option(self.marker),
            safety: self.safety@,
            regenerate: text_option(self.regenerate),
        }
    }
}

/// What a table has under a name, where it is a text.
pub open spec fn row_field(row: Seq<(Seq<char>, Option<Seq<char>>)>, name: Seq<char>) -> Option<
    Seq<char>,
>
    decreases row.len(),
{
    if row.len() == 0 {
        None
    } else if row[0].0 == name {
        row[0].1
    } else {
        row_field(row.skip(1), name)
    }
}

/// The first name of a table under which it has no text.
pub open spec fn no_text(row: Seq<(Seq<char>, Option<Seq<char>>)>) -> Option<Seq<char>>
    decreases row.len(),
{
    if row.len() == 0 {
        None
    } else if row[0].1 is None {
        Some(row[0].0)
    } else {
        no_text(row.skip(1))
    }
}

/// A name that a row may have.
pub open spec fn known_field(name: Seq<char>) -> bool {
    ||| name == "id"@
    ||| name == "ecosystem"@
    ||| name == "kind"@
    ||| name == "reclaim_dir"@
    ||| name == "marker"@
    ||| name == "safety"@
    ||| name == "regenerate"@
}

/// The first name of a row that it may not have.
pub open spec fn unknown_field(row: Seq<(Seq<char>, Option<Seq<char>>)>) -> Option<Seq<char>>
    decreases row.len(),
{
    if row.len() == 0 {
        None
    } else if !known_field(row[0].0) {
        Some(row[0].0)
    } else {
        unknown_field(row.skip(1))
    }
}

/// A table as a row: names that a row may not have, values that are no texts, and
/// missing names that it must have, are errors.
pub open spec fn table_row(row: Seq<(Seq<char>, Option<Seq<char>>)>) -> Result<
    RowView,
    Seq<char>,
> {
    match (
        unknown_field(row),
        no_text(row),
        row_field(row, "id"@),
        row_field(row, "ecosystem"@),
        row_field(row, "safety"@),
    ) {
        (Some(name), _, _, _, _) => Err("unknown field `"@ + name + UNKNOWN_FIELD@),
        (None, Some(name), _, _, _) => Err("invalid type: `"@ + name + "`, expected a string"@),
        (None, None, None, _, _) => Err("missing field `id`"@),
        (None, None, Some(_), None, _) => Err("missing field `ecosystem`"@),
        (None, None, Some(_), Some(_), None) => Err("missing field `safety`"@),
        (None, None, Some(id), Some(ecosystem), Some(safety)) => Ok(
            RowView {
                id,
                ecosystem,
                kind: row_field(row, "kind"@),
                reclaim_dir: row_field(row, "reclaim_dir"@),
                marker: row_field(row, "marker"@),
                safety,
                regenerate: row_field(row, "regenerate"@),
            },
        ),
    }
}

/// An array as a row: all that a row has, in order. What comes after it does not
/// matter.
pub open spec fn array_row(items: Seq<Option<Seq<char>>>) -> Result<RowView, Seq<char>> {
    if items.len() < 7 {
        Err("invalid length "@ + decimal_text(items.len()) + SHORT_ROW@)
    } else if exists|i: int| 0 <= i < 7 && (#[trigger] items[i]) is None {
        Err("invalid type, expected a string"@)
    } else {
        Ok(
            RowView {
                id: items[0]->0,
                ecosystem: items[1]->0,
                kind: items[2],
                reclaim_dir: items[3],
                marker: items[4],
                safety: items[5]->0,
                regenerate: items[6],
            },
        )
    }
}

/// What is read as a row: a table or an array.
pub open spec fn row_of(row: RowReadView) -> Result<RowView, Seq<char>> {
    match row {
        RowReadView::Table(fields) => table_row(fields),
        RowReadView::Array(items) => array_row(items),
        RowReadView::Other => Err("invalid type, expected struct DetectorRow"@),
    }
}

/// The safety class that a row states.
pub open spec fn row_safety(row: RowView) -> Result<SafetyView, Seq<char>> {
    if row.safety == "regenerable"@ {
        Ok(SafetyView::Regenerable { regenerate_hint: row.regenerate })
    } else if row.safety == "git_worktree"@ {
        Ok(SafetyView::GitWorktree)
    } else if row.safety == "package_cache"@ {
        Ok(SafetyView::PackageCache)
    } else {
        Err("detector "@ + row.id + ": unknown safety "@ + debug_text(row.safety))
    }
}

/// What a row claims.
pub open spec fn row_kind(row: RowView) -> Result<KindView, Seq<char>> {
    match row.kind {
        None => match row.reclaim_dir {
            Some(reclaim_dir) => Ok(
                KindView::SiblingMarker {
                    reclaim_dir,
                    marker: match row.marker {
                        Some(marker) => Some(parsed_marker(marker)),
                        None => None,
                    },
                },
            ),
            None => Err("detector "@ + row.id + ": reclaim_dir required"@),
        },
        Some(kind) => if kind == "git_worktree"@ {
            Ok(KindView::GitWorktreeSelf)
        } else if kind == "cachedir_tag"@ {
            Ok(KindView::CachedirTag)
        } else {
            Err("detector "@ + row.id + ": unknown kind "@ + debug_text(kind))
        },
    }
}

/// The detector that a row describes.
pub open spec fn detector_of(row: RowView) -> Result<DetectorView, Seq<char>> {
    match (row_safety(row), row_kind(row)) {
        (Err(e), _) => Err(e),
        (Ok(_), Err(e)) => Err(e),
        (Ok(safety), Ok(kind)) => Ok(
            DetectorView { id: row.id, ecosystem: row.ecosystem, kind, safety },
        ),
    }
}

/// The first `n` as rows, or the error of the first that is none.
pub open spec fn rows_of(read: Seq<RowReadView>, n: int) -> Result<
    Seq<RowView>,
    Seq<char>,
>
    decreases n,
{
    if n <= 0 {
        Ok(seq![])
    } else {
        match rows_of(read, n - 1) {
            Err(e) => Err(e),
            Ok(rows) => match row_of(read[n - 1]) {
                Err(e) => Err(e),
                Ok(row) => Ok(rows.push(row)),
            },
        }
    }
}

/// The detectors that the first `n` rows describe, or the error of the first
/// that describes none.
pub open spec fn detectors_of(rows: Seq<RowView>, n: int) -> Result<Seq<DetectorView>, Seq<char>>
    decreases n,
{
    if n <= 0 {
        Ok(seq![])
    } else {
        match detectors_of(rows, n - 1) {
            Err(e) => Err(e),
            Ok(detectors) => match detector_of(rows[n - 1]) {
                Err(e) => Err(e),
                Ok(d) => Ok(detectors.push(d)),
            },
        }
    }
}

/// The ruleset that these describe. Every one must be a row before any row is
/// read.
pub open spec fn ruleset_of(read: Seq<RowReadView>) -> Result<Seq<DetectorView>, Seq<char>> {
    match rows_of(read, read.len() as int) {
        Err(e) => Err(e),
        Ok(rows) => detectors_of(rows, rows.len() as int),
    }
}

/// The ruleset that a TOML text describes.
pub open spec fn parsed_ruleset(text: Seq<char>) -> Result<Seq<DetectorView>, Seq<char>> {
    match toml_rows(text, "detector"@) {
        Err(e) => Err(e),
        Ok(None) => Err("missing field `detector`"@),
        Ok(Some(None)) => Err("invalid type: `detector`, expected a sequence"@),
        Ok(Some(Some(read))) => ruleset_of(read),
    }
}

fn find_row_field(row: &Vec<(String, Option<String>)>, name: &str) -> (r: Option<String>)
    ensures
        text_option(r) == row_field(pair_views(row@), name@),
{
    let ghost all = pair_views(row@);
    assert(all.skip(0) =~= all);
    let mut i: usize = 0;
    while i < row.len()
        invariant
            i <= row@.len(),
            all == pair_views(row@),
            row_field(all, name@) == row_field(all.skip(i as int), name@),
        decreases row@.len() - i,
    {
        if same_text(row[i].0.as_str(), name) {
            return clone_text_option(&row[i].1);
        }
        assert(all.skip(i as int).skip(1) =~= all.skip(i + 1));
        i += 1;
    }
    None
}

fn is_known_field(name: &str) -> (r: bool)
    ensures
        r == known_field(name@),
{
    same_text(name, "id") || same_text(name, "ecosystem") || same_text(name, "kind") || same_text(
        name,
        "reclaim_dir",
    ) || same_text(name, "marker") || same_text(name, "safety") || same_text(name, "regenerate")
}

fn find_no_text(row: &Vec<(String, Option<String>)>) -> (r: Option<&String>)
    ensures
        r is Some <==> no_text(pair_views(row@)) is Some,
        r matches Some(name) ==> no_text(pair_views(row@)) == Some(name@),
{
    let ghost all = pair_views(row@);
    assert(all.skip(0) =~= all);
    let mut i: usize = 0;
    while i < row.len()
        invariant
            i <= row@.len(),
            all == pair_views(row@),
            no_text(all) == no_text(all.skip(i as int)),
        decreases row@.len() - i,
    {
        if row[i].1.is_none() {
            return Some(&row[i].0);
        }
        assert(all.skip(i as int).skip(1) =~= all.skip(i + 1));
        i += 1;
    }
    None
}

fn find_unknown_field(row: &Vec<(String, Option<String>)>) -> (r: Option<&String>)
    ensures
        r is Some <==> unknown_field(pair_views(row@)) is Some,
        r matches Some(name) ==> unknown_field(pair_views(row@)) == Some(name@),
{
    let ghost all = pair_views(row@);
    assert(all.skip(0) =~= all);
    let mut i: usize = 0;
    while i < row.len()
        invariant
            i <= row@.len(),
            all == pair_views(row@),
            unknown_field(all) == unknown_field(all.skip(i as int)),
        decreases row@.len() - i,
    {
        if !is_known_field(row[i].0.as_str()) {
            return Some(&row[i].0);
        }
        assert(all.skip(i as int).skip(1) =~= all.skip(i + 1));
        i += 1;
    }
    None
}

impl DetectorRow {
    fn from_table(row: &Vec<(String, Option<String>)>) -> (r: Result<Self, String>)
        ensures
            r matches Ok(d) ==> table_row(pair_views(row@)) == Ok::<RowView, Seq<char>>(d@),
            r matches Err(e) ==> table_row(pair_views(row@)) == Err::<RowView, Seq<char>>(e@),
    {
        if let Some(name) = find_unknown_field(row) {
            let mut e = "unknown field `".to_owned();
            e.append(name.as_str());
            e.append(UNKNOWN_FIELD);
            return Err(e);
        }
        if let Some(name) = find_no_text(row) {
            let mut e = "invalid type: `".to_owned();
            e.append(name.as_str());
            e.append("`, expected a string");
            return Err(e);
        }
        let id = match find_row_field(row, "id") {
            Some(id) => id,
            None => return Err("missing field `id`".to_owned()),
        };
        let ecosystem = match find_row_field(row, "ecosystem") {
            Some(ecosystem) => ecosystem,
            None => return Err("missing field `ecosystem`".to_owned()),
        };
        let safety = match find_row_field(row, "safety") {
            Some(safety) => safety,
            None => return Err("missing field `safety`".to_owned()),
        };
        Ok(
            DetectorRow {
                id,
                ecosystem,
                kind: find_row_field(row, "kind"),
                reclaim_dir: find_row_field(row, "reclaim_dir"),
                marker: find_row_field(row, "marker"),
                safety,
                regenerate: find_row_field(row, "regenerate"),
            },
        )
    }

    fn from_array(items: &Vec<Option<String>>) -> (r: Result<Self, String>)
        ensures
            r matches Ok(d) ==> array_row(text_views(items@)) == Ok::<RowView, Seq<char>>(d@),
            r matches Err(e) ==> array_row(text_views(items@)) == Err::<RowView, Seq<char>>(e@),
    {
        let ghost all = text_views(items@);
        if items.len() < 7 {
            let mut e = "invalid length ".to_owned();
            e.append(decimal(items.len() as u64).as_str());
            e.append(SHORT_ROW);
            return Err(e);
        }
        for i in 0..7usize
            invariant
                all == text_views(items@),
                items@.len() >= 7,
                forall|j: int| 0 <= j < i ==> (#[trigger] all[j]) is Some,
        {
            if items[i].is_none() {
                assert(all[i as int] is None);
                return Err("invalid type, expected a string".to_owned());
            }
        }
        match (&items[0], &items[1], &items[5]) {
            (Some(id), Some(ecosystem), Some(safety)) => Ok(
                DetectorRow {
                    id: id.clone(),
                    ecosystem: ecosystem.clone(),
                    kind: clone_text_option(&items[2]),
                    reclaim_dir: clone_text_option(&items[3]),
                    marker: clone_text_option(&items[4]),
                    safety: safety.clone(),
                    regenerate: clone_text_option(&items[6]),
                },
            ),
            _ => {
                assert(all[0] is Some && all[1] is Some && all[5] is Some);
                Err("invalid type, expected a string".to_owned())
            },
        }
    }

    fn from_read(row: &RowRead) -> (r: Result<Self, String>)
        ensures
            r matches Ok(d) ==> row_of(row@) == Ok::<RowView, Seq<char>>(d@),
            r matches Err(e) ==> row_of(row@) == Err::<RowView, Seq<char>>(e@),
    {
        match row {
            RowRead::Table(fields) => Self::from_table(fields),
            RowRead::Array(items) => Self::from_array(items),
            RowRead::Other => Err("invalid type, expected struct DetectorRow".to_owned()),
        }
    }

    fn safety_class(&self) -> (r: Result<SafetyClass, String>)
        ensures
            r matches Ok(class) ==> row_safety(self@) == Ok::<SafetyView, Seq<char>>(class@),
            r matches Err(e) ==> row_safety(self@) == Err::<SafetyView, Seq<char>>(e@),
    {
        let safety = self.safety.as_str();
        if same_text(safety, "regenerable") {
            Ok(SafetyClass::Regenerable { regenerate_hint: clone_text_option(&self.regenerate) })
        } else if same_text(safety, "git_worktree") {
            Ok(SafetyClass::GitWorktree)
        } else if same_text(safety, "package_cache") {
            Ok(SafetyClass::PackageCache)
        } else {
            let mut e = "detector ".to_owned();
            e.append(self.id.as_str());
            e.append(": unknown safety ");
            e.append(debug_quoted(safety).as_str());
            Err(e)
        }
    }

    fn detector_kind(&self) -> (r: Result<DetectorKind, String>)
        ensures
            r matches Ok(kind) ==> row_kind(self@) == Ok::<KindView, Seq<char>>(kind@),
            r matches Err(e) ==> row_kind(self@) == Err::<KindView, Seq<char>>(e@),
    {
        match &self.kind {
            None => match &self.reclaim_dir {
                Some(reclaim_dir) => {
                    let marker = match &self.marker {
                        Some(marker) => Some(Marker::parse(marker.as_str())),
                        None => None,
                    };
                    Ok(DetectorKind::SiblingMarker { reclaim_dir: reclaim_dir.clone(), marker })
                },
                None => {
                    let mut e = "detector ".to_owned();
                    e.append(self.id.as_str());
                    e.append(": reclaim_dir required");
                    Err(e)
                },
            },
            Some(kind) => {
                if same_text(kind.as_str(), "git_worktree") {
                    Ok(DetectorKind::GitWorktreeSelf)
                } else if same_text(kind.as_str(), "cachedir_tag") {
                    Ok(DetectorKind::CachedirTag)
                } else {
                    let mut e = "detector ".to_owned();
                    e.append(self.id.as_str());
                    e.append(": unknown kind ");
                    e.append(debug_quoted(kind.as_str()).as_str());
                    Err(e)
                }
            },
        }
    }

    fn detector(&self) -> (r: Result<Detector, String>)
        ensures
            r matches Ok(d) ==> detector_of(self@) == Ok::<DetectorView, Seq<char>>(d@),
            r matches Err(e) ==> detector_of(self@) == Err::<DetectorView, Seq<char>>(e@),
    {
        let safety = match self.safety_class() {
            Ok(safety) => safety,
            Err(e) => return Err(e),
        };
        let kind = match self.detector_kind() {
            Ok(kind) => kind,
            Err(e) => return Err(e),
        };
        Ok(Detector { id: self.id.clone(), ecosystem: self.ecosystem.clone(), kind, safety })
    }
}

/// An error among the first `m` rows stays the error of more rows.
proof fn lemma_rows_error(read: Seq<RowReadView>, m: int, n: int)
    requires
        m <= n,
        rows_of(read, m) is Err,
    ensures
        rows_of(read, n) == rows_of(read, m),
    decreases n - m,
{
    if m < n {
        lemma_rows_error(read, m, n - 1);
    }
}

/// An error among the first `m` detectors stays the error of more.
proof fn lemma_detectors_error(rows: Seq<RowView>, m: int, n: int)
    requires
        m <= n,
        detectors_of(rows, m) is Err,
    ensures
        detectors_of(rows, n) == detectors_of(rows, m),
    decreases n - m,
{
    if m < n {
        lemma_detectors_error(rows, m, n - 1);
    }
}

impl Registry {
    /// The registry that these rows describe.
    pub fn from_rows(read: &[RowRead]) -> (r: Result<Self, RulesetError>)
        ensures
            r matches Ok(reg) ==> ruleset_of(views(read@)) == Ok::<
                Seq<DetectorView>,
                Seq<char>,
            >(reg@),
            r matches Err(e) ==> ruleset_of(views(read@)) == Err::<
                Seq<DetectorView>,
                Seq<char>,
            >(e.0@),
    {
        broadcast use {lemma_views_push, lemma_views_empty};

        let ghost all = views(read@);
        let mut rows: Vec<DetectorRow> = Vec::new();
        let mut i: usize = 0;
        while i < read.len()
            invariant
                i <= read@.len(),
                all == views(read@),
                rows_of(all, i as int) == Ok::<Seq<RowView>, Seq<char>>(views(rows@)),
            decreases read@.len() - i,
        {
            broadcast use lemma_views_push;

            assert(all[i as int] == read@[i as int]@);
            match DetectorRow::from_read(&read[i]) {
                Ok(row) => rows.push(row),
                Err(e) => {
                    proof {
                        lemma_rows_error(all, i + 1, all.len() as int);
                    }
                    return Err(RulesetError(e));
                },
            }
            i += 1;
        }
        let ghost all_rows = views(rows@);
        let mut detectors: Vec<Detector> = Vec::new();
        let mut i: usize = 0;
        while i < rows.len()
            invariant
                i <= rows@.len(),
                all_rows == views(rows@),
                all == views(read@),
                rows_of(all, all.len() as int) == Ok::<Seq<RowView>, Seq<char>>(all_rows),
                detectors_of(all_rows, i as int) == Ok::<Seq<DetectorView>, Seq<char>>(
                    views(detectors@),
                ),
            decreases rows@.len() - i,
        {
            broadcast use lemma_views_push;

            assert(all_rows[i as int] == rows@[i as int]@);
            match rows[i].detector() {
                Ok(d) => detectors.push(d),
                Err(e) => {
                    proof {
                        lemma_detectors_error(all_rows, i + 1, all_rows.len() as int);
                    }
                    return Err(RulesetError(e));
                },
            }
            i += 1;
        }
        Ok(Registry { detectors })
    }

    /// The registry that a ruleset text describes.
    pub fn from_toml(text: &str) -> (r: Result<Self, RulesetError>)
        ensures
            r matches Ok(reg) ==> parsed_ruleset(text@) == Ok::<Seq<DetectorView>, Seq<char>>(reg@),
            r matches Err(e) ==> parsed_ruleset(text@) == Err::<Seq<DetectorView>, Seq<char>>(
                e.0@,
            ),
    {
        match read_rows(text, "detector") {
            Err(e) => Err(RulesetError(e)),
            Ok(None) => Err(RulesetError("missing field `detector`".to_owned())),
            Ok(Some(None)) => Err(
                RulesetError("invalid type: `detector`, expected a sequence".to_owned()),
            ),
            Ok(Some(Some(read))) => Self::from_rows(read.as_slice()),
        }
    }

    /// The embedded ruleset: compiled in, parsed at startup; a load error is
    /// fatal, never a silent skip.
    pub fn embedded() -> (r: Result<Self, RulesetError>)
        ensures
            r matches Ok(reg) ==> parsed_ruleset(RULES@) == Ok::<Seq<DetectorView>, Seq<char>>(
                reg@,
            ),
            r matches Err(e) ==> parsed_ruleset(RULES@) == Err::<Seq<DetectorView>, Seq<char>>(
                e.0@,
            ),
    {
        Self::from_toml(RULES)
    }
}

/// Row `k` is the first that claims the path that it claims.
pub open spec fn first_to_claim(
    rows: Seq<DetectorView>,
    k: int,
    dir: Seq<char>,
    files: Seq<Seq<char>>,
    dirs: Seq<Seq<char>>,
) -> bool {
    &&& 0 <= k < rows.len()
    &&& claim_of(rows[k], dir, files, dirs) matches Some(m)
    &&& forall|j: int|
        0 <= j < k ==> (claim_of(#[trigger] rows[j], dir, files, dirs) matches Some(earlier)
            ==> !same_path(earlier.candidate.path, m.candidate.path))
}

/// Ruleset order is precedence: the matches are what the first row to claim
/// each path claims, and nothing else.
pub proof fn first_match_wins(
    rows: Seq<DetectorView>,
    dir: Seq<char>,
    files: Seq<Seq<char>>,
    dirs: Seq<Seq<char>>,
)
    ensures
        forall|k: int| #[trigger]
            first_to_claim(rows, k, dir, files, dirs) ==> claims(rows, dir, files, dirs).contains(
                claim_of(rows[k], dir, files, dirs)->0,
            ),
        forall|i: int|
            0 <= i < claims(rows, dir, files, dirs).len() ==> exists|k: int| #[trigger]
                first_to_claim(rows, k, dir, files, dirs) && claim_of(rows[k], dir, files, dirs)
                    == Some(#[trigger] claims(rows, dir, files, dirs)[i]),
        forall|k: int|
            0 <= k < rows.len() ==> (claim_of(#[trigger] rows[k], dir, files, dirs) matches Some(m)
                ==> claimed(claims(rows, dir, files, dirs), m.candidate.path)),
    decreases rows.len(),
{
    if rows.len() > 0 {
        let before = rows.drop_last();
        let earlier = claims(before, dir, files, dirs);
        let all = claims(rows, dir, files, dirs);
        let n = rows.len() - 1;
        first_match_wins(before, dir, files, dirs);
        assert forall|i: int| 0 <= i < earlier.len() implies all[i] == earlier[i] by {}
        assert forall|k: int| 0 <= k < n implies #[trigger] rows[k] == before[k] by {}
        assert forall|k: int| 0 <= k < n implies (#[trigger] first_to_claim(
            rows,
            k,
            dir,
            files,
            dirs,
        ) <==> first_to_claim(before, k, dir, files, dirs)) by {
            assert(rows[k] == before[k]);
            if first_to_claim(rows, k, dir, files, dirs) {
                assert forall|j: int| 0 <= j < k implies (claim_of(
                    #[trigger] before[j],
                    dir,
                    files,
                    dirs,
                ) matches Some(m) ==> !same_path(
                    m.candidate.path,
                    claim_of(before[k], dir, files, dirs)->0.candidate.path,
                )) by {
                    assert(rows[j] == before[j]);
                }
            }
            if first_to_claim(before, k, dir, files, dirs) {
                assert forall|j: int| 0 <= j < k implies (claim_of(
                    #[trigger] rows[j],
                    dir,
                    files,
                    dirs,
                ) matches Some(m) ==> !same_path(
                    m.candidate.path,
                    claim_of(rows[k], dir, files, dirs)->0.candidate.path,
                )) by {
                    assert(rows[j] == before[j]);
                }
            }
        }
        assert forall|k: int| #[trigger] first_to_claim(rows, k, dir, files, dirs) implies all.contains(
            claim_of(rows[k], dir, files, dirs)->0,
        ) by {
            let m = claim_of(rows[k], dir, files, dirs)->0;
            if k < n {
                assert(first_to_claim(before, k, dir, files, dirs));
                assert(earlier.contains(m));
                let i = choose|i: int| 0 <= i < earlier.len() && earlier[i] == m;
                assert(all[i] == m);
            } else {
                if claimed(earlier, m.candidate.path) {
                    let i = choose|i: int|
                        0 <= i < earlier.len() && same_path(
                            (#[trigger] earlier[i]).candidate.path,
                            m.candidate.path,
                        );
                    let j = choose|j: int| #[trigger]
                        first_to_claim(before, j, dir, files, dirs) && claim_of(
                            before[j],
                            dir,
                            files,
                            dirs,
                        ) == Some(earlier[i]);
                    assert(rows[j] == before[j]);
                    assert(false);
                }
                assert(all[earlier.len() as int] == m);
            }
        }
        assert forall|i: int| 0 <= i < all.len() implies exists|k: int| #[trigger]
            first_to_claim(rows, k, dir, files, dirs) && claim_of(rows[k], dir, files, dirs) == Some(
                #[trigger] all[i],
            ) by {
            if i < earlier.len() {
                let k = choose|k: int| #[trigger]
                    first_to_claim(before, k, dir, files, dirs) && claim_of(
                        before[k],
                        dir,
                        files,
                        dirs,
                    ) == Some(earlier[i]);
                assert(rows[k] == before[k]);
                assert(first_to_claim(rows, k, dir, files, dirs));
            } else {
                let m = claim_of(rows[n], dir, files, dirs)->0;
                assert(all[i] == m);
                assert forall|j: int| 0 <= j < n implies (claim_of(
                    #[trigger] rows[j],
                    dir,
                    files,
                    dirs,
                ) matches Some(other) ==> !same_path(other.candidate.path, m.candidate.path)) by {
                    assert(rows[j] == before[j]);
                    if claim_of(rows[j], dir, files, dirs) is Some {
                        let other = claim_of(before[j], dir, files, dirs)->0;
                        assert(claimed(earlier, other.candidate.path));
                    }
                }
                assert(first_to_claim(rows, n, dir, files, dirs));
            }
        }
        assert forall|k: int| 0 <= k < rows.len() implies (claim_of(
            #[trigger] rows[k],
            dir,
            files,
            dirs,
        ) matches Some(m) ==> claimed(all, m.candidate.path)) by {
            if claim_of(rows[k], dir, files, dirs) is Some {
                let m = claim_of(rows[k], dir, files, dirs)->0;
                if k < n {
                    assert(rows[k] == before[k]);
                    assert(claimed(earlier, m.candidate.path));
                }
                if claimed(earlier, m.candidate.path) {
                    let i = choose|i: int|
                        0 <= i < earlier.len() && same_path(
                            (#[trigger] earlier[i]).candidate.path,
                            m.candidate.path,
                        );
                    assert(all[i] == earlier[i]);
                } else {
                    assert(all[earlier.len() as int] == m);
                }
            }
        }
    }
}

/// No path is claimed twice.
pub proof fn each_path_is_claimed_once(
    rows: Seq<DetectorView>,
    dir: Seq<char>,
    files: Seq<Seq<char>>,
    dirs: Seq<Seq<char>>,
)
    ensures
        forall|i: int, j: int|
            0 <= i < j < claims(rows, dir, files, dirs).len() ==> !same_path(
                (#[trigger] claims(rows, dir, files, dirs)[i]).candidate.path,
                (#[trigger] claims(rows, dir, files, dirs)[j]).candidate.path,
            ),
    decreases rows.len(),
{
    if rows.len() > 0 {
        each_path_is_claimed_once(rows.drop_last(), dir, files, dirs);
    }
}

/// A `.git` directory is someone's main checkout: where no file is named
/// `.git`, no row claims the listed directory as a worktree.
pub proof fn git_directory_is_no_worktree(
    d: DetectorView,
    dir: Seq<char>,
    files: Seq<Seq<char>>,
    dirs: Seq<Seq<char>>,
)
    requires
        d.kind is GitWorktreeSelf,
        !files.contains(".git"@),
    ensures
        claim_of(d, dir, files, dirs) is None,
{
}

/// A bad row is a load error, never a silent skip: a ruleset that loads has one
/// detector for each item, in order, and every item is a row that describes it.
pub proof fn no_row_is_skipped(read: Seq<RowReadView>)
    requires
        ruleset_of(read) is Ok,
    ensures
        ruleset_of(read)->Ok_0.len() == read.len(),
        forall|i: int|
            0 <= i < read.len() ==> (row_of(#[trigger] read[i]) matches Ok(row) && detector_of(
                row,
            ) == Ok::<DetectorView, Seq<char>>(ruleset_of(read)->Ok_0[i])),
{
    let n = read.len() as int;
    let rows = rows_of(read, n)->Ok_0;
    lemma_rows_loaded(read, n);
    lemma_detectors_loaded(rows, rows.len() as int);
}

proof fn lemma_rows_loaded(read: Seq<RowReadView>, n: int)
    requires
        0 <= n,
        rows_of(read, n) is Ok,
    ensures
        rows_of(read, n)->Ok_0.len() == n,
        forall|i: int|
            0 <= i < n ==> row_of(#[trigger] read[i]) == Ok::<RowView, Seq<char>>(
                rows_of(read, n)->Ok_0[i],
            ),
    decreases n,
{
    if n > 0 {
        lemma_rows_loaded(read, n - 1);
    }
}

proof fn lemma_detectors_loaded(rows: Seq<RowView>, n: int)
    requires
        0 <= n,
        detectors_of(rows, n) is Ok,
    ensures
        detectors_of(rows, n)->Ok_0.len() == n,
        forall|i: int|
            0 <= i < n ==> detector_of(#[trigger] rows[i]) == Ok::<DetectorView, Seq<char>>(
                detectors_of(rows, n)->Ok_0[i],
            ),
    decreases n,
{
    if n > 0 {
        lemma_detectors_loaded(rows, n - 1);
    }
}

} // verus!
