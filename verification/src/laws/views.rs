//! Views: what contracts speak of is all that a value holds.

use crate::browser::{Browser, Item, Mode, ModeView};
use crate::classify::verdict_reasons;
use crate::deleter::{
    ActionView, EventView, OutcomeView, StepAction, StepEvent, StepOutcome, StepRun,
};
use crate::dirread::Entry;
use crate::json::{
    field_views, item_views, member_views, FieldView, JsonField, JsonValue, ValueView,
};
use crate::manifest::{tomb_views, ManifestEvent, ManifestView};
use crate::members::name_views;
use crate::model::{
    Candidate, Disposition, Facts, GitFacts, HeadState, HeadView, LockState, LockView, ReasonView,
    RefusalReason, SafetyClass, SafetyView,
};
use crate::orchestrator::Visit;
use crate::parse::{RawLinuxEntry, RawMacEntry, RawWinEntry};
use crate::plan::{BoundStep, ReapStep, SealedPlan, StepView};
use crate::policy::Policy;
use crate::registry::{
    Detector, DetectorKind, KindView, Marker, MarkerView, Match, RowRead, RowReadView,
};
use crate::report::Row;
use crate::state::str_option;
use crate::table::tally_views;
use crate::text::{str_views, text_option, views};
use vstd::prelude::*;

verus! {

/// The views of a list are those of its items, in order; the text of an option is that of what it
/// holds.
pub proof fn lists_are_viewed_item_by_item<T: View>(s: Seq<T>, o: Option<String>, l: Seq<&str>)
    ensures
        views(s).len() == s.len(),
        forall|i: int| 0 <= i < s.len() ==> #[trigger] views(s)[i] == s[i]@,
        o is None ==> text_option(o) is None,
        o matches Some(t) ==> text_option(o) == Some(t@),
        str_views(l).len() == l.len(),
        forall|i: int| 0 <= i < l.len() ==> #[trigger] str_views(l)[i] == l[i]@,
{
}

/// A candidate is its path, its ecosystem, its rule and its class.
pub proof fn candidates_are_viewed(c: Candidate, s: SafetyClass)
    ensures
        c@.path == c.path@,
        c@.ecosystem == c.ecosystem.0@,
        c@.detector == c.detector.0@,
        c@.safety_class == c.safety_class@,
        s is GitWorktree <==> s@ is GitWorktree,
        s is PackageCache <==> s@ is PackageCache,
        s matches SafetyClass::Regenerable { regenerate_hint } ==> s@ == (SafetyView::Regenerable {
            regenerate_hint: text_option(regenerate_hint),
        }),
{
}

/// Facts are viewed one by one.
pub proof fn facts_are_viewed(f: Facts, g: GitFacts, l: LockState, h: HeadState)
    ensures
        f@.candidate == f.candidate@,
        f@.size_bytes == f.size_bytes,
        f@.idle_days == f.idle_days,
        f.live_pids is None ==> f@.live_pids is None,
        f.live_pids matches Some(pids) ==> f@.live_pids == Some(pids@),
        f@.active_build == f.active_build,
        f@.same_device == f.same_device,
        f@.cloud_backed == f.cloud_backed,
        f.git is None ==> f@.git is None,
        f.git matches Some(git) ==> f@.git == Some(git@),
        g@.dirty_entries == g.dirty_entries,
        g@.unpushed_commits == g.unpushed_commits,
        g.lock is None ==> g@.lock is None,
        g.lock matches Some(lock) ==> g@.lock == Some(lock@),
        g.head is None ==> g@.head is None,
        g.head matches Some(head) ==> g@.head == Some(head@),
        l is Unlocked ==> l@ is Unlocked,
        l matches LockState::Locked { note } ==> l@ == (LockView::Locked { note: text_option(note) }),
        h matches HeadState::Attached { branch } ==> h@ == (HeadView::Attached { branch: branch@ }),
        h matches HeadState::Detached { unreachable_commits } ==> h@ == (HeadView::Detached {
            unreachable_commits,
        }),
{
}

/// Reasons are viewed with what they hold, and a refusal with all of its reasons.
pub proof fn reasons_are_viewed(r: RefusalReason, d: Disposition)
    ensures
        r matches RefusalReason::Dirty { entries } ==> r@ == (ReasonView::Dirty { entries }),
        r matches RefusalReason::UnpushedCommits { count } ==> r@ == (ReasonView::UnpushedCommits {
            count,
        }),
        r matches RefusalReason::Locked { note } ==> r@ == (ReasonView::Locked {
            note: text_option(note),
        }),
        r matches RefusalReason::Detached { unreachable_commits } ==> r@ == (ReasonView::Detached {
            unreachable_commits,
        }),
        r matches RefusalReason::LiveProcess { pids } ==> r@ == (ReasonView::LiveProcess {
            pids: pids@,
        }),
        r matches RefusalReason::ActiveBuild { pids } ==> r@ == (ReasonView::ActiveBuild {
            pids: pids@,
        }),
        r is CrossDevice ==> r@ is CrossDevice,
        r is CloudBacked ==> r@ is CloudBacked,
        r matches RefusalReason::Protected { pattern } ==> r@ == (ReasonView::Protected {
            pattern: pattern@,
        }),
        r is CachesExcluded ==> r@ is CachesExcluded,
        r matches RefusalReason::TooRecent { idle_days, min_idle_days } ==> r@ == (
        ReasonView::TooRecent { idle_days, min_idle_days }),
        r matches RefusalReason::TooSmall { size_bytes, min_size_bytes } ==> r@ == (
        ReasonView::TooSmall { size_bytes, min_size_bytes }),
        r matches RefusalReason::Unknown { what } ==> r@ == (ReasonView::Unknown { what: what@ }),
        d is Reapable ==> verdict_reasons(d) is None,
        d matches Disposition::Refused { reasons } ==> verdict_reasons(d) == Some(views(reasons@)),
{
}

/// A policy is its dials and its protect list.
pub proof fn policies_are_viewed(p: Policy)
    ensures
        p@.min_idle == p.min_idle,
        p@.min_size_bytes == p.min_size_bytes,
        p@.include_caches == p.include_caches,
        p@.protect == p.protect@,
{
}

/// Rules, their claims, and what is read of them.
pub proof fn rules_are_viewed(d: Detector, k: DetectorKind, m: Marker, c: Match, r: RowRead)
    ensures
        d@.id == d.id@,
        d@.ecosystem == d.ecosystem@,
        d@.kind == d.kind@,
        d@.safety == d.safety@,
        k is GitWorktreeSelf ==> k@ is GitWorktreeSelf,
        k is CachedirTag ==> k@ is CachedirTag,
        k matches DetectorKind::SiblingMarker { reclaim_dir, marker: Some(marker) } ==> k@ == (
        KindView::SiblingMarker { reclaim_dir: reclaim_dir@, marker: Some(marker@) }),
        k matches DetectorKind::SiblingMarker { reclaim_dir, marker: None } ==> k@ == (
        KindView::SiblingMarker { reclaim_dir: reclaim_dir@, marker: None }),
        m matches Marker::Exact(name) ==> m@ == MarkerView::Exact(name@),
        m matches Marker::Extension(ext) ==> m@ == MarkerView::Extension(ext@),
        c@.candidate == c.candidate@,
        c@.prune == c.prune,
        r is Other ==> r@ is Other,
        r matches RowRead::Table(row) ==> r@ == RowReadView::Table(
            Seq::new(row@.len(), |i: int| (row@[i].0@, text_option(row@[i].1))),
        ),
        r matches RowRead::Array(items) ==> r@ == RowReadView::Array(
            Seq::new(items@.len(), |i: int| text_option(items@[i])),
        ),
{
}

/// Entries and visits.
pub proof fn entries_are_viewed(e: Entry, v: Visit)
    ensures
        e@.name == e.name@,
        e@.kind == e.kind,
        e@.len == e.len,
        e@.mtime == e.mtime,
        e@.ino == e.ino,
        e@.cloud == e.cloud,
        v@.discovered == views(v.discovered@),
        v@.descend == views(v.descend@),
        v@.files == v.files,
{
}

/// What kernels write.
pub proof fn records_are_viewed(l: RawLinuxEntry, m: RawMacEntry, w: RawWinEntry)
    ensures
        l@.ino == l.ino,
        l@.d_type == l.d_type,
        l@.name == l.name@,
        m@.name == m.name@,
        m@.objtype == m.objtype,
        m@.mtime_sec == m.mtime_sec,
        m@.mtime_nsec == m.mtime_nsec,
        m@.flags == m.flags,
        m@.file_id == m.file_id,
        m@.data_length == m.data_length,
        w@.name == w.name@,
        w@.attributes == w.attributes,
        w@.end_of_file == w.end_of_file,
        w@.last_write_time == w.last_write_time,
        w@.file_id == w.file_id,
{
}

/// Steps and plans.
pub proof fn plans_are_viewed(s: ReapStep, b: BoundStep, p: SealedPlan, r: Row)
    ensures
        s matches ReapStep::RemoveWorktree { path, branch } ==> s@ == (StepView::RemoveWorktree {
            path: path@,
            branch: text_option(branch),
        }),
        s matches ReapStep::DeleteDir { path, regenerate_hint } ==> s@ == (StepView::DeleteDir {
            path: path@,
            regenerate_hint: text_option(regenerate_hint),
        }),
        b@.step_json == b.step_json@,
        b@.identity == b.identity,
        b@.size_bytes == b.size_bytes,
        b@.recover == text_option(b.recover),
        p@.digest == p.digest@,
        p@.steps == views(p.steps@),
        r@.candidate == r.candidate@,
        r@.size_bytes == r.size_bytes,
        r@.idle_days == r.idle_days,
        r@.verdict == verdict_reasons(r.disposition),
{
}

/// What an execution writes and reports.
pub proof fn outcomes_are_viewed(o: StepOutcome, m: ManifestEvent)
    ensures
        o matches StepOutcome::Reaped { path, freed_bytes, recover } ==> o@ == (
        OutcomeView::Reaped { path: path@, freed_bytes, recover: text_option(recover) }),
        o matches StepOutcome::Refused { path, why } ==> o@ == (OutcomeView::Refused {
            path: path@,
            why: why@,
        }),
        o matches StepOutcome::Interrupted { path, tomb, why } ==> o@ == (OutcomeView::Interrupted {
            path: path@,
            tomb: tomb@,
            why: why@,
        }),
        m matches ManifestEvent::Planned { digest } ==> m@ == (ManifestView::Planned {
            digest: digest@,
        }),
        m matches ManifestEvent::Tombed { path, tomb, recover, size_bytes } ==> m@ == (
        ManifestView::Tombed {
            path: path@,
            tomb: tomb@,
            recover: text_option(recover),
            size_bytes,
        }),
        m matches ManifestEvent::Drained { tomb, freed_bytes } ==> m@ == (ManifestView::Drained {
            tomb: tomb@,
            freed_bytes,
        }),
        m matches ManifestEvent::Refused { path, why } ==> m@ == (ManifestView::Refused {
            path: path@,
            why: why@,
        }),
        m matches ManifestEvent::Interrupted { path, tomb, why } ==> m@ == (
        ManifestView::Interrupted { path: path@, tomb: tomb@, why: why@ }),
{
}

/// What a step is answered, and what it asks for.
pub proof fn events_are_viewed(e: StepEvent, a: StepAction, r: StepRun)
    ensures
        e matches StepEvent::Identity(id) ==> e@ == EventView::Identity(id),
        e matches StepEvent::Live(None) ==> e@ == EventView::Live(None),
        e matches StepEvent::Live(Some(pids)) ==> e@ == EventView::Live(Some(pids@)),
        e matches StepEvent::Admin(admin) ==> e@ == EventView::Admin(text_option(admin)),
        e matches StepEvent::Logged(error) ==> e@ == EventView::Logged(text_option(error)),
        e matches StepEvent::Renamed(None) ==> e@ == EventView::Renamed(None),
        e matches StepEvent::Renamed(Some(error)) ==> e@ == EventView::Renamed(
            Some((error.0, error.1@)),
        ),
        e matches StepEvent::Drained(error) ==> e@ == EventView::Drained(text_option(error)),
        a matches StepAction::ReadIdentity { path } ==> a@ == (ActionView::ReadIdentity {
            path: path@,
        }),
        a matches StepAction::SweepLive { path } ==> a@ == (ActionView::SweepLive { path: path@ }),
        a matches StepAction::FindAdmin { path } ==> a@ == (ActionView::FindAdmin { path: path@ }),
        a matches StepAction::WriteAhead { record } ==> a@ == (ActionView::WriteAhead {
            record: record@,
        }),
        a matches StepAction::Rename { path, tomb } ==> a@ == (ActionView::Rename {
            path: path@,
            tomb: tomb@,
        }),
        a matches StepAction::Drain { tomb } ==> a@ == (ActionView::Drain { tomb: tomb@ }),
        a matches StepAction::Finish { record, admin, outcome } ==> a@ == (ActionView::Finish {
            record: record@,
            admin: text_option(admin),
            outcome: outcome@,
        }),
        r@.step == r.step@,
        r@.identity == r.identity,
        r@.size_bytes == r.size_bytes,
        r@.recover == text_option(r.recover),
        r@.sweeps == r.sweeps,
        r@.tomb_name == r.tomb_name@,
        r@.tomb == r.tomb@,
        r@.admin == text_option(r.admin),
        r@.stage == r.stage,
{
}

/// The interactive browser.
pub proof fn browsers_are_viewed(b: Browser, i: Item, m: Mode)
    ensures
        b@.items == views(b.items@),
        b@.selected == b.selected,
        b@.mode == b.mode@,
        i@.facts == i.facts@,
        i@.verdict == verdict_reasons(i.disposition),
        i@.marked == i.marked,
        m is Browse ==> m@ is Browse,
        m matches Mode::Filter(s) ==> m@ == ModeView::Filter(s@),
        m matches Mode::Confirm(plan) ==> m@ == ModeView::Confirm(plan@),
        m matches Mode::Report(outcomes) ==> m@ == ModeView::Report(views(outcomes@)),
{
}

/// JSON values, written and read.
pub proof fn values_are_viewed(v: JsonValue<'_>, f: JsonField)
    ensures
        v matches JsonValue::Text(s) ==> v@ == ValueView::Text(s@),
        v matches JsonValue::Number(n) ==> v@ == ValueView::Number(n),
        v is Null ==> v@ is Null,
        f matches JsonField::Text(s) ==> f@ == FieldView::Text(s@),
        f matches JsonField::Number(n) ==> f@ == FieldView::Number(n),
        f is Null ==> f@ is Null,
        f is Other ==> f@ is Other,
{
}

/// Pairs are viewed part by part.
pub proof fn pairs_are_viewed(
    fields: Seq<(String, JsonField)>,
    items: Seq<JsonField>,
    members: Seq<(&str, JsonValue<'_>)>,
    names: Seq<Option<String>>,
    tombs: Seq<(String, u64)>,
    i: int,
)
    ensures
        field_views(fields).len() == fields.len(),
        item_views(items).len() == items.len(),
        member_views(members).len() == members.len(),
        name_views(names).len() == names.len(),
        tomb_views(tombs).len() == tombs.len(),
        tally_views(tombs).len() == tombs.len(),
        0 <= i < fields.len() ==> field_views(fields)[i] == (fields[i].0@, fields[i].1@),
        0 <= i < items.len() ==> item_views(items)[i] == items[i]@,
        0 <= i < members.len() ==> member_views(members)[i] == (members[i].0@, members[i].1@),
        0 <= i < names.len() ==> name_views(names)[i] == text_option(names[i]),
        0 <= i < tombs.len() ==> tomb_views(tombs)[i] == (tombs[i].0@, tombs[i].1),
        0 <= i < tombs.len() ==> tally_views(tombs)[i] == (tombs[i].0@, tombs[i].1 as nat),
{
}

/// A text that may be left out is viewed where it is there.
pub proof fn options_are_viewed(o: Option<&str>)
    ensures
        o is None ==> str_option(o) is None,
        o matches Some(s) ==> str_option(o) == Some(s@),
{
}

} // verus!
