//! The fact-gathering pipeline for one candidate: subtree sizing, the shallow
//! freshness sample (the load-bearing idle signal), device identity, and
//! cloud-placeholder detection. Every fact that cannot be established stays
//! `None`: the classifier refuses it; the prober never guesses.

use crate::bytes::{unsigned64, values64};
use crate::classify::{any_missing_fact_refuses_unknown, verdict};
use crate::dirread::{Entry, EntryView, FileKind};
use crate::model::{
    Candidate, CandidateView, Facts, FactsView, GitFacts, GitView, ReasonView, SafetyClass,
};
use crate::plan::Identity;
use crate::policy::PolicyView;
use vstd::prelude::*;
use vstd::string::*;
use vstd::utf8::encode_utf8;

verus! {

/// How fresh the newest sampled mtime may be, in nanoseconds, before the
/// candidate is treated as an active build: two minutes.
pub const ACTIVE_BUILD_WINDOW: i128 = 120_000_000_000;

/// The freshness sample depth.
pub const SAMPLE_DEPTH: u32 = 2;

/// The number of seconds in a day.
pub const DAY: i128 = 86_400;

/// The number of nanoseconds in a second.
pub const SECOND: i128 = 1_000_000_000;

/// What a stat of an entry says, without following links.
#[derive(Debug, Clone, Copy, PartialEq, Eq)]
pub struct Stat {
    pub is_dir: bool,
    pub is_file: bool,
    pub len: u64,
    /// Modification time, in nanoseconds since the Unix epoch.
    pub mtime: Option<i128>,
}

/// What has been summed of a subtree.
#[derive(Debug, Clone, Copy, PartialEq, Eq)]
pub struct SubtreeSum {
    /// Logical bytes.
    pub bytes: u64,
    /// Some file is a cloud placeholder.
    pub cloud_any: bool,
    /// Of some file it is not known whether it is a cloud placeholder, or whether
    /// there are more files.
    pub cloud_missing: bool,
    /// Newest sampled mtime in nanoseconds since the epoch (0: none seen).
    pub newest_nanos: u64,
}

/// The sum of nothing.
pub open spec fn empty_sum() -> SubtreeSum {
    SubtreeSum { bytes: 0, cloud_any: false, cloud_missing: false, newest_nanos: 0 }
}

/// Whether an entry has something left for a stat to fill in: the type of one
/// that the listing does not tell, the size of a file, the mtime of one that is
/// sampled.
pub open spec fn stat_needed(e: EntryView, depth: u32) -> bool {
    match e.kind {
        FileKind::Dir => depth < SAMPLE_DEPTH && e.mtime is None,
        FileKind::Other => true,
        FileKind::File => e.len is None || (depth < SAMPLE_DEPTH && e.mtime is None),
        FileKind::Symlink => false,
    }
}

/// The mtime of an entry: what the listing gave, else what the stat gave.
pub open spec fn known_mtime(e: EntryView, stat: Option<Stat>) -> Option<i128> {
    match (e.mtime, stat) {
        (Some(t), _) => Some(t),
        (None, Some(s)) => s.mtime,
        (None, None) => None,
    }
}

/// The newer of a sampled mtime and one more, if there is one that is not
/// before the epoch.
pub open spec fn newer(newest: u64, mtime: Option<i128>) -> u64 {
    match mtime {
        Some(t) => {
            let nanos = (t as int % values64()) as u64;
            if t >= 0 && nanos > newest {
                nanos
            } else {
                newest
            }
        },
        None => newest,
    }
}

/// The sample after an entry at this depth.
pub open spec fn sampled(newest: u64, e: EntryView, depth: u32, stat: Option<Stat>) -> u64 {
    if depth < SAMPLE_DEPTH {
        newer(newest, known_mtime(e, stat))
    } else {
        newest
    }
}

/// Whether an entry is a directory to descend.
pub open spec fn descends(e: EntryView, stat: Option<Stat>) -> bool {
    match e.kind {
        FileKind::Dir => true,
        FileKind::Other => stat matches Some(s) && s.is_dir,
        _ => false,
    }
}

/// The sum after one more entry, of a directory at this depth. Symlinks are
/// counted nowhere; what cannot be read stays uncounted, and leaves open whether
/// it is a cloud placeholder.
pub open spec fn sum_after(
    sum: SubtreeSum,
    e: EntryView,
    depth: u32,
    stat: Option<Stat>,
) -> SubtreeSum {
    match e.kind {
        FileKind::Dir => SubtreeSum {
            newest_nanos: sampled(sum.newest_nanos, e, depth, stat),
            ..sum
        },
        FileKind::Other => match stat {
            Some(s) => if !s.is_dir && s.is_file {
                SubtreeSum {
                    bytes: sum.bytes.wrapping_add(s.len),
                    cloud_any: sum.cloud_any || e.cloud == Some(true),
                    cloud_missing: sum.cloud_missing || e.cloud is None,
                    newest_nanos: sampled(sum.newest_nanos, e, depth, stat),
                }
            } else {
                sum
            },
            None => SubtreeSum { cloud_missing: true, ..sum },
        },
        FileKind::File => SubtreeSum {
            bytes: sum.bytes.wrapping_add(
                match (e.len, stat) {
                    (Some(len), _) => len,
                    (None, Some(s)) => s.len,
                    (None, None) => 0,
                },
            ),
            cloud_any: sum.cloud_any || e.cloud == Some(true),
            cloud_missing: sum.cloud_missing || e.cloud is None,
            newest_nanos: sampled(sum.newest_nanos, e, depth, stat),
        },
        FileKind::Symlink => sum,
    }
}

/// Whether an entry has something left for a stat to fill in.
pub fn needs_stat(e: &Entry, depth: u32) -> (r: bool)
    ensures
        r == stat_needed(e@, depth),
{
    match e.kind {
        FileKind::Dir => depth < SAMPLE_DEPTH && e.mtime.is_none(),
        FileKind::Other => true,
        FileKind::File => e.len.is_none() || (depth < SAMPLE_DEPTH && e.mtime.is_none()),
        FileKind::Symlink => false,
    }
}

impl SubtreeSum {
    /// The sum of nothing.
    pub fn new() -> (r: Self)
        ensures
            r == empty_sum(),
    {
        SubtreeSum { bytes: 0, cloud_any: false, cloud_missing: false, newest_nanos: 0 }
    }

    fn sample(&mut self, e: &Entry, depth: u32, stat: Option<Stat>)
        ensures
            *final(self) == (SubtreeSum {
                newest_nanos: sampled(old(self).newest_nanos, e@, depth, stat),
                ..*old(self)
            }),
    {
        if depth >= SAMPLE_DEPTH {
            return;
        }
        let mtime = match e.mtime {
            Some(t) => Some(t),
            None => match stat {
                Some(s) => s.mtime,
                None => None,
            },
        };
        if let Some(t) = mtime {
            if t >= 0 {
                let nanos: u64 = (t % 0x1_0000_0000_0000_0000) as u64;
                if nanos > self.newest_nanos {
                    self.newest_nanos = nanos;
                }
            }
        }
    }

    fn cloud(&mut self, e: &Entry)
        ensures
            *final(self) == (SubtreeSum {
                cloud_any: old(self).cloud_any || e@.cloud == Some(true),
                cloud_missing: old(self).cloud_missing || e@.cloud is None,
                ..*old(self)
            }),
    {
        match e.cloud {
            Some(cloud) => {
                if cloud {
                    self.cloud_any = true;
                }
            },
            None => {
                self.cloud_missing = true;
            },
        }
    }

    /// Takes in that a directory of the subtree cannot be listed: of the files
    /// that may be in it nothing is known.
    pub fn unreadable(&mut self)
        ensures
            *final(self) == (SubtreeSum { cloud_missing: true, ..*old(self) }),
    {
        self.cloud_missing = true;
    }

    /// Takes in one entry of a directory at this depth, with what a stat says
    /// of it where there is something to fill in. Returns whether the entry is
    /// a directory to descend.
    pub fn observe(&mut self, e: &Entry, depth: u32, stat: Option<Stat>) -> (r: bool)
        ensures
            *final(self) == sum_after(*old(self), e@, depth, stat),
            r == descends(e@, stat),
    {
        match e.kind {
            FileKind::Dir => {
                self.sample(e, depth, stat);
                true
            },
            FileKind::Other => match stat {
                Some(s) => {
                    if s.is_dir {
                        true
                    } else {
                        if s.is_file {
                            self.bytes = self.bytes.wrapping_add(s.len);
                            self.cloud(e);
                            self.sample(e, depth, stat);
                        }
                        false
                    }
                },
                None => {
                    self.cloud_missing = true;
                    false
                },
            },
            FileKind::File => {
                let len: u64 = match e.len {
                    Some(len) => len,
                    None => match stat {
                        Some(s) => s.len,
                        None => 0,
                    },
                };
                self.bytes = self.bytes.wrapping_add(len);
                self.cloud(e);
                self.sample(e, depth, stat);
                false
            },
            FileKind::Symlink => false,
        }
    }
}

/// The order in which entries are seen does not matter: a subtree can be summed
/// in parallel.
pub proof fn observations_commute(
    sum: SubtreeSum,
    a: EntryView,
    a_depth: u32,
    a_stat: Option<Stat>,
    b: EntryView,
    b_depth: u32,
    b_stat: Option<Stat>,
)
    ensures
        sum_after(sum_after(sum, a, a_depth, a_stat), b, b_depth, b_stat) == sum_after(
            sum_after(sum, b, b_depth, b_stat),
            a,
            a_depth,
            a_stat,
        ),
{
}

/// A stat that is not needed does not matter.
pub proof fn unneeded_stat_is_ignored(
    sum: SubtreeSum,
    e: EntryView,
    depth: u32,
    stat: Option<Stat>,
)
    requires
        !stat_needed(e, depth),
    ensures
        sum_after(sum, e, depth, stat) == sum_after(sum, e, depth, None),
        descends(e, stat) == descends(e, None),
{
}

/// How long ago the newest sampled mtime was, in nanoseconds; nothing where it
/// lies ahead.
pub open spec fn age(now: i128, newest: u64) -> int {
    if now > newest {
        now - newest
    } else {
        0
    }
}

/// What is established of a candidate: the device only where both are known,
/// the cloud flag only where it is known of every file, idleness only where
/// there is a sample.
pub open spec fn probed_facts(
    candidate: CandidateView,
    root_dev: Option<u64>,
    dev: Option<u64>,
    sum: SubtreeSum,
    now: i128,
) -> FactsView {
    FactsView {
        candidate,
        size_bytes: Some(sum.bytes),
        idle_days: if sum.newest_nanos == 0 {
            None
        } else {
            Some((age(now, sum.newest_nanos) / (SECOND as int) / (DAY as int)) as u64)
        },
        live_pids: None,
        active_build: if sum.newest_nanos == 0 {
            None
        } else {
            Some(age(now, sum.newest_nanos) < ACTIVE_BUILD_WINDOW)
        },
        same_device: match (root_dev, dev) {
            (Some(root), Some(dev)) => Some(root == dev),
            _ => None,
        },
        cloud_backed: if sum.cloud_missing {
            None
        } else {
            Some(sum.cloud_any)
        },
        git: None,
    }
}

/// Gathers what is establishable for a candidate from the devices of the scan
/// root and of the candidate, the sum of its subtree, and the time, in
/// nanoseconds since the Unix epoch.
pub fn probe(
    candidate: &Candidate,
    root_dev: Option<u64>,
    dev: Option<u64>,
    sum: &SubtreeSum,
    now: i128,
) -> (r: Facts)
    requires
        now / SECOND <= u64::MAX,
    ensures
        r@ == probed_facts(candidate@, root_dev, dev, *sum, now),
{
    let mut facts = Facts::unprobed(candidate.clone());
    facts.same_device = match (root_dev, dev) {
        (Some(root), Some(dev)) => Some(root == dev),
        _ => None,
    };
    facts.size_bytes = Some(sum.bytes);
    facts.cloud_backed = if sum.cloud_missing {
        None
    } else {
        Some(sum.cloud_any)
    };
    if sum.newest_nanos != 0 {
        let newest: i128 = sum.newest_nanos as i128;
        let age: i128 = if now > newest {
            now - newest
        } else {
            0
        };
        let days: i128 = age / SECOND / DAY;
        assert(age / SECOND <= now / SECOND || age == 0);
        assert(0 <= days <= u64::MAX);
        facts.idle_days = Some(days as u64);
        facts.active_build = Some(age < ACTIVE_BUILD_WINDOW);
    }
    facts
}

/// A probe alone admits nothing: without the live-process sweep every candidate
/// is refused, whatever was summed.
pub proof fn unswept_candidate_is_refused(
    candidate: CandidateView,
    root_dev: Option<u64>,
    dev: Option<u64>,
    sum: SubtreeSum,
    now: i128,
    p: PolicyView,
)
    ensures
        verdict(probed_facts(candidate, root_dev, dev, sum, now), p) matches Some(reasons)
            && reasons.contains(ReasonView::Unknown { what: "live_pids"@ }),
{
    any_missing_fact_refuses_unknown(
        probed_facts(candidate, root_dev, dev, sum, now),
        p,
        "live_pids"@,
    );
}

/// What cannot be read stays in doubt: once a directory could not be listed, or a
/// file did not tell, no further entry establishes the cloud flag, and the
/// candidate is refused for it.
pub proof fn unreadable_subtree_is_refused(
    sum: SubtreeSum,
    e: EntryView,
    depth: u32,
    stat: Option<Stat>,
    candidate: CandidateView,
    root_dev: Option<u64>,
    dev: Option<u64>,
    now: i128,
    p: PolicyView,
)
    requires
        sum.cloud_missing,
    ensures
        sum_after(sum, e, depth, stat).cloud_missing,
        verdict(probed_facts(candidate, root_dev, dev, sum, now), p) matches Some(reasons)
            && reasons.contains(ReasonView::Unknown { what: "cloud_backed"@ }),
{
    any_missing_fact_refuses_unknown(
        probed_facts(candidate, root_dev, dev, sum, now),
        p,
        "cloud_backed"@,
    );
}

/// The view of what a git probe said of a candidate.
pub open spec fn git_view(git: Option<GitFacts>) -> Option<GitView> {
    match git {
        Some(g) => Some(g@),
        None => None,
    }
}

/// The view of what a sweep said of a candidate.
pub open spec fn pids_view(pids: Option<Vec<u32>>) -> Option<Seq<u32>> {
    match pids {
        Some(p) => Some(p@),
        None => None,
    }
}

/// The facts of the candidate at `i`, with what the git probe says of it, if
/// there was one and it is a worktree, and what the sweep says of it, if there
/// was one and it says something.
pub open spec fn gathered(
    f: FactsView,
    i: int,
    git: Option<Seq<Option<GitFacts>>>,
    live: Option<Seq<Option<Vec<u32>>>>,
) -> FactsView {
    FactsView {
        git: if f.candidate.safety_class is GitWorktree && git is Some && i < git->0.len() {
            git_view(git->0[i])
        } else {
            f.git
        },
        live_pids: if live is Some && i < live->0.len() {
            pids_view(live->0[i])
        } else {
            f.live_pids
        },
        ..f
    }
}

/// What a probe that may not have run gave.
pub open spec fn ran<T>(v: Option<Vec<T>>) -> Option<Seq<T>> {
    match v {
        Some(v) => Some(v@),
        None => None,
    }
}

/// Whether the git probe has something to say of a candidate.
pub fn needs_git(facts: &Facts) -> (r: bool)
    ensures
        r == (facts@.candidate.safety_class is GitWorktree),
{
    matches!(&facts.candidate.safety_class, SafetyClass::GitWorktree)
}

fn attach_git(facts: &mut Vec<Facts>, git: Vec<Option<GitFacts>>)
    ensures
        final(facts)@.len() == old(facts)@.len(),
        forall|i: int|
            0 <= i < final(facts)@.len() ==> (#[trigger] final(facts)@[i])@ == gathered(
                old(facts)@[i]@,
                i,
                Some(git@),
                None,
            ),
{
    let ghost start = facts@;
    let ghost said = git@;
    let mut i: usize = 0;
    for g in it: git
        invariant
            it.seq() == said,
            i <= facts@.len() == start.len(),
            i == it.index() || (i == facts@.len() && i <= it.index()),
            forall|j: int|
                0 <= j < i ==> (#[trigger] facts@[j])@ == gathered(
                    start[j]@,
                    j,
                    Some(said),
                    None,
                ),
            forall|j: int| i <= j < start.len() ==> (#[trigger] facts@[j]) == start[j],
    {
        if i < facts.len() {
            if needs_git(&facts[i]) {
                facts[i].git = g;
            }
            i += 1;
        }
    }
}

fn attach_pids(facts: &mut Vec<Facts>, live: Vec<Option<Vec<u32>>>)
    ensures
        final(facts)@.len() == old(facts)@.len(),
        forall|i: int|
            0 <= i < final(facts)@.len() ==> (#[trigger] final(facts)@[i])@ == gathered(
                old(facts)@[i]@,
                i,
                None,
                Some(live@),
            ),
{
    let ghost start = facts@;
    let ghost said = live@;
    let mut i: usize = 0;
    for pids in it: live
        invariant
            it.seq() == said,
            i <= facts@.len() == start.len(),
            i == it.index() || (i == facts@.len() && i <= it.index()),
            forall|j: int|
                0 <= j < i ==> (#[trigger] facts@[j])@ == gathered(
                    start[j]@,
                    j,
                    None,
                    Some(said),
                ),
            forall|j: int| i <= j < start.len() ==> (#[trigger] facts@[j]) == start[j],
    {
        if i < facts.len() {
            facts[i].live_pids = pids;
            i += 1;
        }
    }
}

/// The full fact pipeline for a scan's candidates: per-candidate probes, git
/// facts for worktree candidates, then one live-process sweep across all of
/// them, item by item. A probe that did not run leaves its facts unestablished.
pub fn gather_facts(
    probed: Vec<Facts>,
    git: Option<Vec<Option<GitFacts>>>,
    live: Option<Vec<Option<Vec<u32>>>>,
) -> (r: Vec<Facts>)
    ensures
        r@.len() == probed@.len(),
        forall|i: int|
            0 <= i < r@.len() ==> (#[trigger] r@[i])@ == gathered(
                probed@[i]@,
                i,
                ran(git),
                ran(live),
            ),
{
    let mut facts = probed;
    let ghost start = facts@;
    if let Some(git) = git {
        attach_git(&mut facts, git);
    }
    let ghost middle = facts@;
    assert forall|i: int| 0 <= i < middle.len() implies (#[trigger] middle[i])@ == gathered(
        start[i]@,
        i,
        ran(git),
        None,
    ) by {}
    if let Some(live) = live {
        attach_pids(&mut facts, live);
    }
    facts
}

/// The identity of a path from what a stat says of it.
pub open spec fn stat_identity(dev: u64, ino: u64, mtime: i64, mtime_nsec: i64) -> Identity {
    Identity {
        dev,
        ino,
        mtime_ns: (as_unsigned(mtime) as u64).wrapping_mul(1_000_000_000).wrapping_add(
            as_unsigned(mtime_nsec) as u64,
        ),
    }
}

/// The identity of a path from what a file handle says of it.
pub open spec fn handle_identity(
    volume_serial: u32,
    index_high: u32,
    index_low: u32,
    write_high: u32,
    write_low: u32,
) -> Identity {
    Identity {
        dev: volume_serial as u64,
        ino: (index_high * 0x1_0000_0000 + index_low) as u64,
        mtime_ns: (write_high * 0x1_0000_0000 + write_low) as u64,
    }
}

/// The identity of a path from what a stat says of it. The mtime in
/// nanoseconds wraps: only equality matters.
pub fn unix_identity(dev: u64, ino: u64, mtime: i64, mtime_nsec: i64) -> (r: Identity)
    ensures
        r.dev == dev,
        r.ino == ino,
        r.mtime_ns == (as_unsigned(mtime) as u64).wrapping_mul(1_000_000_000).wrapping_add(
            as_unsigned(mtime_nsec) as u64,
        ),
        r == stat_identity(dev, ino, mtime, mtime_nsec),
{
    Identity {
        dev,
        ino,
        mtime_ns: unsigned64(mtime).wrapping_mul(1_000_000_000).wrapping_add(
            unsigned64(mtime_nsec),
        ),
    }
}

/// A two's complement number of 64 bits as an unsigned one.
pub open spec fn as_unsigned(n: i64) -> int {
    if n < 0 {
        n + values64()
    } else {
        n as int
    }
}

/// A number from its two 32-bit halves.
fn from_halves(high: u32, low: u32) -> (r: u64)
    ensures
        r == high * 0x1_0000_0000 + low,
{
    high as u64 * 0x1_0000_0000 + low as u64
}

/// The identity of a path from what a file handle says of it: volume serial,
/// file index, and last write time in FILETIME ticks, in halves.
pub fn win_identity(
    volume_serial: u32,
    index_high: u32,
    index_low: u32,
    write_high: u32,
    write_low: u32,
) -> (r: Identity)
    ensures
        r.dev == volume_serial,
        r.ino == index_high * 0x1_0000_0000 + index_low,
        r.mtime_ns == write_high * 0x1_0000_0000 + write_low,
        r == handle_identity(volume_serial, index_high, index_low, write_high, write_low),
{
    Identity {
        dev: volume_serial as u64,
        ino: from_halves(index_high, index_low),
        mtime_ns: from_halves(write_high, write_low),
    }
}

/// An ASCII letter in upper case; any other byte as it is.
pub open spec fn upper_byte(b: u8) -> u8 {
    if 'a' as u8 <= b <= 'z' as u8 {
        (b - 32) as u8
    } else {
        b
    }
}

/// The device that a Windows path stands for: its drive letter, whatever its
/// case; none where there is no drive.
pub open spec fn drive_of(path: Seq<char>) -> Option<u64> {
    let bytes = encode_utf8(path);
    if bytes.len() >= 2 && bytes[1] == ':' as u8 {
        Some(upper_byte(bytes[0]) as u64)
    } else {
        None
    }
}

/// The device that a Windows path stands for: the same drive letter means the
/// same volume; a path without one is not established.
pub fn drive_device(path: &str) -> (r: Option<u64>)
    ensures
        r == drive_of(path@),
{
    let bytes = path.as_bytes();
    if bytes.len() >= 2 && bytes[1] == 58 {
        let b: u8 = bytes[0];
        let upper: u8 = if 97 <= b && b <= 122 {
            b - 32
        } else {
            b
        };
        Some(upper as u64)
    } else {
        None
    }
}

} // verus!
