//! Probes: what the entries of a subtree add up to, and which facts come of it.

use crate::dirread::EntryView;
use crate::model::{CandidateView, FactsView, GitFacts};
use crate::prober::{
    as_unsigned, descends, drive_of, empty_sum, gathered, handle_identity, probed_facts, ran,
    stat_identity, stat_needed, sum_after, Stat, SubtreeSum,
};
use vstd::prelude::*;
use vstd::utf8::encode_utf8;

verus! {

/// One more entry of a subtree: the entry, how deep its directory is, and what a stat says.
pub struct Seen {
    pub entry: EntryView,
    pub depth: u32,
    pub stat: Option<Stat>,
}

/// It is a file: the listing says so, or the stat of what the listing does not tell.
pub open spec fn is_file(s: Seen) -> bool {
    s.entry.kind is File || (s.entry.kind is Other && s.stat is Some && s.stat->0.is_file
        && !s.stat->0.is_dir)
}

/// The length of a file: what the listing gave, else what the stat gave. What the listing does
/// not tell the type of is taken from the stat.
pub open spec fn length_of(s: Seen) -> int {
    if s.entry.kind is File && s.entry.len is Some {
        s.entry.len->0 as int
    } else if s.stat is Some {
        s.stat->0.len as int
    } else {
        0
    }
}

/// Every file counts with its length, at every depth; nothing else counts.
pub proof fn every_file_counts(sum: SubtreeSum, s: Seen)
    ensures
        ({
            let after = sum_after(sum, s.entry, s.depth, s.stat);
            &&& is_file(s) ==> after.bytes == (sum.bytes + length_of(s)) % 0x1_0000_0000_0000_0000
            &&& !is_file(s) ==> after.bytes == sum.bytes
        }),
{
}

/// How deep an entry is does not matter to what it counts, nor to whether it is descended.
pub proof fn depth_only_limits_the_sample(sum: SubtreeSum, s: Seen, depth: u32)
    ensures
        ({
            let here = sum_after(sum, s.entry, s.depth, s.stat);
            let there = sum_after(sum, s.entry, depth, s.stat);
            &&& here.bytes == there.bytes
            &&& here.cloud_any == there.cloud_any
            &&& here.cloud_missing == there.cloud_missing
        }),
{
}

/// What is known of the clouds: a placeholder is seen exactly where a file is one, and it stays in
/// doubt exactly where a file does not tell or an entry could be one.
pub proof fn placeholders_are_seen(sum: SubtreeSum, s: Seen)
    ensures
        ({
            let after = sum_after(sum, s.entry, s.depth, s.stat);
            &&& after.cloud_any <==> sum.cloud_any || (is_file(s) && s.entry.cloud == Some(true))
            &&& after.cloud_missing <==> sum.cloud_missing || (is_file(s) && s.entry.cloud is None)
                || (s.entry.kind is Other && s.stat is None)
        }),
{
}

/// The mtime of an entry: what the listing gave, else what the stat gave.
pub open spec fn mtime_of(s: Seen) -> Option<i128> {
    if s.entry.mtime is Some {
        s.entry.mtime
    } else if s.stat is Some {
        s.stat->0.mtime
    } else {
        None
    }
}

/// It is sampled: a file or a directory that the listing tells, or a file that the stat tells, in
/// the candidate or one below it, with an mtime that is not before the epoch.
pub open spec fn is_sampled(s: Seen) -> bool {
    s.depth < 2 && (s.entry.kind is Dir || is_file(s)) && mtime_of(s) is Some && mtime_of(s)->0 >= 0
}

/// The sample is the newest of the mtimes that are sampled.
pub proof fn the_newest_is_kept(sum: SubtreeSum, s: Seen)
    ensures
        ({
            let after = sum_after(sum, s.entry, s.depth, s.stat).newest_nanos;
            let nanos = mtime_of(s)->0 as int % 0x1_0000_0000_0000_0000;
            &&& after >= sum.newest_nanos
            &&& is_sampled(s) ==> after >= nanos && (after == nanos || after == sum.newest_nanos)
            &&& !is_sampled(s) ==> after == sum.newest_nanos
        }),
{
}

/// A directory is descended, and nothing else: a link never.
pub proof fn directories_are_descended(s: Seen)
    ensures
        descends(s.entry, s.stat) <==> s.entry.kind is Dir || (s.entry.kind is Other
            && s.stat is Some && s.stat->0.is_dir),
{
}

/// A stat is asked for exactly where it can tell something: the type of what the listing does not
/// tell, the length of a file without one, the mtime of what is sampled and has none.
pub proof fn stats_fill_what_is_missing(e: EntryView, depth: u32)
    ensures
        stat_needed(e, depth) <==> {
            ||| e.kind is Other
            ||| e.kind is File && e.len is None
            ||| (e.kind is File || e.kind is Dir) && depth < 2 && e.mtime is None
        },
{
}

/// What a subtree adds up to.
pub open spec fn summed(seen: Seq<Seen>) -> SubtreeSum
    decreases seen.len(),
{
    if seen.len() == 0 {
        empty_sum()
    } else {
        let s = seen.last();
        sum_after(summed(seen.drop_last()), s.entry, s.depth, s.stat)
    }
}

/// The lengths of the files of a subtree, together.
pub open spec fn total_length(seen: Seq<Seen>) -> int
    decreases seen.len(),
{
    if seen.len() == 0 {
        0
    } else {
        total_length(seen.drop_last()) + (if is_file(seen.last()) {
            length_of(seen.last())
        } else {
            0
        })
    }
}

/// The bytes of a subtree are those of all its files, however deep.
pub proof fn bytes_of_a_subtree(seen: Seq<Seen>)
    ensures
        total_length(seen) >= 0,
        summed(seen).bytes == total_length(seen) % 0x1_0000_0000_0000_0000,
    decreases seen.len(),
{
    if seen.len() > 0 {
        let before = seen.drop_last();
        bytes_of_a_subtree(before);
        every_file_counts(summed(before), seen.last());
        let m: int = 0x1_0000_0000_0000_0000;
        let t = total_length(before);
        if is_file(seen.last()) {
            let l = length_of(seen.last());
            vstd::arithmetic::div_mod::lemma_add_mod_noop(t, l, m);
            vstd::arithmetic::div_mod::lemma_add_mod_noop(t % m, l, m);
            vstd::arithmetic::div_mod::lemma_mod_twice(t, m);
        }
    }
}

/// One placeholder anywhere is enough, and one file that does not tell.
pub proof fn clouds_of_a_subtree(seen: Seq<Seen>)
    ensures
        summed(seen).cloud_any <==> exists|i: int|
            0 <= i < seen.len() && is_file(#[trigger] seen[i]) && seen[i].entry.cloud == Some(true),
        summed(seen).cloud_missing <==> exists|i: int|
            0 <= i < seen.len() && ((is_file(#[trigger] seen[i]) && seen[i].entry.cloud is None) || (
            seen[i].entry.kind is Other && seen[i].stat is None)),
    decreases seen.len(),
{
    if seen.len() > 0 {
        let before = seen.drop_last();
        let n = before.len() as int;
        clouds_of_a_subtree(before);
        placeholders_are_seen(summed(before), seen.last());
        assert(seen[n] == seen.last());
        if summed(before).cloud_any {
            let i = choose|i: int|
                0 <= i < before.len() && is_file(#[trigger] before[i]) && before[i].entry.cloud
                    == Some(true);
            assert(seen[i] == before[i]);
        }
        if summed(before).cloud_missing {
            let i = choose|i: int|
                0 <= i < before.len() && ((is_file(#[trigger] before[i])
                    && before[i].entry.cloud is None) || (before[i].entry.kind is Other
                    && before[i].stat is None));
            assert(seen[i] == before[i]);
        }
        if exists|i: int|
            0 <= i < seen.len() && is_file(#[trigger] seen[i]) && seen[i].entry.cloud == Some(
                true,
            ) {
            let i = choose|i: int|
                0 <= i < seen.len() && is_file(#[trigger] seen[i]) && seen[i].entry.cloud == Some(
                    true,
                );
            if i < n {
                assert(before[i] == seen[i]);
            }
        }
        if exists|i: int|
            0 <= i < seen.len() && ((is_file(#[trigger] seen[i]) && seen[i].entry.cloud is None) || (
            seen[i].entry.kind is Other && seen[i].stat is None)) {
            let i = choose|i: int|
                0 <= i < seen.len() && ((is_file(#[trigger] seen[i]) && seen[i].entry.cloud is None)
                    || (seen[i].entry.kind is Other && seen[i].stat is None));
            if i < n {
                assert(before[i] == seen[i]);
            }
        }
    }
}

/// The sample of a subtree is at least every sampled mtime, and is one of them, or nothing.
pub proof fn newest_of_a_subtree(seen: Seq<Seen>)
    ensures
        forall|i: int|
            0 <= i < seen.len() && is_sampled(#[trigger] seen[i]) ==> summed(seen).newest_nanos
                >= mtime_of(seen[i])->0 as int % 0x1_0000_0000_0000_0000,
        summed(seen).newest_nanos == 0 || exists|i: int|
            0 <= i < seen.len() && is_sampled(#[trigger] seen[i]) && summed(seen).newest_nanos
                == mtime_of(seen[i])->0 as int % 0x1_0000_0000_0000_0000,
    decreases seen.len(),
{
    if seen.len() > 0 {
        let before = seen.drop_last();
        let n = before.len() as int;
        newest_of_a_subtree(before);
        the_newest_is_kept(summed(before), seen.last());
        assert(seen[n] == seen.last());
        assert forall|i: int| 0 <= i < seen.len() && is_sampled(#[trigger] seen[i]) implies summed(
            seen,
        ).newest_nanos >= mtime_of(seen[i])->0 as int % 0x1_0000_0000_0000_0000 by {
            if i < n {
                assert(seen[i] == before[i]);
            }
        }
        if summed(seen).newest_nanos != 0 {
            if summed(seen).newest_nanos == summed(before).newest_nanos {
                let i = choose|i: int|
                    0 <= i < before.len() && is_sampled(#[trigger] before[i]) && summed(
                        before,
                    ).newest_nanos == mtime_of(before[i])->0 as int % 0x1_0000_0000_0000_0000;
                assert(seen[i] == before[i]);
            } else {
                assert(is_sampled(seen[n]));
            }
        }
    }
}

/// The facts of a candidate: its bytes; idle for as many whole days as have gone since the newest
/// sample, building where less than two minutes have, and neither known without a sample; on the
/// scan root's device where both are known and the same; in a cloud where a file is, and in doubt
/// where one does not tell. Nothing is said of processes and repositories.
pub proof fn facts_of_a_sum(
    candidate: CandidateView,
    root_dev: Option<u64>,
    dev: Option<u64>,
    sum: SubtreeSum,
    now: i128,
)
    requires
        now / 1_000_000_000 <= u64::MAX,
    ensures
        ({
            let f = probed_facts(candidate, root_dev, dev, sum, now);
            let age = if now > sum.newest_nanos {
                now - sum.newest_nanos
            } else {
                0int
            };
            &&& f.candidate == candidate
            &&& f.size_bytes == Some(sum.bytes)
            &&& sum.newest_nanos == 0 ==> f.idle_days is None && f.active_build is None
            &&& sum.newest_nanos != 0 ==> {
                &&& f.idle_days is Some
                &&& f.idle_days->0 * 86_400_000_000_000 <= age
                &&& age < (f.idle_days->0 + 1) * 86_400_000_000_000
                &&& f.active_build == Some(age < 120_000_000_000)
            }
            &&& f.same_device == (if root_dev is Some && dev is Some {
                Some(root_dev == dev)
            } else {
                None
            })
            &&& f.cloud_backed is None <==> sum.cloud_missing
            &&& f.cloud_backed is Some ==> f.cloud_backed->0 == sum.cloud_any
            &&& f.live_pids is None
            &&& f.git is None
        }),
{
    if sum.newest_nanos != 0 {
        let age = if now > sum.newest_nanos {
            now - sum.newest_nanos
        } else {
            0int
        };
        let seconds = age / 1_000_000_000;
        let days = seconds / 86_400;
        assert(0 <= days <= u64::MAX);
        assert(days * 86_400 <= seconds < (days + 1) * 86_400);
    }
}

/// What the later probes say is added, each to its own candidate, and changes nothing else: the
/// processes of every candidate, the repository of a worktree.
pub proof fn later_probes_add_their_own(
    f: FactsView,
    i: int,
    git: Seq<Option<GitFacts>>,
    live: Seq<Option<Vec<u32>>>,
)
    requires
        0 <= i < git.len(),
        0 <= i < live.len(),
    ensures
        ({
            let g = gathered(f, i, Some(git), Some(live));
            &&& live[i] is None ==> g.live_pids is None
            &&& live[i] matches Some(pids) ==> g.live_pids == Some(pids@)
            &&& f.candidate.safety_class is GitWorktree ==> {
                &&& git[i] is None ==> g.git is None
                &&& git[i] matches Some(facts) ==> g.git == Some(facts@)
            }
            &&& !(f.candidate.safety_class is GitWorktree) ==> g.git == f.git
            &&& g == (FactsView { live_pids: g.live_pids, git: g.git, ..f })
        }),
        gathered(f, i, None, None) == f,
{
}

/// A signed number of 64 bits and the unsigned one that it is taken as agree but for a multiple of
/// 2^64.
pub proof fn unsigned_is_the_same_number(n: i64)
    ensures
        0 <= as_unsigned(n) < 0x1_0000_0000_0000_0000,
        n >= 0 ==> as_unsigned(n) == n,
        n < 0 ==> as_unsigned(n) == n + 0x1_0000_0000_0000_0000,
{
}

/// The device of a Windows path is its drive letter: upper and lower case are the same device, and
/// two letters are two. A network path and an empty one have none.
pub proof fn drives_are_letters(a: char, b: char, x: Seq<char>, y: Seq<char>)
    requires
        'A' <= a <= 'Z',
        'A' <= b <= 'Z',
    ensures
        drive_of(seq![a, ':'] + x) == Some(a as u64),
        drive_of(seq![((a as int + 32) as char), ':'] + x) == Some(a as u64),
        drive_of(seq![a, ':'] + x) == drive_of(seq![b, ':'] + y) <==> a == b,
        drive_of(seq!['\\', '\\'] + x) is None,
        drive_of(seq![]) is None,
{
    lemma_two_bytes(a, ':', x);
    lemma_two_bytes(b, ':', y);
    lemma_two_bytes((a as int + 32) as char, ':', x);
    lemma_two_bytes('\\', '\\', x);
}

proof fn lemma_ascii_byte(c: char)
    requires
        c as int <= 0x7f,
    ensures
        vstd::utf8::encode_scalar(c as u32) == seq![c as u8],
{
    let n = c as u32;
    assert((n & 0x7f) == n) by (bit_vector)
        requires
            n <= 0x7f,
    ;
    assert(vstd::utf8::encode_scalar(n) =~= seq![c as u8]);
}

proof fn lemma_two_bytes(a: char, b: char, x: Seq<char>)
    requires
        a as int <= 0x7f,
        b as int <= 0x7f,
    ensures
        encode_utf8(seq![a, b] + x).len() >= 2,
        encode_utf8(seq![a, b] + x)[0] == a as u8,
        encode_utf8(seq![a, b] + x)[1] == b as u8,
{
    let s = seq![a, b] + x;
    lemma_ascii_byte(a);
    lemma_ascii_byte(b);
    assert(s.drop_first()[0] == b);
    assert(encode_utf8(s) == seq![a as u8] + encode_utf8(s.drop_first()));
    assert(encode_utf8(s.drop_first()) == seq![b as u8] + encode_utf8(s.drop_first().drop_first()));
}

/// A probe that did not run, or says nothing of a candidate, leaves what is known of it.
pub proof fn probes_that_did_not_run_add_nothing(
    f: FactsView,
    i: int,
    git: Option<Seq<Option<GitFacts>>>,
    live: Option<Seq<Option<Vec<u32>>>>,
)
    ensures
        git is None || i >= git->0.len() || !(f.candidate.safety_class is GitWorktree) ==> gathered(
            f,
            i,
            git,
            live,
        ).git == f.git,
        live is None || i >= live->0.len() ==> gathered(f, i, git, live).live_pids == f.live_pids,
        live matches Some(all) ==> i < all.len() ==> {
            &&& all[i] is None ==> gathered(f, i, git, live).live_pids is None
            &&& all[i] matches Some(pids) ==> gathered(f, i, git, live).live_pids == Some(pids@)
        },
        git matches Some(all) ==> i < all.len() && f.candidate.safety_class is GitWorktree ==> {
            &&& all[i] is None ==> gathered(f, i, git, live).git is None
            &&& all[i] matches Some(facts) ==> gathered(f, i, git, live).git == Some(facts@)
        },
{
}

/// A probe that ran says what it says, item by item.
pub proof fn probes_that_ran(v: Option<Vec<GitFacts>>)
    ensures
        v is None ==> ran(v) is None,
        v matches Some(all) ==> ran(v) == Some(all@),
{
}

/// An identity is the device, the number and the time of a directory, in nanoseconds.
pub proof fn identities_by_stat(dev: u64, ino: u64, mtime: i64, nsec: i64)
    ensures
        stat_identity(dev, ino, mtime, nsec).dev == dev,
        stat_identity(dev, ino, mtime, nsec).ino == ino,
        0 <= mtime < 18_446_744_073 && 0 <= nsec < 1_000_000_000 ==> stat_identity(
            dev,
            ino,
            mtime,
            nsec,
        ).mtime_ns == mtime * 1_000_000_000 + nsec,
        stat_identity(dev, ino, mtime, nsec).mtime_ns == ((as_unsigned(mtime) * 1_000_000_000)
            % 0x1_0000_0000_0000_0000 + as_unsigned(nsec)) % 0x1_0000_0000_0000_0000,
{
    let a = as_unsigned(mtime) as u64;
    assert(a == as_unsigned(mtime));
    if 0 <= mtime < 18_446_744_073 {
        assert(mtime * 1_000_000_000 < 0x1_0000_0000_0000_0000);
    }
}

/// The halves of an identity can be told from it.
pub proof fn identities_by_handle(serial: u32, high: u32, low: u32, write_high: u32, write_low: u32)
    ensures
        ({
            let id = handle_identity(serial, high, low, write_high, write_low);
            &&& id.dev == serial
            &&& id.ino / 0x1_0000_0000 == high
            &&& id.ino % 0x1_0000_0000 == low
            &&& id.mtime_ns / 0x1_0000_0000 == write_high
            &&& id.mtime_ns % 0x1_0000_0000 == write_low
        }),
{
}

} // verus!
