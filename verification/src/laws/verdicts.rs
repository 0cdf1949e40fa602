//! Verdicts: when a candidate is reapable, and which reasons a refusal gives.

use crate::classify::{
    admissible, all_clean, build_gate, cache_gate, cloud_gate, device_gate, dirty_gate, git_gate,
    head_gate, idle_gate, lemma_refused_iff_not_clean, live_gate, lock_gate, missing, protect_gate,
    refusals, refusals_are_the_violations, size_gate, unpushed_gate, verdict, violated,
};
use crate::model::{
    unprobed_facts, CandidateView, FactsView, HeadView, LockView, ReasonView, SafetyView,
};
use crate::policy::{
    default_idle, first_match, first_rejected, glob_error, glob_matches, glob_set_error,
    idle_floor, lemma_first_match_at, protect_error, IdlePolicy, PolicyView,
};
use vstd::prelude::*;

verus! {

/// The verdict on a candidate gives a reason.
#[verifier::opaque]
pub open spec fn gives(f: FactsView, p: PolicyView, r: ReasonView) -> bool {
    verdict(f, p) matches Some(reasons) && reasons.contains(r)
}

/// The pattern that protects a path is the first of the list that matches it, and a
/// path is protected exactly where some pattern matches it.
pub proof fn first_pattern_protects(patterns: Seq<Seq<char>>, path: Seq<char>)
    ensures
        first_match(patterns, path) is None <==> forall|k: int|
            0 <= k < patterns.len() ==> !glob_matches(#[trigger] patterns[k], path),
        first_match(patterns, path) matches Some(pattern) ==> exists|k: int|
            0 <= k < patterns.len() && pattern == #[trigger] patterns[k] && glob_matches(
                pattern,
                path,
            ) && forall|j: int| 0 <= j < k ==> !glob_matches(#[trigger] patterns[j], path),
    decreases patterns.len(),
{
    if patterns.len() > 0 {
        if glob_matches(patterns[0], path) {
            assert(patterns[0] == patterns[0]);
        } else {
            let rest = patterns.skip(1);
            first_pattern_protects(rest, path);
            if first_match(rest, path) is Some {
                let pattern = first_match(rest, path)->0;
                let k = choose|k: int|
                    0 <= k < rest.len() && pattern == #[trigger] rest[k] && glob_matches(
                        pattern,
                        path,
                    ) && forall|j: int| 0 <= j < k ==> !glob_matches(#[trigger] rest[j], path);
                assert(patterns[k + 1] == pattern);
                assert forall|j: int| 0 <= j < k + 1 implies !glob_matches(
                    #[trigger] patterns[j],
                    path,
                ) by {
                    if j > 0 {
                        assert(patterns[j] == rest[j - 1]);
                    }
                }
            } else {
                assert forall|k: int| 0 <= k < patterns.len() implies !glob_matches(
                    #[trigger] patterns[k],
                    path,
                ) by {
                    if k > 0 {
                        assert(patterns[k] == rest[k - 1]);
                    }
                }
            }
        }
    }
}

/// A candidate is reapable exactly where every fact is established and clean: no
/// pattern protects it, a cache is opted in, nobody is inside, nothing builds there, it is on the
/// scan root's device, no file is a cloud placeholder, it has been idle for the days that the
/// policy sets for its class, it is large enough, and a worktree has nothing that is not
/// elsewhere.
pub proof fn reapable_needs_every_gate(f: FactsView, p: PolicyView)
    ensures
        verdict(f, p) is None <==> {
            &&& forall|k: int|
                0 <= k < p.protect.len() ==> !glob_matches(
                    #[trigger] p.protect[k],
                    f.candidate.path,
                )
            &&& f.candidate.safety_class is PackageCache ==> p.include_caches
            &&& f.live_pids == Some(Seq::<u32>::empty())
            &&& f.active_build == Some(false)
            &&& f.same_device == Some(true)
            &&& f.cloud_backed == Some(false)
            &&& f.idle_days is Some
            &&& f.candidate.safety_class is Regenerable ==> f.idle_days->0
                >= p.min_idle.regenerable_days
            &&& f.candidate.safety_class is GitWorktree ==> f.idle_days->0
                >= p.min_idle.worktree_days
            &&& f.candidate.safety_class is PackageCache ==> f.idle_days->0
                >= p.min_idle.cache_days
            &&& f.size_bytes is Some
            &&& f.size_bytes->0 >= p.min_size_bytes
            &&& f.candidate.safety_class is GitWorktree ==> {
                &&& f.git is Some
                &&& f.git->0.dirty_entries == Some(0usize)
                &&& f.git->0.unpushed_commits == Some(0u64)
                &&& f.git->0.lock == Some(LockView::Unlocked)
                &&& f.git->0.head is Some
                &&& f.git->0.head->0 is Attached
            }
        },
        all_clean(f, p) <==> verdict(f, p) is None,
        verdict(f, p) matches Some(reasons) ==> reasons.len() > 0 && reasons == refusals(f, p),
{
    first_pattern_protects(p.protect, f.candidate.path);
    lemma_refused_iff_not_clean(f, p);
    if f.live_pids is Some && f.live_pids->0.len() == 0 {
        assert(f.live_pids->0 =~= Seq::<u32>::empty());
    }
}

/// The idle floor is the one that the policy sets for the class of the candidate: with fewer idle
/// days it is refused, with both numbers, and with as many it is not refused for that.
pub proof fn too_recent_is_by_the_floor_of_the_class(
    f: FactsView,
    p: PolicyView,
    days: u64,
    floor: u64,
)
    ensures
        gives(f, p, ReasonView::TooRecent { idle_days: days, min_idle_days: floor }) <==> {
            &&& f.idle_days == Some(days)
            &&& days < floor
            &&& f.candidate.safety_class is Regenerable ==> floor == p.min_idle.regenerable_days
            &&& f.candidate.safety_class is GitWorktree ==> floor == p.min_idle.worktree_days
            &&& f.candidate.safety_class is PackageCache ==> floor == p.min_idle.cache_days
        },
{
    lemma_gives(f, p, ReasonView::TooRecent { idle_days: days, min_idle_days: floor });
}

/// A regenerable candidate with fewer idle days than the policy sets for such is refused for it, and
/// so are a worktree and a cache, each by its own setting.
pub proof fn fewer_days_than_set_refuse(f: FactsView, p: PolicyView, d: u64)
    requires
        f.idle_days == Some(d),
    ensures
        f.candidate.safety_class is Regenerable && d < p.min_idle.regenerable_days ==> gives(
            f,
            p,
            ReasonView::TooRecent { idle_days: d, min_idle_days: p.min_idle.regenerable_days },
        ),
        f.candidate.safety_class is GitWorktree && d < p.min_idle.worktree_days ==> gives(
            f,
            p,
            ReasonView::TooRecent { idle_days: d, min_idle_days: p.min_idle.worktree_days },
        ),
        f.candidate.safety_class is PackageCache && d < p.min_idle.cache_days ==> gives(
            f,
            p,
            ReasonView::TooRecent { idle_days: d, min_idle_days: p.min_idle.cache_days },
        ),
{
    too_recent_is_by_the_floor_of_the_class(f, p, d, p.min_idle.regenerable_days);
    too_recent_is_by_the_floor_of_the_class(f, p, d, p.min_idle.worktree_days);
    too_recent_is_by_the_floor_of_the_class(f, p, d, p.min_idle.cache_days);
}

/// A protected path is refused, for the first pattern that matches it, and no other path is.
pub proof fn protection_refuses(f: FactsView, p: PolicyView, pattern: Seq<char>)
    ensures
        gives(f, p, ReasonView::Protected { pattern })
            <==> exists|k: int|
            0 <= k < p.protect.len() && pattern == #[trigger] p.protect[k] && glob_matches(
                pattern,
                f.candidate.path,
            ) && forall|j: int|
                0 <= j < k ==> !glob_matches(#[trigger] p.protect[j], f.candidate.path),
{
    lemma_gives(f, p, ReasonView::Protected { pattern });
    first_pattern_protects(p.protect, f.candidate.path);
    if exists|k: int|
        0 <= k < p.protect.len() && pattern == #[trigger] p.protect[k] && glob_matches(
            pattern,
            f.candidate.path,
        ) && forall|j: int|
            0 <= j < k ==> !glob_matches(#[trigger] p.protect[j], f.candidate.path) {
        let k = choose|k: int|
            0 <= k < p.protect.len() && pattern == #[trigger] p.protect[k] && glob_matches(
                pattern,
                f.candidate.path,
            ) && forall|j: int|
                0 <= j < k ==> !glob_matches(#[trigger] p.protect[j], f.candidate.path);
        lemma_first_match_at(p.protect, f.candidate.path, k);
    }
}

/// A cache that was not opted in is refused for that, and nothing else is.
pub proof fn caches_refuse_unless_opted_in(f: FactsView, p: PolicyView)
    ensures
        gives(f, p, ReasonView::CachesExcluded)
            <==> f.candidate.safety_class is PackageCache && !p.include_caches,
{
    lemma_gives(f, p, ReasonView::CachesExcluded);
}

/// A candidate below the minimum size is refused for that, with both sizes, and no other is.
pub proof fn small_candidates_refuse(f: FactsView, p: PolicyView, size: u64, least: u64)
    ensures
        gives(f, p, ReasonView::TooSmall { size_bytes: size, min_size_bytes: least })
            <==> f.size_bytes == Some(size) && size < least && least == p.min_size_bytes,
{
    lemma_gives(f, p, ReasonView::TooSmall { size_bytes: size, min_size_bytes: least });
}

/// Processes inside are refused, with their numbers, and nothing else is refused so.
pub proof fn live_processes_refuse(f: FactsView, p: PolicyView, pids: Seq<u32>)
    ensures
        gives(f, p, ReasonView::LiveProcess { pids })
            <==> f.live_pids == Some(pids) && pids.len() > 0,
{
    lemma_gives(f, p, ReasonView::LiveProcess { pids });
}

/// A build is refused, with the processes inside as far as they are known, and nothing else is
/// refused so.
pub proof fn active_build_refuses(f: FactsView, p: PolicyView, pids: Seq<u32>)
    ensures
        gives(f, p, ReasonView::ActiveBuild { pids })
            <==> f.active_build == Some(true) && (f.live_pids == Some(pids) || (f.live_pids is None
            && pids.len() == 0)),
{
    lemma_gives(f, p, ReasonView::ActiveBuild { pids });
    if pids.len() == 0 {
        assert(pids =~= Seq::<u32>::empty());
    }
}

/// What is on another device is refused, and nothing else is refused so.
pub proof fn other_devices_refuse(f: FactsView, p: PolicyView)
    ensures
        gives(f, p, ReasonView::CrossDevice)
            <==> f.same_device == Some(false),
{
    lemma_gives(f, p, ReasonView::CrossDevice);
}

/// What is in a cloud is refused, and nothing else is refused so.
pub proof fn clouds_refuse(f: FactsView, p: PolicyView)
    ensures
        gives(f, p, ReasonView::CloudBacked)
            <==> f.cloud_backed == Some(true),
{
    lemma_gives(f, p, ReasonView::CloudBacked);
}

proof fn lemma_gives(f: FactsView, p: PolicyView, r: ReasonView)
    ensures
        gives(f, p, r) <==> violated(f, p, r),
{
    reveal(gives);
    refusals_are_the_violations(f, p, r);
    lemma_refused_iff_not_clean(f, p);
}

/// The place of a reason in a refusal.
pub open spec fn place_of(r: ReasonView) -> int {
    match r {
        ReasonView::Protected { .. } => 0,
        ReasonView::CachesExcluded => 1,
        ReasonView::LiveProcess { .. } => 2,
        ReasonView::ActiveBuild { .. } => 3,
        ReasonView::CrossDevice => 4,
        ReasonView::CloudBacked => 5,
        ReasonView::TooRecent { .. } => 6,
        ReasonView::TooSmall { .. } => 7,
        ReasonView::Dirty { .. } => 8,
        ReasonView::UnpushedCommits { .. } => 9,
        ReasonView::Locked { .. } => 10,
        ReasonView::Detached { .. } => 11,
        ReasonView::Unknown { what } => if what == "live_pids"@ {
            2
        } else if what == "active_build"@ {
            3
        } else if what == "same_device"@ {
            4
        } else if what == "cloud_backed"@ {
            5
        } else if what == "idle_days"@ {
            6
        } else if what == "size_bytes"@ {
            7
        } else if what == "git"@ || what == "git.dirty_entries"@ {
            8
        } else if what == "git.unpushed_commits"@ {
            9
        } else if what == "git.lock"@ {
            10
        } else {
            11
        },
    }
}

/// The reasons stand in the order of their places, each before `end`.
spec fn in_places(reasons: Seq<ReasonView>, end: int) -> bool {
    &&& forall|i: int| 0 <= i < reasons.len() ==> place_of(#[trigger] reasons[i]) < end
    &&& forall|i: int, j: int|
        0 <= i < j < reasons.len() ==> place_of(#[trigger] reasons[i]) < place_of(
            #[trigger] reasons[j],
        )
}

proof fn lemma_next_place(reasons: Seq<ReasonView>, gate: Seq<ReasonView>, end: int)
    requires
        in_places(reasons, end),
        gate.len() <= 1,
        gate.len() == 1 ==> place_of(gate[0]) == end,
    ensures
        in_places(reasons + gate, end + 1),
{
    let all = reasons + gate;
    assert forall|i: int| 0 <= i < all.len() implies place_of(#[trigger] all[i]) < end + 1 by {
        if i < reasons.len() {
            assert(all[i] == reasons[i]);
        } else {
            assert(all[i] == gate[0]);
        }
    }
    assert forall|i: int, j: int| 0 <= i < j < all.len() implies place_of(#[trigger] all[i])
        < place_of(#[trigger] all[j]) by {
        assert(all[i] == reasons[i]);
        if j < reasons.len() {
            assert(all[j] == reasons[j]);
        } else {
            assert(all[j] == gate[0]);
        }
    }
}

proof fn lemma_names_differ()
    ensures
        "live_pids"@[0] == 'l',
        "active_build"@[0] == 'a',
        "same_device"@[0] == 's' && "same_device"@.len() == 11,
        "cloud_backed"@[0] == 'c',
        "idle_days"@[0] == 'i',
        "size_bytes"@[0] == 's' && "size_bytes"@.len() == 10,
        "git"@[0] == 'g' && "git"@.len() == 3,
        "git.dirty_entries"@[0] == 'g' && "git.dirty_entries"@.len() == 17,
        "git.unpushed_commits"@[0] == 'g' && "git.unpushed_commits"@.len() == 20,
        "git.lock"@[0] == 'g' && "git.lock"@.len() == 8 && "git.lock"@[4] == 'l',
        "git.head"@[0] == 'g' && "git.head"@.len() == 8 && "git.head"@[4] == 'h',
{
    reveal_strlit("live_pids");
    reveal_strlit("active_build");
    reveal_strlit("same_device");
    reveal_strlit("cloud_backed");
    reveal_strlit("idle_days");
    reveal_strlit("size_bytes");
    reveal_strlit("git");
    reveal_strlit("git.dirty_entries");
    reveal_strlit("git.unpushed_commits");
    reveal_strlit("git.lock");
    reveal_strlit("git.head");
}

proof fn lemma_git_places(f: FactsView, reasons: Seq<ReasonView>)
    requires
        in_places(reasons, 8),
    ensures
        in_places(reasons + git_gate(f), 12),
{
    lemma_names_differ();
    if f.candidate.safety_class is GitWorktree && f.git is Some {
        let g = f.git->0;
        lemma_next_place(reasons, dirty_gate(g), 8);
        lemma_next_place(reasons + dirty_gate(g), unpushed_gate(g), 9);
        lemma_next_place(reasons + dirty_gate(g) + unpushed_gate(g), lock_gate(g), 10);
        lemma_next_place(
            reasons + dirty_gate(g) + unpushed_gate(g) + lock_gate(g),
            head_gate(g),
            11,
        );
        assert(reasons + git_gate(f) =~= reasons + dirty_gate(g) + unpushed_gate(g) + lock_gate(g)
            + head_gate(g));
    } else {
        lemma_next_place(reasons, git_gate(f), 8);
    }
}

/// The reasons of a refusal stand in one order, each once: protection, caches, processes, builds,
/// devices, clouds, idleness, size, and then what a worktree holds.
pub proof fn reasons_are_in_order(f: FactsView, p: PolicyView)
    ensures
        verdict(f, p) matches Some(reasons) ==> forall|i: int, j: int|
            0 <= i < j < reasons.len() ==> place_of(#[trigger] reasons[i]) < place_of(
                #[trigger] reasons[j],
            ),
{
    lemma_names_differ();
    let none = Seq::<ReasonView>::empty();
    let g0 = protect_gate(f, p);
    let g1 = g0 + cache_gate(f, p);
    let g2 = g1 + live_gate(f);
    let g3 = g2 + build_gate(f);
    let g4 = g3 + device_gate(f);
    let g5 = g4 + cloud_gate(f);
    let g6 = g5 + idle_gate(f, p);
    let g7 = g6 + size_gate(f, p);
    assert(none + g0 =~= g0);
    lemma_next_place(none, g0, 0);
    lemma_next_place(g0, cache_gate(f, p), 1);
    lemma_next_place(g1, live_gate(f), 2);
    lemma_next_place(g2, build_gate(f), 3);
    lemma_next_place(g3, device_gate(f), 4);
    lemma_next_place(g4, cloud_gate(f), 5);
    lemma_next_place(g5, idle_gate(f, p), 6);
    lemma_next_place(g6, size_gate(f, p), 7);
    lemma_git_places(f, g7);
}

/// A worktree that diverges from what is committed is refused, with how much does, and nothing else
/// is refused so.
pub proof fn dirty_worktrees_refuse(f: FactsView, p: PolicyView, entries: usize)
    ensures
        gives(f, p, ReasonView::Dirty { entries })
            <==> f.candidate.safety_class is GitWorktree && f.git is Some
            && f.git->0.dirty_entries == Some(entries) && entries > 0,
{
    lemma_gives(f, p, ReasonView::Dirty { entries });
}

/// A worktree with unpushed commits is refused, with how many they are, and nothing else is refused
/// so.
pub proof fn unpushed_worktrees_refuse(f: FactsView, p: PolicyView, count: u64)
    ensures
        gives(f, p, ReasonView::UnpushedCommits { count })
            <==> f.candidate.safety_class is GitWorktree && f.git is Some
            && f.git->0.unpushed_commits == Some(count) && count > 0,
{
    lemma_gives(f, p, ReasonView::UnpushedCommits { count });
}

/// A locked worktree is refused, with the note of its lock, and nothing else is refused so.
pub proof fn locked_worktrees_refuse(f: FactsView, p: PolicyView, note: Option<Seq<char>>)
    ensures
        gives(f, p, ReasonView::Locked { note })
            <==> f.candidate.safety_class is GitWorktree && f.git is Some && f.git->0.lock == Some(
            LockView::Locked { note },
        ),
{
    lemma_gives(f, p, ReasonView::Locked { note });
}

/// A worktree on no branch is refused, with the commits that only it reaches, and nothing else is
/// refused so.
pub proof fn detached_worktrees_refuse(f: FactsView, p: PolicyView, count: u64)
    ensures
        gives(f, p, ReasonView::Detached { unreachable_commits: count })
            <==> f.candidate.safety_class is GitWorktree && f.git is Some && f.git->0.head == Some(
            HeadView::Detached { unreachable_commits: count },
        ),
{
    lemma_gives(f, p, ReasonView::Detached { unreachable_commits: count });
}

/// Doubt refuses: each fact that is not established is named, and no fact that is.
pub proof fn doubt_refuses(f: FactsView, p: PolicyView, what: Seq<char>)
    ensures
        gives(f, p, ReasonView::Unknown { what })
            <==> {
            ||| what == "live_pids"@ && f.live_pids is None
            ||| what == "active_build"@ && f.active_build is None
            ||| what == "same_device"@ && f.same_device is None
            ||| what == "cloud_backed"@ && f.cloud_backed is None
            ||| what == "idle_days"@ && f.idle_days is None
            ||| what == "size_bytes"@ && f.size_bytes is None
            ||| f.candidate.safety_class is GitWorktree && {
                ||| what == "git"@ && f.git is None
                ||| what == "git.dirty_entries"@ && f.git is Some && f.git->0.dirty_entries is None
                ||| what == "git.unpushed_commits"@ && f.git is Some
                    && f.git->0.unpushed_commits is None
                ||| what == "git.lock"@ && f.git is Some && f.git->0.lock is None
                ||| what == "git.head"@ && f.git is Some && f.git->0.head is None
            }
        },
{
    lemma_gives(f, p, ReasonView::Unknown { what });
    lemma_missing(f, what);
}

proof fn lemma_missing(f: FactsView, what: Seq<char>)
    ensures
        missing(f, what) <==> {
            ||| what == "live_pids"@ && f.live_pids is None
            ||| what == "active_build"@ && f.active_build is None
            ||| what == "same_device"@ && f.same_device is None
            ||| what == "cloud_backed"@ && f.cloud_backed is None
            ||| what == "idle_days"@ && f.idle_days is None
            ||| what == "size_bytes"@ && f.size_bytes is None
            ||| f.candidate.safety_class is GitWorktree && {
                ||| what == "git"@ && f.git is None
                ||| what == "git.dirty_entries"@ && f.git is Some && f.git->0.dirty_entries is None
                ||| what == "git.unpushed_commits"@ && f.git is Some
                    && f.git->0.unpushed_commits is None
                ||| what == "git.lock"@ && f.git is Some && f.git->0.lock is None
                ||| what == "git.head"@ && f.git is Some && f.git->0.head is None
            }
        },
{
}

/// What was once admitted is reapable under some policy, whose protect list and floors it passed.
pub proof fn admitted_was_reapable(f: FactsView)
    requires
        admissible(f),
    ensures
        exists|p: PolicyView| #[trigger] verdict(f, p) is None,
        f.live_pids == Some(Seq::<u32>::empty()),
        f.active_build == Some(false),
        f.same_device == Some(true),
        f.cloud_backed == Some(false),
        f.candidate.safety_class is GitWorktree ==> f.git is Some && f.git->0.dirty_entries
            == Some(0usize) && f.git->0.unpushed_commits == Some(0u64) && f.git->0.lock == Some(
            LockView::Unlocked,
        ),
{
    let p = choose|p: PolicyView| #[trigger] all_clean(f, p);
    reapable_needs_every_gate(f, p);
}

/// The floor of each class is the field of the policy for it.
pub proof fn floors_are_by_class(idle: IdlePolicy, class: SafetyView)
    ensures
        class is Regenerable ==> idle_floor(idle, class) == idle.regenerable_days,
        class is GitWorktree ==> idle_floor(idle, class) == idle.worktree_days,
        class is PackageCache ==> idle_floor(idle, class) == idle.cache_days,
{
}

/// A protect list is rejected for the first pattern that is none, with why; where all are patterns,
/// for what they are together.
pub proof fn protect_lists_are_rejected(patterns: Seq<Seq<char>>, k: int)
    ensures
        0 <= k < patterns.len() && glob_error(patterns[k]) is Some && (forall|j: int|
            0 <= j < k ==> glob_error(#[trigger] patterns[j]) is None) ==> protect_error(patterns)
            == glob_error(patterns[k]),
        (forall|j: int| 0 <= j < patterns.len() ==> glob_error(#[trigger] patterns[j]) is None)
            ==> protect_error(patterns) == glob_set_error(patterns),
{
    if 0 <= k < patterns.len() && glob_error(patterns[k]) is Some && (forall|j: int|
        0 <= j < k ==> glob_error(#[trigger] patterns[j]) is None) {
        let i = first_rejected(patterns);
        assert(0 <= i < patterns.len() && glob_error(patterns[i]) is Some && forall|j: int|
            0 <= j < i ==> glob_error(#[trigger] patterns[j]) is None);
        assert(i == k) by {
            if i < k {
                assert(glob_error(patterns[i]) is None);
            }
            if k < i {
                assert(glob_error(patterns[k]) is None);
            }
        }
    }
}

/// Of a candidate that was not probed nothing is known.
pub proof fn nothing_is_known_at_first(c: CandidateView)
    ensures
        ({
            let f = unprobed_facts(c);
            &&& f.candidate == c
            &&& f.size_bytes is None && f.idle_days is None && f.live_pids is None
            &&& f.active_build is None && f.same_device is None && f.cloud_backed is None
            &&& f.git is None
        }),
{
}

/// The floors that hold where the user sets none.
pub proof fn floors_by_default()
    ensures
        default_idle().worktree_days == 7,
        default_idle().regenerable_days == 3,
        default_idle().cache_days == 30,
{
}

} // verus!
