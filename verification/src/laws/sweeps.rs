//! Sweeps: which process is inside of which directory.

use crate::paths::path_is_relative;
use crate::sweep::{
    answers_for, ascending, bare, files_among, hit_list, is_inside, noted, restart_manager_says,
    seen_after, SweepView,
};
use vstd::prelude::*;

verus! {

/// A path is inside of a directory where it is the directory, or the directory, a slash and
/// something more. A sibling whose name begins alike is not.
pub proof fn inside_is_at_or_below(path: Seq<char>, dir: Seq<char>)
    requires
        dir.len() > 0,
        dir.last() != '/',
    ensures
        is_inside(path, dir) <==> path == dir || exists|rest: Seq<char>|
            path == #[trigger] (dir.push('/') + rest),
{
    assert(bare(dir) == dir);
    let start = dir.push('/');
    if is_inside(path, dir) && path != dir {
        if bare(path) == dir {
            lemma_bare_is_a_start(path);
            assert(path.take(dir.len() as int) == dir);
            assert(path.len() > dir.len()) by {
                if path.len() == dir.len() {
                    assert(path.take(dir.len() as int) =~= path);
                }
            }
            assert(path[dir.len() as int] == '/');
        } else {
            assert(path.take(start.len() as int) == start);
            assert(path[dir.len() as int] == path.take(start.len() as int)[dir.len() as int]);
            assert(path.take(dir.len() as int) =~= path.take(start.len() as int).take(
                dir.len() as int,
            ));
            assert(start.take(dir.len() as int) =~= dir);
        }
        assert(path =~= start + path.skip(start.len() as int)) by {
            assert forall|i: int| 0 <= i < start.len() implies path[i] == start[i] by {
                if i < dir.len() {
                    assert(path.take(dir.len() as int)[i] == path[i]);
                }
            }
        }
    }
    if exists|rest: Seq<char>| path == #[trigger] (start + rest) {
        let rest = choose|rest: Seq<char>| path == #[trigger] (start + rest);
        assert((start + rest).take(start.len() as int) =~= start);
    }
}

/// Everything absolute is inside of the root.
pub proof fn everything_is_inside_of_the_root(path: Seq<char>)
    requires
        path.len() > 0,
    ensures
        is_inside(path, seq!['/']) <==> path[0] == '/',
{
    let root = seq!['/'];
    assert(root.drop_last() =~= seq![]);
    assert(bare(root) == bare(root.drop_last()));
    assert(bare(root) =~= seq![]);
    let start = bare(root).push('/');
    assert(start =~= root);
    lemma_bare_is_a_start(path);
    if path[0] == '/' {
        assert(path.take(1) =~= root);
    } else {
        if bare(path).len() == 0 {
            assert(path[0] == '/');
        }
        if path.take(1) == root {
            assert(path.take(1)[0] == root[0]);
        }
    }
}

proof fn lemma_bare_is_a_start(path: Seq<char>)
    ensures
        bare(path).len() <= path.len(),
        path.take(bare(path).len() as int) == bare(path),
        forall|i: int| bare(path).len() <= i < path.len() ==> path[i] == '/',
    decreases path.len(),
{
    if path.len() > 0 && path.last() == '/' {
        let rest = path.drop_last();
        lemma_bare_is_a_start(rest);
        assert(path.take(bare(rest).len() as int) =~= rest.take(bare(rest).len() as int));
        assert forall|i: int| bare(path).len() <= i < path.len() implies path[i] == '/' by {
            if i < rest.len() {
                assert(path[i] == rest[i]);
            }
        }
    } else {
        assert(path.take(path.len() as int) =~= path);
    }
}

/// The directories that a path hits are all those that it is inside of, by their positions, in
/// order, each once.
pub proof fn every_directory_is_hit(dirs: Seq<Seq<char>>, path: Seq<char>)
    requires
        dirs.len() <= usize::MAX,
    ensures
        forall|i: int|
            0 <= i < dirs.len() ==> (hit_list(dirs, path).contains(i as usize) <==> is_inside(
                path,
                #[trigger] dirs[i],
            )),
        forall|k: int|
            0 <= k < hit_list(dirs, path).len() ==> (#[trigger] hit_list(dirs, path)[k])
                < dirs.len(),
        forall|j: int, k: int|
            0 <= j < k < hit_list(dirs, path).len() ==> (#[trigger] hit_list(dirs, path)[j]) < (
            #[trigger] hit_list(dirs, path)[k]),
    decreases dirs.len(),
{
    if dirs.len() > 0 {
        let before = dirs.drop_last();
        let n = before.len() as int;
        let rest = hit_list(before, path);
        let all = hit_list(dirs, path);
        every_directory_is_hit(before, path);
        assert forall|k: int| 0 <= k < rest.len() implies all[k] == rest[k] by {}
        assert forall|i: int| 0 <= i < dirs.len() implies (all.contains(i as usize) <==> is_inside(
            path,
            #[trigger] dirs[i],
        )) by {
            if i < n {
                assert(before[i] == dirs[i]);
                if rest.contains(i as usize) {
                    let k = choose|k: int| 0 <= k < rest.len() && rest[k] == i as usize;
                    assert(all[k] == i as usize);
                }
                if all.contains(i as usize) {
                    let k = choose|k: int| 0 <= k < all.len() && all[k] == i as usize;
                    assert(k < rest.len());
                    assert(rest[k] == i as usize);
                }
            } else {
                if is_inside(path, dirs[i]) {
                    assert(all[rest.len() as int] == i as usize);
                }
                if all.contains(i as usize) {
                    let k = choose|k: int| 0 <= k < all.len() && all[k] == i as usize;
                    if k < rest.len() {
                        assert(rest[k] < n);
                    }
                }
            }
        }
    }
}

/// A sighting adds the process that was seen, where it was seen inside and is not the sweeping one,
/// and takes none away.
pub proof fn sightings_add_who_was_seen(
    pids: Set<u32>,
    me: u32,
    dir: Seq<char>,
    pid: u32,
    path: Seq<char>,
    other: u32,
)
    ensures
        seen_after(pids, me, dir, pid, path).contains(other) <==> pids.contains(other) || (other
            == pid && pid != me && is_inside(path, dir)),
{
}

/// Ascending numbers are each less than the next.
pub proof fn ascending_is_strict(pids: Seq<u32>)
    ensures
        ascending(pids) <==> forall|i: int|
            0 <= i < pids.len() - 1 ==> #[trigger] pids[i] < pids[i + 1],
{
    if forall|i: int| 0 <= i < pids.len() - 1 ==> #[trigger] pids[i] < pids[i + 1] {
        assert forall|i: int, j: int| 0 <= i < j < pids.len() implies pids[i] < pids[j] by {
            lemma_ascending(pids, i, j);
        }
    }
}

proof fn lemma_ascending(pids: Seq<u32>, i: int, j: int)
    requires
        0 <= i < j < pids.len(),
        forall|i: int| 0 <= i < pids.len() - 1 ==> #[trigger] pids[i] < pids[i + 1],
    ensures
        pids[i] < pids[j],
    decreases j - i,
{
    if i + 1 < j {
        lemma_ascending(pids, i, j - 1);
    }
    assert(pids[j - 1] < pids[j - 1 + 1]);
}

/// Of the first entries the files are taken, and all of them, in order.
pub proof fn files_are_taken(entries: Seq<(String, bool)>, n: int)
    requires
        0 <= n <= entries.len(),
    ensures
        files_among(entries, n) == entries.take(n).filter(|e: (String, bool)| e.1).map_values(
            |e: (String, bool)| e.0@,
        ),
        crate::sweep::SAMPLE_FILES == 24,
    decreases n,
{
    reveal(Seq::filter);
    let pred = |e: (String, bool)| e.1;
    let name = |e: (String, bool)| e.0@;
    if n == 0 {
        assert(files_among(entries, n) =~= entries.take(n).filter(pred).map_values(name));
    } else {
        files_are_taken(entries, n - 1);
        assert(entries.take(n).drop_last() =~= entries.take(n - 1));
        assert(entries.take(n).last() == entries[n - 1]);
        assert(files_among(entries, n) =~= entries.take(n).filter(pred).map_values(name));
    }
}

/// Where libproc puts the paths of a process.
pub proof fn libproc_layout()
    ensures
        crate::sweep::VNODEPATHINFO_LEN == 2352,
        crate::sweep::CDIR_PATH_OFF == 152,
        crate::sweep::FDINFOWITHPATH_LEN == 1200,
        crate::sweep::FD_PATH_OFF == 176,
{
}

/// A sighting counts for every directory, each by itself.
pub proof fn sightings_count_for_every_directory(s: SweepView, pid: u32, path: Seq<char>, i: int)
    requires
        0 <= i < s.pids.len(),
    ensures
        noted(s, pid, path).me == s.me,
        noted(s, pid, path).dirs == s.dirs,
        noted(s, pid, path).pids.len() == s.pids.len(),
        forall|other: u32|
            noted(s, pid, path).pids[i].contains(other) <==> s.pids[i].contains(other) || (other
                == pid && pid != s.me && is_inside(path, s.dirs[i])),
{
}

/// Of a relative directory nothing is said; of another, everyone who was seen in it, and nobody else,
/// each once, ascending.
pub proof fn answers_are_who_was_seen(dir: Seq<char>, pids: Set<u32>, answer: Option<Seq<u32>>)
    requires
        answers_for(dir, pids, answer),
    ensures
        answer is None <==> path_is_relative(dir),
        answer matches Some(list) ==> {
            &&& forall|pid: u32| #[trigger] list.contains(pid) <==> pids.contains(pid)
            &&& forall|i: int, j: int| 0 <= i < j < list.len() ==> list[i] < list[j]
        },
{
    if let Some(list) = answer {
        assert forall|pid: u32| #[trigger] list.contains(pid) <==> pids.contains(pid) by {
            assert(list.to_set().contains(pid) <==> list.contains(pid));
        }
    }
}

/// The Restart Manager says who holds the files, but for the sweeping process; nothing where it
/// failed, and nobody where it was asked for no file.
pub proof fn restart_managers_say_who_holds_files(
    registered: usize,
    listed: Seq<u32>,
    me: u32,
    answer: Option<Seq<u32>>,
)
    ensures
        registered == 0 && restart_manager_says(registered, Some(listed), me, answer) ==> answer
            == Some(Seq::<u32>::empty()),
        registered == 0 && restart_manager_says(registered, None, me, answer) ==> answer == Some(
            Seq::<u32>::empty(),
        ),
        registered > 0 && restart_manager_says(registered, None, me, answer) ==> answer is None,
        registered > 0 && restart_manager_says(registered, Some(listed), me, answer) ==> {
            &&& answer is Some
            &&& forall|pid: u32| #[trigger]
                answer->0.contains(pid) <==> listed.contains(pid) && pid != me
            &&& forall|i: int, j: int|
                0 <= i < j < answer->0.len() ==> answer->0[i] < answer->0[j]
        },
{
    if registered > 0 && restart_manager_says(registered, Some(listed), me, answer) {
        let list = answer->0;
        assert forall|pid: u32| #[trigger] list.contains(pid) <==> listed.contains(pid) && pid
            != me by {
            assert(list.to_set().contains(pid) <==> list.contains(pid));
            assert(listed.to_set().contains(pid) <==> listed.contains(pid));
        }
    }
}

} // verus!
