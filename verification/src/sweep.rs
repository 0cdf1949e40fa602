//! The live-process sweep: which processes have their working directory or an
//! open file inside a candidate directory? One pass over the process table
//! answers for all candidates; the sweeping process itself is left out (its own
//! scan would refuse every candidate).

use crate::bytes::{c_text, cstr_at};
use crate::paths::{is_relative, path_is_relative};
use crate::text::{
    chars_of, lemma_views_push, parse_number, parsed_number, stands_at, text_starts_with, views,
};
use vstd::prelude::*;
use vstd::slice::slice_subrange;

verus! {

/// A path without the slashes at its end.
pub open spec fn bare(path: Seq<char>) -> Seq<char>
    decreases path.len(),
{
    if path.len() > 0 && path.last() == '/' {
        bare(path.drop_last())
    } else {
        path
    }
}

/// `path` is `dir` or lies below it, however many slashes stand at the end of
/// either. Boundary-aware: a sibling with the same prefix does not.
pub open spec fn is_inside(path: Seq<char>, dir: Seq<char>) -> bool {
    bare(path) == bare(dir) || text_starts_with(path, bare(dir).push('/'))
}

/// No slash stands at the end of a bare path.
proof fn lemma_bare_ends(path: Seq<char>)
    ensures
        bare(path).len() > 0 ==> bare(path).last() != '/',
        bare(bare(path)) == bare(path),
    decreases path.len(),
{
    if path.len() > 0 && path.last() == '/' {
        lemma_bare_ends(path.drop_last());
    }
}

/// Slashes at the end of either path change nothing.
pub proof fn slashes_at_the_end_are_ignored(path: Seq<char>, dir: Seq<char>)
    ensures
        is_inside(path, dir.push('/')) == is_inside(path, dir),
        is_inside(path.push('/'), dir) == is_inside(path, dir),
{
    let longer = path.push('/');
    let start = bare(dir).push('/');
    let n = start.len() as int;
    assert(dir.push('/').drop_last() =~= dir);
    assert(longer.drop_last() =~= path);
    lemma_bare_ends(dir);
    if path.len() >= n {
        assert(longer.take(n) =~= path.take(n));
    } else if text_starts_with(longer, start) {
        assert(path =~= longer.take(n).drop_last());
        assert(start.drop_last() =~= bare(dir));
    }
}

/// A directory is inside itself, and so is what is joined to it with a slash.
pub proof fn inside_below(dir: Seq<char>, rest: Seq<char>)
    ensures
        is_inside(dir, dir),
        is_inside(bare(dir).push('/') + rest, dir),
{
    let start = bare(dir).push('/');
    assert((start + rest).take(start.len() as int) =~= start);
}

/// How long a path is without the slashes at its end.
fn bare_len(path: &[char]) -> (r: usize)
    ensures
        r <= path@.len(),
        path@.take(r as int) == bare(path@),
{
    let mut n: usize = path.len();
    assert(path@.take(n as int) =~= path@);
    while n > 0 && path[n - 1] == '/'
        invariant
            n <= path@.len(),
            bare(path@.take(n as int)) == bare(path@),
        decreases n,
    {
        assert(path@.take(n as int).drop_last() =~= path@.take(n - 1));
        n -= 1;
    }
    n
}

fn inside(path: &[char], dir: &[char]) -> (r: bool)
    ensures
        r == is_inside(path@, dir@),
{
    let n = bare_len(dir);
    let m = bare_len(path);
    let base = slice_subrange(dir, 0, n);
    assert(base@ =~= bare(dir@));
    assert(bare(path@).len() == m);
    if path.len() < n {
        assert(!text_starts_with(path@, bare(dir@).push('/')));
        return false;
    }
    let same = stands_at(path, base, 0);
    proof {
        let k = n as int;
        assert(path@.subrange(0, k) =~= path@.take(k));
        if text_starts_with(path@, base@.push('/')) {
            assert(path@.take(k + 1)[k] == '/');
            assert(path@.take(k + 1).take(k) =~= base@.push('/').take(k));
            assert(path@.take(k + 1).take(k) =~= path@.take(k));
            assert(base@.push('/').take(k) =~= base@);
        }
        if same && path@.len() > k && path@[k] == '/' {
            assert(path@.take(k + 1) =~= base@.push('/'));
        }
    }
    same && (m == n || (path.len() > n && path[n] == '/'))
}

/// The positions of the directories that a path lies inside of, ascending.
pub open spec fn hit_list(dirs: Seq<Seq<char>>, path: Seq<char>) -> Seq<usize>
    decreases dirs.len(),
{
    if dirs.len() == 0 {
        seq![]
    } else {
        let rest = hit_list(dirs.drop_last(), path);
        if is_inside(path, dirs.last()) {
            rest.push((dirs.len() - 1) as usize)
        } else {
            rest
        }
    }
}

/// Which of `dirs` does `path` sit inside of? (A process can pin several
/// candidates.)
pub fn hits(dirs: &[String], path: &str) -> (r: Vec<usize>)
    ensures
        r@ == hit_list(views(dirs@), path@),
{
    let ghost all = views(dirs@);
    let chars = chars_of(path);
    let mut out: Vec<usize> = Vec::new();
    assert(out@ =~= hit_list(all.take(0), path@));
    for i in 0..dirs.len()
        invariant
            all == views(dirs@),
            chars@ == path@,
            out@ == hit_list(all.take(i as int), path@),
    {
        assert(all.take(i + 1).drop_last() =~= all.take(i as int));
        assert(all.take(i + 1).last() == dirs@[i as int]@);
        let dir = chars_of(dirs[i].as_str());
        if inside(chars.as_slice(), dir.as_slice()) {
            out.push(i);
        }
    }
    assert(all.take(all.len() as int) =~= all);
    out
}

/// The process that an entry of the process table names.
pub fn pid_of(name: &str) -> (r: Option<u32>)
    ensures
        r is Some <==> parsed_number(name@, u32::MAX as nat) is Some,
        r matches Some(pid) ==> parsed_number(name@, u32::MAX as nat) == Some(pid as nat),
{
    let chars = chars_of(name);
    match parse_number(chars.as_slice(), 0xffff_ffff) {
        Some(n) => Some(n as u32),
        None => None,
    }
}

/// Strictly ascending numbers.
pub open spec fn ascending(pids: Seq<u32>) -> bool {
    forall|i: int, j: int| 0 <= i < j < pids.len() ==> pids[i] < pids[j]
}

/// A sweep in progress: the directories, the sweeping process, and the
/// processes seen inside each directory so far.
pub struct Sweep {
    me: u32,
    dirs: Vec<Vec<char>>,
    relative: Vec<bool>,
    pids: Vec<Vec<u32>>,
}

/// The view of a [`Sweep`].
pub struct SweepView {
    pub me: u32,
    pub dirs: Seq<Seq<char>>,
    pub pids: Seq<Set<u32>>,
}

impl Sweep {
    /// There is a list for each directory, ascending and without the sweeping
    /// process, and it is known of each whether it is relative.
    pub closed spec fn wf(self) -> bool {
        &&& self.pids@.len() == self.dirs@.len()
        &&& self.relative@.len() == self.dirs@.len()
        &&& forall|i: int|
            0 <= i < self.dirs@.len() ==> (#[trigger] self.relative@[i]) == path_is_relative(
                self.dirs@[i]@,
            )
        &&& forall|i: int|
            0 <= i < self.pids@.len() ==> ascending((#[trigger] self.pids@[i])@)
                && !self.pids@[i]@.contains(self.me)
    }
}

impl View for Sweep {
    type V = SweepView;

    closed spec fn view(&self) -> SweepView {
        SweepView {
            me: self.me,
            dirs: Seq::new(self.dirs@.len(), |i: int| self.dirs@[i]@),
            pids: Seq::new(self.pids@.len(), |i: int| self.pids@[i]@.to_set()),
        }
    }
}

/// The processes seen inside one directory, after a process was seen at a path.
pub open spec fn seen_after(
    pids: Set<u32>,
    me: u32,
    dir: Seq<char>,
    pid: u32,
    path: Seq<char>,
) -> Set<u32> {
    if pid != me && is_inside(path, dir) {
        pids.insert(pid)
    } else {
        pids
    }
}

/// The sweep after a process was seen at a path.
pub open spec fn noted(sweep: SweepView, pid: u32, path: Seq<char>) -> SweepView {
    SweepView {
        pids: Seq::new(
            sweep.pids.len(),
            |i: int| seen_after(sweep.pids[i], sweep.me, sweep.dirs[i], pid, path),
        ),
        ..sweep
    }
}

/// What a sweep says of a directory in which it has seen these processes.
pub open spec fn answers_for(dir: Seq<char>, pids: Set<u32>, answer: Option<Seq<u32>>) -> bool {
    match answer {
        None => path_is_relative(dir),
        Some(list) => !path_is_relative(dir) && ascending(list) && list.to_set() == pids,
    }
}

/// What the Restart Manager sweep says of a candidate.
pub open spec fn restart_manager_says(
    registered: usize,
    listed: Option<Seq<u32>>,
    me: u32,
    answer: Option<Seq<u32>>,
) -> bool {
    if registered == 0 {
        answer == Some(Seq::<u32>::empty())
    } else {
        match (listed, answer) {
            (None, None) => true,
            (Some(listed), Some(list)) => ascending(list) && list.to_set()
                == listed.to_set().remove(me),
            _ => false,
        }
    }
}

/// The order in which processes are seen does not matter.
pub proof fn sightings_commute(
    pids: Set<u32>,
    me: u32,
    dir: Seq<char>,
    a: (u32, Seq<char>),
    b: (u32, Seq<char>),
)
    ensures
        seen_after(seen_after(pids, me, dir, a.0, a.1), me, dir, b.0, b.1) == seen_after(
            seen_after(pids, me, dir, b.0, b.1),
            me,
            dir,
            a.0,
            a.1,
        ),
{
    assert(pids.insert(a.0).insert(b.0) =~= pids.insert(b.0).insert(a.0));
}

fn insert_pid(pids: &mut Vec<u32>, pid: u32)
    requires
        ascending(old(pids)@),
    ensures
        ascending(final(pids)@),
        final(pids)@.to_set() == old(pids)@.to_set().insert(pid),
        forall|x: u32| #[trigger]
            final(pids)@.contains(x) <==> old(pids)@.contains(x) || x == pid,
{
    let ghost start = pids@;
    let mut at: usize = 0;
    while at < pids.len() && pids[at] < pid
        invariant
            pids@ == start,
            at <= start.len(),
            forall|i: int| 0 <= i < at ==> start[i] < pid,
        decreases start.len() - at,
    {
        at += 1;
    }
    if at < pids.len() && pids[at] == pid {
        assert(start[at as int] == pid);
        assert(start.to_set() =~= start.to_set().insert(pid));
        return;
    }
    pids.insert(at, pid);
    proof {
        let end = pids@;
        assert forall|x: u32| #[trigger] end.contains(x) <==> start.contains(x) || x == pid by {
            if start.contains(x) {
                let i = choose|i: int| 0 <= i < start.len() && start[i] == x;
                assert(end[if i < at {
                    i
                } else {
                    i + 1
                }] == x);
            }
            if x == pid {
                assert(end[at as int] == x);
            }
            if end.contains(x) {
                let i = choose|i: int| 0 <= i < end.len() && end[i] == x;
                if i < at {
                    assert(start[i] == x);
                } else if i > at {
                    assert(start[i - 1] == x);
                }
            }
        }
        assert(end.to_set() =~= start.to_set().insert(pid));
    }
}

impl Sweep {
    /// A sweep over these directories that has seen nothing yet.
    pub fn new(dirs: &[String], me: u32) -> (r: Self)
        ensures
            r.wf(),
            r@.me == me,
            r@.dirs == views(dirs@),
            r@.pids == Seq::new(dirs@.len(), |i: int| Set::<u32>::empty()),
    {
        let mut paths: Vec<Vec<char>> = Vec::new();
        let mut relative: Vec<bool> = Vec::new();
        let mut pids: Vec<Vec<u32>> = Vec::new();
        for i in 0..dirs.len()
            invariant
                paths@.len() == i,
                relative@.len() == i,
                forall|j: int|
                    0 <= j < i ==> (#[trigger] relative@[j]) == path_is_relative(dirs@[j]@),
                pids@.len() == i,
                forall|j: int| 0 <= j < i ==> (#[trigger] paths@[j])@ == dirs@[j]@,
                forall|j: int| 0 <= j < i ==> (#[trigger] pids@[j])@.len() == 0,
        {
            paths.push(chars_of(dirs[i].as_str()));
            relative.push(is_relative(dirs[i].as_str()));
            pids.push(Vec::new());
        }
        let sweep = Sweep { me, dirs: paths, relative, pids };
        assert(sweep@.dirs =~= views(dirs@));
        assert forall|i: int| 0 <= i < dirs@.len() implies #[trigger] sweep@.pids[i] == Set::<
            u32,
        >::empty() by {
            assert(sweep.pids@[i]@.to_set() =~= Set::<u32>::empty());
        }
        assert(sweep@.pids =~= Seq::new(dirs@.len(), |i: int| Set::<u32>::empty()));
        sweep
    }

    /// Takes in that a process has its working directory, or an open file, at a
    /// path.
    pub fn note(&mut self, pid: u32, path: &str)
        requires
            old(self).wf(),
        ensures
            final(self).wf(),
            final(self)@.me == old(self)@.me,
            final(self)@.dirs == old(self)@.dirs,
            final(self)@.pids == Seq::new(
                old(self)@.pids.len(),
                |i: int|
                    seen_after(
                        old(self)@.pids[i],
                        old(self)@.me,
                        old(self)@.dirs[i],
                        pid,
                        path@,
                    ),
            ),
            final(self)@ == noted(old(self)@, pid, path@),
    {
        let ghost start = self@;
        if pid == self.me {
            assert(self@.pids =~= Seq::new(
                start.pids.len(),
                |i: int| seen_after(start.pids[i], start.me, start.dirs[i], pid, path@),
            ));
            return;
        }
        let chars = chars_of(path);
        let mut i: usize = 0;
        while i < self.dirs.len()
            invariant
                self.wf(),
                pid != self.me,
                chars@ == path@,
                self@.me == start.me,
                self@.dirs == start.dirs,
                self@.pids.len() == start.pids.len() == start.dirs.len(),
                i <= self.dirs@.len() == start.dirs.len(),
                forall|j: int|
                    0 <= j < i ==> (#[trigger] self@.pids[j]) == seen_after(
                        start.pids[j],
                        start.me,
                        start.dirs[j],
                        pid,
                        path@,
                    ),
                forall|j: int|
                    i <= j < start.pids.len() ==> (#[trigger] self@.pids[j]) == start.pids[j],
            decreases self.dirs@.len() - i,
        {
            assert(self@.dirs[i as int] == self.dirs@[i as int]@);
            if inside(chars.as_slice(), self.dirs[i].as_slice()) {
                let ghost before = *self;
                assert(before@.pids[i as int] == start.pids[i as int]);
                assert(before@.pids[i as int] == before.pids@[i as int]@.to_set());
                insert_pid(&mut self.pids[i], pid);
                proof {
                    assert(self.dirs@ == before.dirs@);
                    assert forall|j: int| 0 <= j < self.pids@.len() && j != i implies (
                    #[trigger] self@.pids[j]) == before@.pids[j] by {
                        assert(self.pids@[j] == before.pids@[j]);
                    }
                    assert(self@.dirs =~= before@.dirs);
                    assert(self@.pids[i as int] == self.pids@[i as int]@.to_set());
                    assert forall|j: int| 0 <= j < self.pids@.len() implies ascending(
                        (#[trigger] self.pids@[j])@,
                    ) && !self.pids@[j]@.contains(self.me) by {
                        if j != i {
                            assert(self.pids@[j] == before.pids@[j]);
                        }
                    }
                }
            }
            i += 1;
        }
        assert(self@.pids =~= Seq::new(
            start.pids.len(),
            |i: int| seen_after(start.pids[i], start.me, start.dirs[i], pid, path@),
        ));
    }

    /// The processes seen inside each directory, ascending; the sweeping
    /// process is never among them. The process table holds absolute paths, so of
    /// a relative directory nothing is established.
    pub fn finish(self) -> (r: Vec<Option<Vec<u32>>>)
        requires
            self.wf(),
        ensures
            r@.len() == self@.pids.len() == self@.dirs.len(),
            forall|i: int|
                0 <= i < r@.len() ==> ((#[trigger] r@[i]) is None <==> path_is_relative(
                    self@.dirs[i],
                )),
            forall|i: int|
                0 <= i < r@.len() ==> ((#[trigger] r@[i]) matches Some(pids) ==> (ascending(pids@)
                    && pids@.to_set() == self@.pids[i] && !pids@.contains(self@.me))),
            forall|i: int|
                0 <= i < r@.len() ==> answers_for(
                    self@.dirs[i],
                    self@.pids[i],
                    match #[trigger] r@[i] {
                        Some(pids) => Some(pids@),
                        None => None,
                    },
                ),
    {
        let ghost view = self@;
        let ghost lists = self.pids@;
        let ghost me = self.me;
        let relative = self.relative;
        let mut out: Vec<Option<Vec<u32>>> = Vec::new();
        assert forall|i: int| 0 <= i < relative@.len() implies (#[trigger] relative@[i])
            == path_is_relative(view.dirs[i]) by {
            assert(view.dirs[i] == self.dirs@[i]@);
        }
        for pids in it: self.pids
            invariant
                it.seq() == lists,
                out@.len() == it.index(),
                me == view.me,
                view.pids.len() == lists.len(),
                relative@.len() == lists.len(),
                forall|i: int|
                    0 <= i < relative@.len() ==> (#[trigger] relative@[i]) == path_is_relative(
                        view.dirs[i],
                    ),
                forall|i: int| 0 <= i < lists.len() ==> view.pids[i] == (#[trigger] lists[i])@.to_set(),
                forall|i: int|
                    0 <= i < lists.len() ==> ascending((#[trigger] lists[i])@)
                        && !lists[i]@.contains(me),
                forall|i: int|
                    0 <= i < out@.len() ==> ((#[trigger] out@[i]) is None <==> relative@[i]),
                forall|i: int|
                    0 <= i < out@.len() ==> ((#[trigger] out@[i]) matches Some(pids) ==> pids@
                        == lists[i]@),
        {
            let i: usize = out.len();
            if relative[i] {
                out.push(None);
            } else {
                out.push(Some(pids));
            }
        }
        out
    }
}

/// What a sweep says of `n` directories where the process table cannot be read:
/// nothing is established.
pub fn unestablished(n: usize) -> (r: Vec<Option<Vec<u32>>>)
    ensures
        r@ == Seq::new(n as nat, |i: int| None::<Vec<u32>>),
{
    let mut out: Vec<Option<Vec<u32>>> = Vec::new();
    for i in 0..n
        invariant
            out@ == Seq::new(i as nat, |j: int| None::<Vec<u32>>),
    {
        out.push(None);
        assert(out@ =~= Seq::new((i + 1) as nat, |j: int| None::<Vec<u32>>));
    }
    out
}

/// How many entries of a candidate the Restart Manager sweep looks at.
pub const SAMPLE_FILES: usize = 24;

/// The files among the first `n` entries, in order. An entry is a path and
/// whether it is a file.
pub open spec fn files_among(entries: Seq<(String, bool)>, n: int) -> Seq<Seq<char>>
    decreases n,
{
    if n <= 0 {
        seq![]
    } else {
        let rest = files_among(entries, n - 1);
        if entries[n - 1].1 {
            rest.push(entries[n - 1].0@)
        } else {
            rest
        }
    }
}

/// The files that the Restart Manager sweep registers: those among the first
/// few entries of a candidate (it rejects directories).
pub fn sample_files(entries: &[(String, bool)]) -> (r: Vec<String>)
    ensures
        views(r@) == files_among(
            entries@,
            if entries@.len() < SAMPLE_FILES {
                entries@.len() as int
            } else {
                SAMPLE_FILES as int
            },
        ),
{
    broadcast use lemma_views_push;

    let n: usize = if entries.len() < SAMPLE_FILES {
        entries.len()
    } else {
        SAMPLE_FILES
    };
    let mut out: Vec<String> = Vec::new();
    assert(views(out@) =~= seq![]);
    for i in 0..n
        invariant
            n <= entries@.len(),
            views(out@) == files_among(entries@, i as int),
    {
        broadcast use lemma_views_push;

        if entries[i].1 {
            out.push(entries[i].0.clone());
        }
    }
    out
}

/// What the Restart Manager sweep establishes of one candidate. Where no file
/// was registered there is no evidence either way: no holders are reported (the
/// rename at reap time stays authoritative). `listed` is what the Restart
/// Manager lists, or `None` where a call of it failed: then nothing is
/// established.
pub fn restart_manager_pids(registered: usize, listed: Option<&[u32]>, me: u32) -> (r: Option<
    Vec<u32>,
>)
    ensures
        registered == 0 ==> (r matches Some(pids) && pids@ == Seq::<u32>::empty()),
        registered > 0 ==> (r is None <==> listed is None),
        registered > 0 && r is Some ==> ascending(r->0@) && r->0@.to_set()
            == listed->0@.to_set().remove(me),
        restart_manager_says(
            registered,
            match listed {
                Some(pids) => Some(pids@),
                None => None,
            },
            me,
            match r {
                Some(pids) => Some(pids@),
                None => None,
            },
        ),
{
    if registered == 0 {
        return Some(Vec::new());
    }
    match listed {
        None => None,
        Some(listed) => {
            let mut pids: Vec<u32> = Vec::new();
            assert(pids@.to_set() =~= listed@.take(0).to_set().remove(me));
            for i in 0..listed.len()
                invariant
                    ascending(pids@),
                    pids@.to_set() == listed@.take(i as int).to_set().remove(me),
            {
                let ghost before = pids@.to_set();
                let pid: u32 = listed[i];
                if pid != me {
                    insert_pid(&mut pids, pid);
                }
                proof {
                    let all = listed@.take(i + 1);
                    assert(all =~= listed@.take(i as int).push(pid));
                    assert forall|x: u32| all.contains(x) <==> listed@.take(i as int).contains(x)
                        || x == pid by {
                        if listed@.take(i as int).contains(x) {
                            let j = choose|j: int| 0 <= j < i && listed@.take(i as int)[j] == x;
                            assert(all[j] == x);
                        }
                        if x == pid {
                            assert(all[i as int] == x);
                        }
                        if all.contains(x) {
                            let j = choose|j: int| 0 <= j < i + 1 && all[j] == x;
                            if j < i {
                                assert(listed@.take(i as int)[j] == x);
                            }
                        }
                    }
                    assert(pids@.to_set() =~= all.to_set().remove(me));
                }
            }
            assert(listed@.take(listed@.len() as int) =~= listed@);
            Some(pids)
        },
    }
}

/// The size of what libproc returns of a process's directories.
pub const VNODEPATHINFO_LEN: usize = 2352;

/// Where the path of the working directory stands in it.
pub const CDIR_PATH_OFF: usize = 152;

/// The size of what libproc returns of an open file.
pub const FDINFOWITHPATH_LEN: usize = 1200;

/// Where the path of the file stands in it.
pub const FD_PATH_OFF: usize = 176;

/// The working directory that libproc returned.
pub fn cwd_path(buf: &[u8]) -> (r: Option<&str>)
    requires
        buf@.len() == VNODEPATHINFO_LEN,
    ensures
        r is Some <==> c_text(buf@, CDIR_PATH_OFF as int) is Some,
        r matches Some(s) ==> c_text(buf@, CDIR_PATH_OFF as int) == Some(s@),
{
    cstr_at(buf, CDIR_PATH_OFF)
}

/// The path of the open file that libproc returned.
pub fn fd_path(buf: &[u8]) -> (r: Option<&str>)
    requires
        buf@.len() == FDINFOWITHPATH_LEN,
    ensures
        r is Some <==> c_text(buf@, FD_PATH_OFF as int) is Some,
        r matches Some(s) ==> c_text(buf@, FD_PATH_OFF as int) == Some(s@),
{
    cstr_at(buf, FD_PATH_OFF)
}

} // verus!
