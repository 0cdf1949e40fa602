//! Probes: what is summed, swept and read of git.

use reaper::dirread::{Entry, FileKind};
use reaper::gitprobe::{
    admin_dir_of, git_facts, head_state, lock_state, remote_exists, unpushed, HeadRead,
    LockRead, RepoRead,
};
use reaper::prober::{
    drive_device, gather_facts, needs_git, needs_stat, probe, unix_identity, win_identity, Stat,
    SubtreeSum,
};
use reaper::sweep::{
    cwd_path, fd_path, hits, pid_of, restart_manager_pids, sample_files, unestablished, Sweep,
    CDIR_PATH_OFF, FDINFOWITHPATH_LEN, FD_PATH_OFF, VNODEPATHINFO_LEN,
};
use reaper::{
    Candidate, DetectorId, EcosystemId, Facts, GitFacts, HeadState, Identity, LockState,
    SafetyClass,
};

const DAY: i128 = 86_400_000_000_000;

fn candidate(class: SafetyClass) -> Candidate {
    Candidate {
        path: "/r/target".to_string(),
        ecosystem: EcosystemId("rust".into()),
        detector: DetectorId("rust-target".into()),
        safety_class: class,
    }
}

fn regenerable() -> Candidate {
    candidate(SafetyClass::Regenerable {
        regenerate_hint: None,
    })
}

fn entry(kind: FileKind, len: Option<u64>, mtime: Option<i128>, cloud: Option<bool>) -> Entry {
    Entry {
        name: "e".to_string(),
        kind,
        len,
        mtime,
        ino: None,
        cloud,
    }
}

fn stat(is_dir: bool, is_file: bool, len: u64, mtime: Option<i128>) -> Option<Stat> {
    Some(Stat {
        is_dir,
        is_file,
        len,
        mtime,
    })
}

#[test]
fn probe_establishes_size_idle_and_device() {
    let written = 1_700_000_000_000_000_000i128;
    let mut sum = SubtreeSum::new();
    let dir = entry(FileKind::Dir, None, None, Some(false));
    let file = entry(FileKind::File, None, None, Some(false));
    // target/debug, target/debug/a.o, target/debug/deps, target/debug/deps/b.o
    assert!(sum.observe(&dir, 0, stat(true, false, 4096, Some(written))));
    assert!(!sum.observe(&file, 1, stat(false, true, 1000, Some(written))));
    assert!(sum.observe(&dir, 1, stat(true, false, 4096, Some(written))));
    assert!(!sum.observe(&file, 2, stat(false, true, 2345, Some(written))));
    // "Now" = 10 days after the files were written.
    let facts = probe(
        &regenerable(),
        Some(7),
        Some(7),
        &sum,
        written + 10 * DAY,
    );
    assert_eq!(facts.size_bytes, Some(3345));
    assert_eq!(facts.idle_days, Some(10));
    assert_eq!(facts.active_build, Some(false));
    assert_eq!(facts.same_device, Some(true));
    assert_eq!(facts.cloud_backed, Some(false));
    // live_pids stays None until the sweep, and the classifier keeps refusing
    // on exactly that.
    assert_eq!(facts.live_pids, None);
    assert_eq!(facts.git, None);
}

#[test]
fn fresh_writes_flag_active_build() {
    let now = 1_700_000_000_000_000_000i128;
    let at = |mtime: i128| {
        let mut sum = SubtreeSum::new();
        sum.observe(
            &entry(FileKind::File, Some(1), Some(mtime), Some(false)),
            0,
            None,
        );
        probe(&regenerable(), None, Some(1), &sum, now)
    };
    assert_eq!(at(now).active_build, Some(true));
    assert_eq!(at(now).idle_days, Some(0));
    assert_eq!(at(now).same_device, None);
    // The window is two minutes, its end excluded; the future counts as now.
    assert_eq!(at(now - 119_999_999_999).active_build, Some(true));
    assert_eq!(at(now - 120_000_000_000).active_build, Some(false));
    assert_eq!(at(now + DAY).active_build, Some(true));
    assert_eq!(at(now - DAY + 1).idle_days, Some(0));
    assert_eq!(at(now - DAY).idle_days, Some(1));
}

#[test]
fn what_is_not_established_stays_none() {
    let facts = probe(&regenerable(), Some(1), Some(2), &SubtreeSum::new(), 0);
    assert_eq!(facts.idle_days, None);
    assert_eq!(facts.active_build, None);
    assert_eq!(facts.same_device, Some(false));
    let mut sum = SubtreeSum::new();
    // Before the epoch, and below the sample depth, there is no sample.
    sum.observe(
        &entry(FileKind::File, Some(1), Some(-1), Some(true)),
        0,
        None,
    );
    sum.observe(
        &entry(FileKind::File, Some(2), Some(5), Some(false)),
        2,
        None,
    );
    let facts = probe(&regenerable(), None, None, &sum, 100);
    assert_eq!(facts.idle_days, None);
    assert_eq!(facts.size_bytes, Some(3));
    assert_eq!(facts.cloud_backed, Some(true));
    // One file of which it is not known is enough.
    sum.observe(&entry(FileKind::File, Some(2), None, None), 2, None);
    assert_eq!(
        probe(&regenerable(), None, None, &sum, 100).cloud_backed,
        None
    );
}

#[test]
fn unknown_entries_are_classified_by_a_stat() {
    let other = entry(FileKind::Other, None, None, None);
    let mut sum = SubtreeSum::new();
    assert!(sum.observe(&other, 0, stat(true, false, 4096, Some(9))));
    assert_eq!(sum, SubtreeSum::new());
    assert!(!sum.observe(&other, 0, stat(false, false, 4096, Some(9))));
    assert_eq!(sum, SubtreeSum::new());
    let told = entry(FileKind::Other, None, None, Some(true));
    assert!(!sum.observe(&told, 0, stat(false, true, 4, Some(3))));
    assert!(sum.cloud_any && !sum.cloud_missing);
    // A file that does not tell whether it is a placeholder leaves it open.
    assert!(!sum.observe(&other, 0, stat(false, true, 6, Some(9))));
    assert_eq!((sum.bytes, sum.newest_nanos), (10, 9));
    assert!(sum.cloud_missing);
    // So does an entry of which not even the type can be told.
    let mut unread = SubtreeSum::new();
    assert!(!unread.observe(&other, 0, None));
    assert_eq!(
        unread,
        SubtreeSum {
            cloud_missing: true,
            ..SubtreeSum::new()
        }
    );
    let link = entry(FileKind::Symlink, Some(5), Some(99), Some(true));
    assert!(!sum.observe(&link, 0, None));
    assert_eq!((sum.bytes, sum.newest_nanos), (10, 9));
}

#[test]
fn a_directory_that_cannot_be_listed_leaves_the_cloud_flag_open() {
    let mut sum = SubtreeSum::new();
    let file = entry(FileKind::File, Some(3), Some(5), Some(false));
    sum.observe(&file, 0, None);
    assert_eq!(
        probe(&regenerable(), None, None, &sum, 100).cloud_backed,
        Some(false)
    );
    sum.unreadable();
    assert_eq!((sum.bytes, sum.newest_nanos), (3, 5));
    // Nothing that is seen later settles it.
    sum.observe(&file, 0, None);
    assert_eq!(
        probe(&regenerable(), None, None, &sum, 100).cloud_backed,
        None
    );
}

#[test]
fn a_stat_fills_only_what_is_missing() {
    let full = entry(FileKind::File, Some(1), Some(1), Some(false));
    assert!(!needs_stat(&full, 0));
    assert!(needs_stat(&entry(FileKind::File, None, Some(1), None), 9));
    assert!(needs_stat(&entry(FileKind::File, Some(1), None, None), 1));
    assert!(!needs_stat(&entry(FileKind::File, Some(1), None, None), 2));
    assert!(needs_stat(&entry(FileKind::Dir, None, None, None), 1));
    assert!(!needs_stat(&entry(FileKind::Dir, None, None, None), 2));
    assert!(needs_stat(
        &entry(FileKind::Other, Some(1), Some(1), Some(false)),
        9
    ));
    assert!(!needs_stat(&entry(FileKind::Symlink, None, None, None), 0));
    let mut sum = SubtreeSum::new();
    sum.observe(&full, 0, stat(false, true, 77, Some(77)));
    assert_eq!((sum.bytes, sum.newest_nanos), (1, 1));
    // A file that cannot be read counts as empty.
    sum.observe(&entry(FileKind::File, None, None, Some(false)), 0, None);
    assert_eq!(sum.bytes, 1);
}

#[test]
fn the_order_of_observations_does_not_matter() {
    let entries = [
        entry(FileKind::File, Some(u64::MAX), Some(3), Some(true)),
        entry(FileKind::File, Some(7), Some(9), None),
        entry(FileKind::Dir, None, Some(5), Some(false)),
    ];
    let sum = |order: [usize; 3]| {
        let mut s = SubtreeSum::new();
        for i in order {
            s.observe(&entries[i], 1, None);
        }
        s
    };
    let one = sum([0, 1, 2]);
    assert_eq!(one.bytes, 6);
    assert_eq!(one.newest_nanos, 9);
    for order in [[0, 2, 1], [1, 0, 2], [1, 2, 0], [2, 0, 1], [2, 1, 0]] {
        assert_eq!(sum(order), one);
    }
}

#[test]
fn facts_are_gathered_item_by_item() {
    let wt = Facts::unprobed(candidate(SafetyClass::GitWorktree));
    let dir = Facts::unprobed(regenerable());
    assert!(needs_git(&wt) && !needs_git(&dir));
    let git = GitFacts {
        dirty_entries: Some(0),
        unpushed_commits: None,
        lock: None,
        head: None,
    };
    let all = gather_facts(
        vec![wt.clone(), dir.clone(), wt.clone()],
        Some(vec![Some(git.clone()), Some(git.clone())]),
        Some(vec![Some(vec![1]), None]),
    );
    assert_eq!(all[0].git, Some(git));
    assert_eq!(all[0].live_pids, Some(vec![1]));
    // Git facts are for worktrees; where a list ends, nothing is established.
    assert_eq!(all[1].git, None);
    assert_eq!(all[1].live_pids, None);
    assert_eq!(all[2], wt);
    assert_eq!(gather_facts(vec![dir.clone()], None, None), vec![dir]);
}

#[test]
fn identities_have_three_components() {
    assert_eq!(
        unix_identity(1, 2, 3, 4),
        Identity {
            dev: 1,
            ino: 2,
            mtime_ns: 3_000_000_004
        }
    );
    // Far times wrap.
    assert_eq!(
        unix_identity(1, 2, -1, 5).mtime_ns,
        u64::MAX - 1_000_000_000 + 1 + 5
    );
    assert_eq!(
        win_identity(9, 1, 2, 3, 4),
        Identity {
            dev: 9,
            ino: (1 << 32) + 2,
            mtime_ns: (3 << 32) + 4
        }
    );
}

#[test]
fn a_drive_is_a_device() {
    assert_eq!(drive_device("c:\\x"), Some(67));
    assert_eq!(drive_device("C:"), Some(67));
    assert_eq!(drive_device("\\\\server\\share"), None);
    assert_eq!(drive_device("c"), None);
    assert_eq!(drive_device(""), None);
    assert_eq!(drive_device("1:"), Some(49));
}

#[test]
fn hit_matching_is_boundary_aware() {
    let dirs = vec!["/w/proj/target".to_string()];
    assert_eq!(hits(&dirs, "/w/proj/target"), vec![0]);
    assert_eq!(hits(&dirs, "/w/proj/target/debug/x.o"), vec![0]);
    // NOT a hit: sibling with the same prefix
    assert!(hits(&dirs, "/w/proj/target2/x").is_empty());
}

#[test]
fn a_path_can_hit_several_directories() {
    let dirs = ["/w", "/x", "/w/a"].map(String::from);
    assert_eq!(hits(&dirs, "/w/a/b"), vec![0, 2]);
    assert_eq!(hits(&dirs, "/w"), vec![0]);
    assert!(hits(&dirs, "/").is_empty());
}

#[test]
fn slashes_at_the_end_do_not_matter() {
    let dirs = ["/w/t/", "/w/t", "/w/t//", "/"].map(String::from);
    assert_eq!(hits(&dirs, "/w/t"), vec![0, 1, 2, 3]);
    assert_eq!(hits(&dirs, "/w/t/"), vec![0, 1, 2, 3]);
    assert_eq!(hits(&dirs, "/w/t/x"), vec![0, 1, 2, 3]);
    assert_eq!(hits(&dirs, "/w/t2/x"), vec![3]);
    assert_eq!(hits(&dirs, "/"), vec![3]);
}

#[test]
fn nothing_is_established_of_a_relative_directory() {
    let dirs = ["t", "/w/t/", ".", ""].map(String::from);
    let mut sweep = Sweep::new(&dirs, 1);
    sweep.note(8, "/w/t/x");
    sweep.note(7, "t");
    assert_eq!(sweep.finish(), vec![None, Some(vec![8]), None, None]);
}

#[test]
fn a_sweep_answers_for_every_directory_and_leaves_itself_out() {
    let dirs = ["/w/a", "/w/b", "/w/a/c"].map(String::from);
    let mut sweep = Sweep::new(&dirs, 77);
    sweep.note(9, "/w/a/c/file");
    sweep.note(3, "/w/a");
    sweep.note(9, "/w/a/other");
    sweep.note(77, "/w/b");
    sweep.note(5, "/elsewhere");
    assert_eq!(
        sweep.finish(),
        vec![Some(vec![3, 9]), Some(vec![]), Some(vec![9])]
    );
    assert_eq!(unestablished(2), vec![None, None]);
    assert_eq!(Sweep::new(&[], 1).finish(), Vec::<Option<Vec<u32>>>::new());
}

#[test]
fn process_table_entries_name_processes() {
    assert_eq!(pid_of("42"), Some(42));
    assert_eq!(pid_of("4294967295"), Some(u32::MAX));
    assert_eq!(pid_of("4294967296"), None);
    assert_eq!(pid_of("self"), None);
    assert_eq!(pid_of(""), None);
    assert_eq!(pid_of("-1"), None);
}

#[test]
fn libproc_paths_end_at_a_zero_byte() {
    let mut buf = vec![0u8; VNODEPATHINFO_LEN];
    buf[CDIR_PATH_OFF..CDIR_PATH_OFF + 4].copy_from_slice(b"/w/a");
    assert_eq!(cwd_path(&buf), Some("/w/a"));
    let mut buf = vec![0u8; FDINFOWITHPATH_LEN];
    assert_eq!(fd_path(&buf), Some(""));
    buf[FD_PATH_OFF] = 0xff;
    assert_eq!(fd_path(&buf), None); // not UTF-8
    let buf = vec![b'a'; FDINFOWITHPATH_LEN];
    assert_eq!(fd_path(&buf), None); // no end
}

#[test]
fn the_restart_manager_is_asked_about_a_few_files() {
    let entries: Vec<(String, bool)> = (0..40).map(|i| (format!("f{i}"), i % 2 == 0)).collect();
    let sample = sample_files(&entries);
    assert_eq!(sample.len(), 12);
    assert_eq!(sample[11], "f22");
    assert_eq!(sample_files(&entries[1..2]), Vec::<String>::new());
    assert_eq!(restart_manager_pids(0, None, 1), Some(vec![]));
    assert_eq!(restart_manager_pids(3, None, 1), None);
    assert_eq!(
        restart_manager_pids(3, Some(&[9, 1, 4, 9]), 1),
        Some(vec![4, 9])
    );
}

#[test]
fn the_admin_directory_is_where_the_git_file_points() {
    assert_eq!(
        admin_dir_of("/w/wt", "gitdir: /r/.git/worktrees/wt\n").as_deref(),
        Some("/r/.git/worktrees/wt")
    );
    assert_eq!(
        admin_dir_of("/w/wt", "gitdir: ../r/.git/worktrees/wt").as_deref(),
        Some("/w/wt/../r/.git/worktrees/wt")
    );
    assert_eq!(admin_dir_of("/w/wt", "worktree: /x/y"), None);
    assert_eq!(admin_dir_of("/w/wt", " gitdir: /x/y"), None);
    assert_eq!(admin_dir_of("/w/wt", "gitdir: /x"), None); // no named parent
    assert_eq!(admin_dir_of("/w/wt", "gitdir: /"), None);
}

#[test]
fn a_locked_file_locks() {
    assert_eq!(lock_state(LockRead::Absent), Some(LockState::Unlocked));
    assert_eq!(
        lock_state(LockRead::Content(" keep me \n".into())),
        Some(LockState::Locked {
            note: Some("keep me".into())
        })
    );
    assert_eq!(
        lock_state(LockRead::Content("\u{3000}\n".into())),
        Some(LockState::Locked { note: None })
    );
    // One that cannot be read does not say that the worktree is unlocked.
    assert_eq!(lock_state(LockRead::Unreadable), None);
}

#[test]
fn heads_and_unpushed_commits_are_established_or_not() {
    assert_eq!(
        head_state(HeadRead::Detached {
            unreachable_commits: Some(1)
        }),
        Some(HeadState::Detached {
            unreachable_commits: 1
        })
    );
    assert_eq!(
        head_state(HeadRead::OnRef {
            branch: Some("clean".into())
        }),
        Some(HeadState::Attached {
            branch: "clean".into()
        })
    );
    for head in [
        HeadRead::Unreadable,
        HeadRead::OnRef { branch: None },
        HeadRead::Detached {
            unreachable_commits: None,
        },
    ] {
        assert_eq!(head_state(head), None);
    }
    assert_eq!(remote_exists(None, 1), None);
    assert_eq!(remote_exists(Some(0), 0), Some(false));
    assert_eq!(remote_exists(Some(0), 1), Some(true));
    assert_eq!(remote_exists(Some(3), 0), Some(true));
    // Without a remote, nothing is unpushed.
    assert_eq!(unpushed(true, Some(false), Some(0), Some(5)), Some(0));
    assert_eq!(unpushed(true, Some(true), Some(2), Some(5)), Some(5));
    // A remote without a tip has nothing of what HEAD reaches.
    assert_eq!(unpushed(true, Some(true), Some(0), Some(5)), Some(5));
    assert_eq!(unpushed(true, Some(true), Some(2), None), None);
    assert_eq!(unpushed(true, Some(true), None, Some(5)), None);
    assert_eq!(unpushed(true, None, Some(2), Some(5)), None);
    assert_eq!(unpushed(false, Some(false), Some(0), Some(5)), None);
}

#[test]
fn git_facts_stand_alone() {
    assert_eq!(git_facts(Some(LockState::Unlocked), None), None);
    let repo = RepoRead {
        head: HeadRead::Unreadable,
        dirty_entries: Some(2),
        unpushed_commits: None,
    };
    assert_eq!(
        git_facts(Some(LockState::Unlocked), Some(repo)),
        Some(GitFacts {
            dirty_entries: Some(2),
            unpushed_commits: None,
            lock: Some(LockState::Unlocked),
            head: None,
        })
    );
}
