//! Executing a plan, its write-ahead manifest, and recovery.

use reaper::deleter::{
    drain_retry, lock_held_message, StepAction, StepEvent, StepOutcome, StepRun,
};
use reaper::manifest::{describe_event, list_event, pending, pending_in, ManifestEvent};
use reaper::json::JsonField;
use reaper::reap::{
    count_interrupted, count_refused, dry_run_lines, exit_code, freed_bytes, freed_line, is_log_name, log_digest,
    log_file_name,
    outcome_line, pick_plan, plan_file_name, recovery_head, recovery_lines,
};
use reaper::report::{admit_all, step_sizes};
use reaper::{
    plan, seal, BoundStep, Candidate, DetectorId, EcosystemId, Facts, Identity, Policy, ReapPlan,
    ReapStep, SafetyClass, SealedPlan,
};
use std::collections::BTreeMap;

const ID: Identity = Identity {
    dev: 1,
    ino: 2,
    mtime_ns: 3,
};

fn delete(path: &str) -> ReapStep {
    ReapStep::DeleteDir {
        path: path.to_string(),
        regenerate_hint: Some("cargo build".to_string()),
    }
}

fn worktree(path: &str) -> ReapStep {
    ReapStep::RemoveWorktree {
        path: path.to_string(),
        branch: Some("main".to_string()),
    }
}

fn start(step: ReapStep, identity: Option<Identity>, sweeps: bool) -> (StepRun, StepAction) {
    StepRun::new(step, identity, 4096, Some("make".to_string()), sweeps, 77, 5)
}

/// Runs a step on these events; what it did, each action by its debug text.
fn run(
    step: ReapStep,
    identity: Option<Identity>,
    sweeps: bool,
    events: Vec<StepEvent>,
) -> Vec<StepAction> {
    let (mut state, first) = start(step, identity, sweeps);
    let mut actions = vec![first];
    for event in events {
        let (next, action) = state.advance(event);
        state = next;
        actions.push(action);
    }
    actions
}

/// The reason for which a run ends in a refusal, and the path.
fn refusal(actions: &[StepAction]) -> (String, String) {
    match actions.last().unwrap() {
        StepAction::Finish {
            record: ManifestEvent::Refused { path, why },
            admin: None,
            outcome,
        } => {
            assert_eq!(
                outcome,
                &StepOutcome::Refused {
                    path: path.clone(),
                    why: why.clone()
                }
            );
            (path.clone(), why.clone())
        }
        other => panic!("not refused: {other:?}"),
    }
}

fn good_events() -> Vec<StepEvent> {
    vec![
        StepEvent::Identity(Some(ID)),
        StepEvent::Live(Some(vec![])),
        StepEvent::Logged(None),
        StepEvent::Renamed(None),
        StepEvent::Drained(None),
    ]
}

#[test]
fn a_proven_step_is_renamed_drained_and_reported() {
    let actions = run(delete("/w/proj/target"), Some(ID), true, good_events());
    assert!(matches!(&actions[0], StepAction::ReadIdentity { path } if path == "/w/proj/target"));
    assert!(matches!(&actions[1], StepAction::SweepLive { path } if path == "/w/proj/target"));
    assert!(matches!(&actions[2], StepAction::WriteAhead {
        record: ManifestEvent::Tombed { path, tomb, recover: Some(r), size_bytes: 4096 }
    } if path == "/w/proj/target" && tomb == "/w/proj/.reaper-tomb-77-5" && r == "make"));
    assert!(matches!(&actions[3], StepAction::Rename { path, tomb }
        if path == "/w/proj/target" && tomb == "/w/proj/.reaper-tomb-77-5"));
    assert!(
        matches!(&actions[4], StepAction::Drain { tomb } if tomb == "/w/proj/.reaper-tomb-77-5")
    );
    match &actions[5] {
        StepAction::Finish {
            record,
            admin,
            outcome,
        } => {
            assert_eq!(
                record,
                &ManifestEvent::Drained {
                    tomb: "/w/proj/.reaper-tomb-77-5".into(),
                    freed_bytes: 4096
                }
            );
            assert_eq!(admin, &None);
            assert_eq!(
                outcome,
                &StepOutcome::Reaped {
                    path: "/w/proj/target".into(),
                    freed_bytes: 4096,
                    recover: Some("make".into())
                }
            );
        }
        other => panic!("{other:?}"),
    }
}

#[test]
fn a_worktree_sheds_its_admin_directory() {
    let actions = run(
        worktree("/w/wt"),
        None,
        true,
        vec![
            StepEvent::Live(Some(vec![])),
            StepEvent::Admin(Some("/r/.git/worktrees/wt".into())),
            StepEvent::Logged(None),
            StepEvent::Renamed(None),
            StepEvent::Drained(None),
        ],
    );
    assert!(matches!(&actions[1], StepAction::FindAdmin { path } if path == "/w/wt"));
    assert!(
        matches!(&actions[5], StepAction::Finish { admin: Some(a), .. } if a == "/r/.git/worktrees/wt")
    );
}

#[test]
fn any_doubt_leaves_the_tree_in_place() {
    let why = |events: Vec<StepEvent>| {
        let (path, why) = refusal(&run(delete("/w/t"), Some(ID), true, events));
        assert_eq!(path, "/w/t");
        why
    };
    let up_to = |n: usize, last: StepEvent| {
        let mut events = good_events();
        events.truncate(n);
        events.push(last);
        events
    };
    assert_eq!(
        why(up_to(0, StepEvent::Identity(None))),
        "gone or unreadable at execution time"
    );
    for now in [
        Identity { dev: 9, ..ID },
        Identity { ino: 9, ..ID },
        Identity { mtime_ns: 9, ..ID },
    ] {
        assert_eq!(
            why(up_to(0, StepEvent::Identity(Some(now)))),
            "identity drifted since planning (dev/ino/mtime mismatch) — re-scan"
        );
    }
    assert_eq!(
        why(up_to(1, StepEvent::Live(Some(vec![12, 345])))),
        "live process(es) [12, 345]"
    );
    assert_eq!(
        why(up_to(1, StepEvent::Live(None))),
        "live-process fact unestablishable at execution"
    );
    assert_eq!(
        why(up_to(2, StepEvent::Logged(Some("disk full".into())))),
        "write-ahead manifest unwritable: disk full"
    );
    for os in [5, 32] {
        assert_eq!(
            why(up_to(3, StepEvent::Renamed(Some((Some(os), "denied".into()))))),
            "live process holds files (rename lock probe)"
        );
    }
    assert_eq!(
        why(up_to(3, StepEvent::Renamed(Some((Some(18), "cross-device".into()))))),
        "tomb rename failed: cross-device"
    );
    assert_eq!(
        why(up_to(3, StepEvent::Renamed(Some((None, "odd".into()))))),
        "tomb rename failed: odd"
    );
}

#[test]
fn an_interrupted_drain_is_resumable() {
    let mut events = good_events();
    events.pop();
    events.push(StepEvent::Drained(Some("not empty".into())));
    let actions = run(delete("/w/t"), Some(ID), true, events);
    let StepAction::Finish {
        record,
        admin: None,
        outcome,
    } = actions.last().unwrap()
    else {
        panic!("not finished: {actions:?}");
    };
    let why = "drain interrupted: not empty (resumes next run)";
    assert_eq!(
        outcome,
        &StepOutcome::Interrupted {
            path: "/w/t".into(),
            tomb: "/w/.reaper-tomb-77-5".into(),
            why: why.into(),
        }
    );
    // The tree is not in place any more: its tomb is still pending.
    let log = [
        ManifestEvent::Tombed {
            path: "/w/t".into(),
            tomb: "/w/.reaper-tomb-77-5".into(),
            recover: None,
            size_bytes: 7,
        }
        .line(),
        record.line(),
    ];
    assert_eq!(
        pending_in(&log),
        [("/w/.reaper-tomb-77-5".to_string(), 7)]
    );
    let outcomes = [outcome.clone()];
    assert_eq!(exit_code(&outcomes), 1);
    assert_eq!(count_refused(&outcomes), 0);
    assert_eq!(count_interrupted(&outcomes), 1);
    assert_eq!(freed_bytes(&outcomes), Some(0));
    assert_eq!(
        outcome_line(outcome),
        format!("⚠ renamed /w/t to /w/.reaper-tomb-77-5: {why}")
    );
}

#[test]
fn a_refusal_names_the_step_and_never_follows_a_rename() {
    // Each event that ends a run early, in place of the one that goes well.
    let bad = [
        StepEvent::Identity(None),
        StepEvent::Live(None),
        StepEvent::Logged(Some("disk full".into())),
        StepEvent::Renamed(Some((None, "odd".into()))),
    ];
    for (n, event) in bad.into_iter().enumerate() {
        let mut events = good_events();
        events.truncate(n);
        events.push(event);
        let (path, _) = refusal(&run(delete("/w/t"), Some(ID), true, events));
        assert_eq!(path, "/w/t");
    }
}

#[test]
fn a_root_is_never_reaped() {
    let (path, why) = refusal(&run(
        delete("/"),
        Some(ID),
        false,
        vec![StepEvent::Identity(Some(ID))],
    ));
    assert_eq!((path.as_str(), why.as_str()), ("/", "refusing to reap a filesystem root"));
}

#[test]
fn an_unbound_step_goes_by_the_sweep_or_is_refused() {
    let (_, first) = start(delete("/w/t"), None, true);
    assert!(matches!(first, StepAction::SweepLive { .. }));
    let (_, why) = refusal(&run(delete("/w/t"), None, false, vec![]));
    assert!(why.contains("identity not established"), "{why}");
    // Where there is no sweep, the identity alone decides.
    let actions = run(
        delete("/w/t"),
        Some(ID),
        false,
        vec![StepEvent::Identity(Some(ID))],
    );
    assert!(matches!(actions[1], StepAction::WriteAhead { .. }));
}

#[test]
fn drains_are_retried_with_longer_waits() {
    let waits: Vec<Option<u64>> = (0..5).map(drain_retry).collect();
    assert_eq!(waits, [Some(250), Some(500), Some(750), None, None]);
}

#[test]
fn the_lock_message_says_what_to_do() {
    assert_eq!(
        lock_held_message("/s/execute.lock"),
        "another reaper --execute appears active (lock: /s/execute.lock). If it crashed, remove the lock file and retry."
    );
}

fn tombed(tomb: &str, size_bytes: u64, recover: Option<&str>) -> ManifestEvent {
    ManifestEvent::Tombed {
        path: format!("{tomb}-path"),
        tomb: tomb.to_string(),
        recover: recover.map(String::from),
        size_bytes,
    }
}

fn drained(tomb: &str, freed_bytes: u64) -> ManifestEvent {
    ManifestEvent::Drained {
        tomb: tomb.to_string(),
        freed_bytes,
    }
}

#[test]
fn manifest_lines_read_back() {
    let events = vec![
        ManifestEvent::Planned {
            digest: "sha256:00".into(),
        },
        tombed("/w/\"t\"\n", u64::MAX, Some("git worktree add /w 𝄞")),
        tombed("/w/t", 0, None),
        drained("C:\\t", 128),
        ManifestEvent::Refused {
            path: "/w".into(),
            why: "tab\there".into(),
        },
        ManifestEvent::Interrupted {
            path: "/w".into(),
            tomb: "/.reaper-tomb-1-0".into(),
            why: "\\".into(),
        },
    ];
    for event in &events {
        let line = event.line();
        assert!(!line.contains('\n'));
        assert_eq!(ManifestEvent::parse(&line).as_ref(), Some(event));
    }
    assert_eq!(
        tombed("/t", 128, None).line(),
        r#"{"event":"tombed","path":"/t-path","tomb":"/t","recover":null,"size_bytes":128}"#
    );
    assert_eq!(
        drained("/t", 7).line(),
        r#"{"event":"drained","tomb":"/t","freed_bytes":7}"#
    );
}

#[test]
fn an_event_can_be_listed() {
    let listed = [
        r#"["planned","sha256:00"]"#,
        r#"["tombed","/t-path","/t",null,128]"#,
        r#"["drained","/t",7]"#,
        r#"["refused","/p","w"]"#,
        r#"["interrupted","/p","/t","w"]"#,
    ];
    let events = [
        ManifestEvent::Planned {
            digest: "sha256:00".into(),
        },
        tombed("/t", 128, None),
        drained("/t", 7),
        ManifestEvent::Refused {
            path: "/p".into(),
            why: "w".into(),
        },
        ManifestEvent::Interrupted {
            path: "/p".into(),
            tomb: "/t".into(),
            why: "w".into(),
        },
    ];
    for (line, event) in listed.into_iter().zip(events) {
        assert_eq!(ManifestEvent::parse(line), Some(event), "{line}");
    }
    for line in [
        "[]",
        r#"["drained","/t"]"#,
        r#"["drained","/t",7,8]"#,
        r#"["drained",7,"/t"]"#,
        r#"["exploded"]"#,
    ] {
        assert_eq!(ManifestEvent::parse(line), None, "{line}");
    }
    let items = vec![
        JsonField::Text("drained".into()),
        JsonField::Text("/t".into()),
        JsonField::Number(7),
    ];
    assert_eq!(list_event(items), Some(drained("/t", 7)));
}

#[test]
fn logs_are_told_by_their_names() {
    assert!(is_log_name(&log_file_name("sha256:ab")));
    assert!(is_log_name("sha256-legacy.jsonl") && is_log_name("..jsonl"));
    for name in [".jsonl", "jsonl", "a.json", "a.jsonl.tmp", "a.JSONL", ""] {
        assert!(!is_log_name(name), "{name}");
    }
}

#[test]
fn lines_that_are_no_event_do_not_read() {
    for line in [
        "",
        "not json",
        r#"{"event":"exploded"}"#,
        r#"{"event":"planned"}"#,
        r#"{"event":"drained","tomb":"/t","freed_bytes":-1}"#,
        r#"{"event":"drained","tomb":"/t","freed_bytes":1.5}"#,
        r#"{"event":"drained","tomb":"/t"}"#,
        r#"{"event":"drained","tomb":"/t","tomb":"/u","freed_bytes":1}"#,
        r#"{"event":"drained","event":"refused","tomb":"/t","freed_bytes":1}"#,
        r#"{"event":"tombed","path":"/p","tomb":"/t","recover":7,"size_bytes":1}"#,
        r#"{"event":"refused","path":"/p"}"#,
        r#"{"event":"interrupted","path":"/p","why":"w"}"#,
        r#"{"tomb":"/t"}"#,
    ] {
        assert_eq!(ManifestEvent::parse(line), None, "{line}");
    }
    let fields = vec![
        ("event".to_string(), JsonField::Text("drained".into())),
        ("freed_bytes".to_string(), JsonField::Number(7)),
        ("tomb".to_string(), JsonField::Text("/t".into())),
    ];
    assert_eq!(describe_event(&fields), Some(drained("/t", 7)));
    assert_eq!(describe_event(&fields[..2]), None);
}

#[test]
fn undrained_tombs_are_pending_and_recovery_is_idempotent() {
    let mut events = vec![
        tombed("/w/a", 1, None),
        tombed("/w/b", 2, None),
        drained("/w//a", 1), // the same path
        tombed("/w/c", 3, None),
    ];
    let left = pending(&events);
    assert_eq!(left, [("/w/b".to_string(), 2), ("/w/c".to_string(), 3)]);
    for (tomb, size) in left {
        events.push(drained(&tomb, size));
    }
    assert!(pending(&events).is_empty());
}

#[test]
fn pending_tombs_are_read_from_lines() {
    let lines = vec![
        tombed("/w/a", 1, None).line(),
        "half a li".to_string(),
        tombed("/w/b", 2, None).line(),
        drained("/w/a", 1).line(),
    ];
    assert_eq!(pending_in(&lines), [("/w/b".to_string(), 2)]);
}

fn aged(path: &str) -> Facts {
    Facts {
        candidate: Candidate {
            path: path.to_string(),
            ecosystem: EcosystemId("rust".into()),
            detector: DetectorId("rust-target".into()),
            safety_class: SafetyClass::Regenerable {
                regenerate_hint: Some("cargo build".into()),
            },
        },
        size_bytes: Some(4096),
        idle_days: Some(10),
        live_pids: Some(vec![]),
        active_build: Some(false),
        same_device: Some(true),
        cloud_backed: Some(false),
        git: None,
    }
}

/// A file system held in memory: the identity of each directory.
struct World {
    dirs: BTreeMap<String, Identity>,
    log: Vec<String>,
}

impl World {
    fn execute(&mut self, sealed: &SealedPlan) -> Vec<StepOutcome> {
        self.log.push(
            ManifestEvent::Planned {
                digest: sealed.digest.clone(),
            }
            .line(),
        );
        let mut outcomes = Vec::new();
        for (i, bound) in sealed.steps.iter().enumerate() {
            let (mut run, mut action) = StepRun::of_bound(bound, true, 1, i).unwrap();
            let outcome = loop {
                let event = match action {
                    StepAction::ReadIdentity { path } => {
                        StepEvent::Identity(self.dirs.get(&path).copied())
                    }
                    StepAction::SweepLive { .. } => StepEvent::Live(Some(vec![])),
                    StepAction::FindAdmin { .. } => StepEvent::Admin(None),
                    StepAction::WriteAhead { record } => {
                        self.log.push(record.line());
                        StepEvent::Logged(None)
                    }
                    StepAction::Rename { path, tomb } => {
                        let id = self.dirs.remove(&path).unwrap();
                        self.dirs.insert(tomb, id);
                        StepEvent::Renamed(None)
                    }
                    StepAction::Drain { tomb } => {
                        self.dirs.remove(&tomb);
                        StepEvent::Drained(None)
                    }
                    StepAction::Finish {
                        record, outcome, ..
                    } => {
                        self.log.push(record.line());
                        break outcome;
                    }
                };
                let (next, what) = run.advance(event);
                run = next;
                action = what;
            };
            outcomes.push(outcome);
        }
        outcomes
    }
}

fn scanned(world: &World, paths: &[&str]) -> SealedPlan {
    let facts: Vec<Facts> = paths.iter().map(|p| aged(p)).collect();
    let admitted = admit_all(&facts, &Policy::default());
    let p = plan(&admitted);
    let bindings: Vec<Option<Identity>> = p
        .steps
        .iter()
        .map(|s| world.dirs.get(s.path()).copied())
        .collect();
    let sizes = step_sizes(&p, &admitted);
    seal(&p, &bindings, &sizes)
}

#[test]
fn scan_reap_undo_round_trip() {
    let target = "/td/proj/target";
    let mut world = World {
        dirs: BTreeMap::from([(target.to_string(), ID)]),
        log: Vec::new(),
    };
    // 1. scan: the aged target is reapable and a plan is sealed.
    let sealed = scanned(&world, &[target]);
    assert_eq!(sealed.steps.len(), 1);
    assert_eq!(sealed.steps[0].size_bytes, 4096);

    // 2. dry-run reap: nothing mutated.
    let out = dry_run_lines(&sealed).unwrap();
    assert!(out[0].contains("would reap"), "{out:?}");
    assert!(world.dirs.contains_key(target), "dry-run mutated the tree!");

    // 3. execute: the target is permanently gone; the tomb is drained.
    let outcomes = world.execute(&sealed);
    assert_eq!(exit_code(&outcomes), 0);
    assert_eq!(freed_bytes(&outcomes), Some(4096));
    assert!(matches!(&outcomes[0], StepOutcome::Reaped { path, .. } if path == target));
    assert!(world.dirs.is_empty(), "target or tomb left behind");
    assert!(pending_in(&world.log).is_empty());

    // 4. undo emits the regenerate command (never runs it).
    let lines = recovery_lines(&world.log);
    assert!(lines[0].contains("cargo build"), "recovery hint missing: {lines:?}");
    assert_eq!(lines, ["cargo build   # restores /td/proj/target"]);
}

#[test]
fn drifted_tree_refuses_and_is_left_in_place() {
    let target = "/td/proj/target";
    let mut world = World {
        dirs: BTreeMap::from([(target.to_string(), ID)]),
        log: Vec::new(),
    };
    let sealed = scanned(&world, &[target]);
    // Swap the planned dir for a new dir at the same path.
    let swapped = Identity { mtime_ns: 99, ..ID };
    world.dirs.insert(target.to_string(), swapped);
    let outcomes = world.execute(&sealed);
    assert_eq!(exit_code(&outcomes), 1);
    assert!(matches!(&outcomes[0], StepOutcome::Refused { .. }));
    assert_eq!(world.dirs.get(target), Some(&swapped));
}

#[test]
fn a_dry_run_lists_the_steps() {
    let plan = ReapPlan {
        steps: vec![delete("/w/a"), worktree("/w/b")],
    };
    let mut sealed = seal(&plan, &[None, None], &[1536, 0]);
    assert_eq!(
        dry_run_lines(&sealed).unwrap(),
        [
            "would reap: /w/a  (1.5K, recover: cargo build)",
            "would reap: /w/b  (0B, recover: git worktree add /w/b main)",
            "dry-run: 2 step(s), 1.5K — add --execute to reap (PERMANENT)",
        ]
    );
    sealed.steps[1].recover = None;
    assert!(dry_run_lines(&sealed).unwrap()[1].ends_with("recover: —)"));
    sealed.steps[0].size_bytes = u64::MAX;
    sealed.steps[1].size_bytes = 1;
    assert_eq!(dry_run_lines(&sealed), None);
    let (first, _) = StepRun::of_bound(&sealed.steps[0], false, 9, 3).unwrap();
    assert_eq!(first.step, plan.steps[0]);
    assert_eq!(first.tomb_name, ".reaper-tomb-9-3");
    sealed.steps = vec![BoundStep {
        step_json: "{}".into(),
        identity: None,
        size_bytes: 0,
        recover: None,
    }];
    assert_eq!(dry_run_lines(&sealed), None);
    assert!(StepRun::of_bound(&sealed.steps[0], true, 1, 0).is_none());
}

#[test]
fn outcomes_are_counted_and_shown() {
    let reaped = |n: u64| StepOutcome::Reaped {
        path: "/w/a".into(),
        freed_bytes: n,
        recover: None,
    };
    let refused = StepOutcome::Refused {
        path: "/w/b".into(),
        why: "live".into(),
    };
    let all = [reaped(1024), refused.clone(), reaped(1)];
    assert_eq!(freed_bytes(&all), Some(1025));
    assert_eq!(freed_bytes(&[reaped(u64::MAX), reaped(1)]), None);
    assert_eq!(count_refused(&all), 1);
    assert_eq!(exit_code(&all), 1);
    assert_eq!(exit_code(&all[..1]), 0);
    assert_eq!(exit_code(&[]), 0);
    assert_eq!(outcome_line(&all[0]), "✓ reaped /w/a (1.0K freed)");
    assert_eq!(outcome_line(&refused), "⛔ left in place /w/b: live");
    assert_eq!(
        freed_line(1025, "sha256:ab"),
        "freed 1.0K · recovery: reaper undo sha256:ab"
    );
}

#[test]
fn recovery_is_emitted_for_every_tomb_on_record() {
    let lines = vec![
        ManifestEvent::Planned {
            digest: "sha256:00".into(),
        }
        .line(),
        tombed("/t/1", 1, Some("npm install")).line(),
        "garbage".to_string(),
        drained("/t/1", 1).line(),
        tombed("/t/2", 1, None).line(),
    ];
    assert_eq!(
        recovery_lines(&lines),
        [
            "npm install   # restores /t/1-path",
            "# /t/2-path: no regenerate hint recorded"
        ]
    );
    assert!(recovery_head("sha256:00").starts_with("# recovery for sha256:00 — reaper EMITS these"));
}

#[test]
fn plans_are_found_by_digest_or_prefix() {
    let digests = ["sha256:aaff00", "sha256:aa0011", "sha256:bb0000"];
    let names: Vec<String> = digests.iter().map(|d| plan_file_name(d)).collect();
    assert_eq!(names[0], "sha256-aaff00.json");
    assert_eq!(log_file_name(digests[0]), "sha256-aaff00.jsonl");
    assert_eq!(pick_plan(&names, "sha256:aaff00"), Ok(0));
    assert_eq!(pick_plan(&names, "bb"), Ok(2));
    assert_eq!(pick_plan(&names, "sha256:b"), Ok(2));
    assert_eq!(
        pick_plan(&names, "aa"),
        Err("2 plans match aa — give more digits".into())
    );
    assert_eq!(
        pick_plan(&names, ""),
        Err("3 plans match  — give more digits".into())
    );
    assert_eq!(
        pick_plan(&names, "cc"),
        Err("no sealed plan matches cc — run `reaper scan` first".into())
    );
    assert_eq!(
        log_digest("sha256-aaff00.jsonl", "aaff").as_deref(),
        Some("sha256:aaff00")
    );
    assert_eq!(log_digest("sha256-aaff00.jsonl", "bb"), None);
    assert_eq!(
        log_digest("x.jsonl.jsonl", "x").as_deref(),
        Some("x")
    );
}
