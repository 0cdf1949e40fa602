//! The classifier and the policy.

use reaper::policy::PatternError;
use reaper::{
    admit_facts, classify, plan, Candidate, DetectorId, Disposition, EcosystemId, Facts, GitFacts,
    HeadState, IdlePolicy, LockState, Policy, ReapStep, RefusalReason, SafetyClass,
};

fn candidate(class: SafetyClass) -> Candidate {
    Candidate {
        path: "/w/proj/target".to_string(),
        ecosystem: EcosystemId("rust".into()),
        detector: DetectorId("rust-target".into()),
        safety_class: class,
    }
}

/// Fully-established, fully-clean facts: the only shape that may be Reapable.
fn clean_facts(class: SafetyClass) -> Facts {
    let git = matches!(class, SafetyClass::GitWorktree).then(|| GitFacts {
        dirty_entries: Some(0),
        unpushed_commits: Some(0),
        lock: Some(LockState::Unlocked),
        head: Some(HeadState::Attached {
            branch: "main".into(),
        }),
    });
    Facts {
        candidate: candidate(class),
        size_bytes: Some(15_000_000_000),
        idle_days: Some(400),
        live_pids: Some(vec![]),
        active_build: Some(false),
        same_device: Some(true),
        cloud_backed: Some(false),
        git,
    }
}

fn classes() -> Vec<SafetyClass> {
    vec![
        SafetyClass::Regenerable {
            regenerate_hint: Some("cargo build".into()),
        },
        SafetyClass::GitWorktree,
        SafetyClass::PackageCache,
    ]
}

fn permissive_policy() -> Policy {
    // Floors at zero and caches included: isolates the fail-closed behavior
    // from the policy gates so the None-tests test unknowns, not thresholds.
    Policy::new(
        IdlePolicy {
            worktree_days: 0,
            regenerable_days: 0,
            cache_days: 0,
        },
        0,
        true,
        &[],
    )
    .unwrap()
}

fn reasons(facts: &Facts, policy: &Policy) -> Vec<RefusalReason> {
    match classify(facts, policy) {
        Disposition::Reapable => Vec::new(),
        Disposition::Refused { reasons } => reasons,
    }
}

fn unknown(what: &str) -> RefusalReason {
    RefusalReason::Unknown {
        what: what.to_string(),
    }
}

#[test]
fn any_missing_fact_refuses_unknown() {
    for class in classes() {
        let is_worktree = matches!(class, SafetyClass::GitWorktree);
        for k in 0..(if is_worktree { 11 } else { 6 }) {
            let mut facts = clean_facts(class.clone());
            let what = match k {
                0 => {
                    facts.size_bytes = None;
                    "size_bytes"
                }
                1 => {
                    facts.idle_days = None;
                    "idle_days"
                }
                2 => {
                    facts.live_pids = None;
                    "live_pids"
                }
                3 => {
                    facts.active_build = None;
                    "active_build"
                }
                4 => {
                    facts.same_device = None;
                    "same_device"
                }
                5 => {
                    facts.cloud_backed = None;
                    "cloud_backed"
                }
                6 => {
                    facts.git = None;
                    "git"
                }
                7 => {
                    facts.git.as_mut().unwrap().dirty_entries = None;
                    "git.dirty_entries"
                }
                8 => {
                    facts.git.as_mut().unwrap().unpushed_commits = None;
                    "git.unpushed_commits"
                }
                9 => {
                    facts.git.as_mut().unwrap().lock = None;
                    "git.lock"
                }
                _ => {
                    facts.git.as_mut().unwrap().head = None;
                    "git.head"
                }
            };
            assert_eq!(
                classify(&facts, &permissive_policy()),
                Disposition::Refused {
                    reasons: vec![unknown(what)]
                },
                "missing fact {k}"
            );
        }
    }
}

#[test]
fn violations_accumulate_with_typed_reasons() {
    for (dirty, unpushed, pids) in [
        (1usize, 1u64, vec![1u32]),
        (14, 3, vec![7, 99]),
        (99, 49, vec![99998, 5, 6]),
    ] {
        let mut facts = clean_facts(SafetyClass::GitWorktree);
        facts.live_pids = Some(pids.clone());
        let git = facts.git.as_mut().unwrap();
        git.dirty_entries = Some(dirty);
        git.unpushed_commits = Some(unpushed);
        git.lock = Some(LockState::Locked {
            note: Some("keep".into()),
        });
        git.head = Some(HeadState::Detached {
            unreachable_commits: 2,
        });
        assert_eq!(
            reasons(&facts, &permissive_policy()),
            vec![
                RefusalReason::LiveProcess { pids },
                RefusalReason::Dirty { entries: dirty },
                RefusalReason::UnpushedCommits { count: unpushed },
                RefusalReason::Locked {
                    note: Some("keep".into())
                },
                RefusalReason::Detached {
                    unreachable_commits: 2
                },
            ]
        );
    }
}

#[test]
fn idle_floor_gates_per_class() {
    for class in classes() {
        for idle in 0u64..60 {
            let mut facts = clean_facts(class.clone());
            facts.idle_days = Some(idle);
            let policy = Policy::new(Default::default(), 0, true, &[]).unwrap();
            let floor = policy.min_idle.floor_days(&facts.candidate.safety_class);
            let verdict = classify(&facts, &policy);
            if idle >= floor {
                assert_eq!(verdict, Disposition::Reapable);
            } else {
                assert_eq!(
                    verdict,
                    Disposition::Refused {
                        reasons: vec![RefusalReason::TooRecent {
                            idle_days: idle,
                            min_idle_days: floor,
                        }]
                    }
                );
            }
        }
    }
}

#[test]
fn idle_floors_have_their_defaults() {
    let idle = IdlePolicy::default();
    assert_eq!(idle.floor_days(&SafetyClass::GitWorktree), 7);
    assert_eq!(
        idle.floor_days(&SafetyClass::Regenerable {
            regenerate_hint: None
        }),
        3
    );
    assert_eq!(idle.floor_days(&SafetyClass::PackageCache), 30);
}

#[test]
fn clean_facts_are_reapable_for_every_class() {
    for class in [
        SafetyClass::Regenerable {
            regenerate_hint: None,
        },
        SafetyClass::GitWorktree,
        SafetyClass::PackageCache,
    ] {
        let verdict = classify(&clean_facts(class.clone()), &permissive_policy());
        assert_eq!(
            verdict,
            Disposition::Reapable,
            "clean {class:?} not reapable"
        );
    }
}

#[test]
fn protect_list_wins_even_when_fully_reapable() {
    let policy = Policy::new(Default::default(), 0, true, &["/w/proj/**".to_string()]).unwrap();
    let Disposition::Refused { reasons } = classify(
        &clean_facts(SafetyClass::Regenerable {
            regenerate_hint: None,
        }),
        &policy,
    ) else {
        panic!("protected candidate classified Reapable");
    };
    assert!(reasons
        .iter()
        .any(|r| matches!(r, RefusalReason::Protected { .. })));
}

#[test]
fn the_first_pattern_of_the_list_that_matches_protects() {
    let list = ["/elsewhere/**", "/w/**", "/w/proj/*"].map(String::from);
    let policy = Policy::new(Default::default(), 0, true, &list).unwrap();
    assert_eq!(policy.protected_by("/w/proj/target"), Some("/w/**"));
    assert_eq!(policy.protected_by("/elsewhere/x"), Some("/elsewhere/**"));
    assert_eq!(policy.protected_by("/z"), None);
    assert_eq!(Policy::default().protected_by("/w/proj/target"), None);
}

#[test]
fn a_bad_glob_is_a_construction_error() {
    let list = ["/ok/**".to_string(), "/bad/[".to_string()];
    let PatternError(text) = Policy::new(Default::default(), 0, true, &list).unwrap_err();
    assert!(text.contains("/bad/["), "{text}");
}

#[test]
fn caches_refuse_unless_opted_in() {
    let default_policy = Policy::default(); // include_caches = false
    let mut facts = clean_facts(SafetyClass::PackageCache);
    facts.idle_days = Some(400); // clear the 30d floor: isolate the opt-in gate
    let Disposition::Refused { reasons } = classify(&facts, &default_policy) else {
        panic!("cache reapable without --include-caches");
    };
    assert!(reasons.contains(&RefusalReason::CachesExcluded));
}

#[test]
fn every_other_gate_gives_its_own_reason() {
    let policy = Policy::new(Default::default(), 1000, true, &[]).unwrap();
    let mut facts = clean_facts(SafetyClass::Regenerable {
        regenerate_hint: None,
    });
    facts.active_build = Some(true);
    facts.same_device = Some(false);
    facts.cloud_backed = Some(true);
    facts.size_bytes = Some(999);
    assert_eq!(
        reasons(&facts, &policy),
        vec![
            RefusalReason::ActiveBuild { pids: vec![] },
            RefusalReason::CrossDevice,
            RefusalReason::CloudBacked,
            RefusalReason::TooSmall {
                size_bytes: 999,
                min_size_bytes: 1000
            },
        ]
    );
    facts.live_pids = Some(vec![3, 4]);
    assert_eq!(
        reasons(&facts, &policy)[..2],
        [
            RefusalReason::LiveProcess { pids: vec![3, 4] },
            RefusalReason::ActiveBuild { pids: vec![3, 4] },
        ]
    );
    facts.live_pids = None;
    assert_eq!(
        reasons(&facts, &policy)[..2],
        [
            unknown("live_pids"),
            RefusalReason::ActiveBuild { pids: vec![] }
        ]
    );
}

#[test]
fn a_detached_worktree_is_refused_even_at_zero() {
    let mut facts = clean_facts(SafetyClass::GitWorktree);
    facts.git.as_mut().unwrap().head = Some(HeadState::Detached {
        unreachable_commits: 0,
    });
    facts.git.as_mut().unwrap().lock = Some(LockState::Locked { note: None });
    assert_eq!(
        reasons(&facts, &permissive_policy()),
        vec![
            RefusalReason::Locked { note: None },
            RefusalReason::Detached {
                unreachable_commits: 0
            }
        ]
    );
}

#[test]
fn git_facts_do_not_matter_outside_worktrees() {
    let mut facts = clean_facts(SafetyClass::Regenerable {
        regenerate_hint: None,
    });
    facts.git = Some(GitFacts {
        dirty_entries: Some(3),
        unpushed_commits: None,
        lock: None,
        head: None,
    });
    assert_eq!(
        classify(&facts, &permissive_policy()),
        Disposition::Reapable
    );
}

#[test]
fn an_unprobed_candidate_is_refused_for_every_fact() {
    let facts = Facts::unprobed(candidate(SafetyClass::GitWorktree));
    assert_eq!(
        reasons(&facts, &permissive_policy()),
        [
            "live_pids",
            "active_build",
            "same_device",
            "cloud_backed",
            "idle_days",
            "size_bytes",
            "git"
        ]
        .map(unknown)
    );
}

#[test]
fn plan_is_typed_ordered_and_only_reachable_through_admission() {
    let policy = permissive_policy();
    let wt = admit_facts(&clean_facts(SafetyClass::GitWorktree), &policy).unwrap();
    let mut regen_facts = clean_facts(SafetyClass::Regenerable {
        regenerate_hint: Some("cargo build".into()),
    });
    regen_facts.candidate.path = "/a/first/target".to_string();
    let regen = admit_facts(&regen_facts, &policy).unwrap();

    // Input order is worktree-first; the plan must be path-ordered anyway.
    let p = plan(&[wt.clone(), regen.clone()]);
    assert_eq!(p.steps.len(), 2);
    assert!(matches!(
        &p.steps[0],
        ReapStep::DeleteDir { path, regenerate_hint: Some(h) }
            if path == "/a/first/target" && h == "cargo build"
    ));
    assert!(matches!(
        &p.steps[1],
        ReapStep::RemoveWorktree { branch: Some(b), .. } if b == "main"
    ));
    // And the other way round it is the same plan.
    assert_eq!(plan(&[regen, wt]), p);

    // And the refused can never get in: admission is the only door.
    let dirty = Facts {
        git: Some(GitFacts {
            dirty_entries: Some(3),
            unpushed_commits: Some(0),
            lock: Some(LockState::Unlocked),
            head: Some(HeadState::Attached {
                branch: "main".into(),
            }),
        }),
        ..clean_facts(SafetyClass::GitWorktree)
    };
    assert!(admit_facts(&dirty, &policy).is_err());
}

#[test]
fn admitted_facts_are_those_that_were_admitted() {
    let facts = clean_facts(SafetyClass::GitWorktree);
    let admitted = admit_facts(&facts, &permissive_policy()).unwrap();
    assert_eq!(admitted.facts(), &facts);
}
