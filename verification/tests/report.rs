//! The scan report, sizes, and the interactive browser.

use reaper::browser::{
    browse_banner, confirm_banner, filter_banner, header_text, idle_text, mark_text,
    report_banner, scanned_text, Browser, Key, KeyAction, Mode,
};
use reaper::deleter::StepOutcome;
use reaper::orchestrator::ScanTotals;
use reaper::render::{reason_brief, reason_code, reason_short, verdict_brief, verdict_short};
use reaper::report::{
    admit_all, admitted_sizes, idle_floors, prepare, report_rows, select_ecosystems, step_sizes,
};
use reaper::sizes::{human_bytes, parse_size, total};
use reaper::state::{linux_state_dir, mac_state_dir, state_dir};
use reaper::table::{hint_line, row_line, summary_line, table_lines, tally_refusals};
use reaper::{
    classify, plan, seal, Candidate, DetectorId, Disposition, EcosystemId, Facts, IdlePolicy,
    Policy, RefusalReason, SafetyClass,
};

fn facts(path: &str, ecosystem: &str, size: Option<u64>, idle: Option<u64>) -> Facts {
    Facts {
        candidate: Candidate {
            path: path.to_string(),
            ecosystem: EcosystemId(ecosystem.into()),
            detector: DetectorId("d".into()),
            safety_class: SafetyClass::Regenerable {
                regenerate_hint: None,
            },
        },
        size_bytes: size,
        idle_days: idle,
        live_pids: Some(vec![]),
        active_build: Some(false),
        same_device: Some(true),
        cloud_backed: Some(false),
        git: None,
    }
}

fn all_reasons() -> Vec<(RefusalReason, &'static str, &'static str)> {
    vec![
        (RefusalReason::Dirty { entries: 14 }, "dirty(14)", "dirty(14)"),
        (
            RefusalReason::UnpushedCommits { count: 3 },
            "unpushed(3)",
            "unpushed(3)",
        ),
        (
            RefusalReason::Locked {
                note: Some("keep".into()),
            },
            "locked(keep)",
            "locked",
        ),
        (RefusalReason::Locked { note: None }, "locked", "locked"),
        (
            RefusalReason::Detached {
                unreachable_commits: 2,
            },
            "detached(2 unreachable)",
            "detached",
        ),
        (
            RefusalReason::LiveProcess { pids: vec![7, 99] },
            "live-process([7, 99])",
            "live(2)",
        ),
        (
            RefusalReason::ActiveBuild { pids: vec![] },
            "active-build",
            "building",
        ),
        (RefusalReason::CrossDevice, "cross-device", "xdev"),
        (RefusalReason::CloudBacked, "cloud-backed", "cloud"),
        (
            RefusalReason::Protected {
                pattern: "/w/**".into(),
            },
            "protected(/w/**)",
            "protected",
        ),
        (
            RefusalReason::CachesExcluded,
            "caches-excluded",
            "cache(opt-in)",
        ),
        (
            RefusalReason::TooRecent {
                idle_days: 0,
                min_idle_days: 3,
            },
            "too-recent(0d < 3d)",
            "fresh(0d<3d)",
        ),
        (
            RefusalReason::TooSmall {
                size_bytes: 1,
                min_size_bytes: 2,
            },
            "too-small(1 < 2)",
            "small",
        ),
        (
            RefusalReason::Unknown {
                what: "git.lock".into(),
            },
            "unknown(git.lock)",
            "?git.lock",
        ),
    ]
}

#[test]
fn every_refusal_has_its_renderings() {
    for (reason, brief, short) in all_reasons() {
        assert_eq!(reason_brief(&reason), brief);
        assert_eq!(reason_short(&reason), short);
        assert_eq!(reason_code(&reason), brief.split('(').next().unwrap());
    }
    let two = Disposition::Refused {
        reasons: vec![RefusalReason::CrossDevice, RefusalReason::Dirty { entries: 1 }],
    };
    assert_eq!(verdict_brief(&two), "refused: cross-device · dirty(1)");
    assert_eq!(verdict_short(&two), "⚠ xdev dirty(1)");
    assert_eq!(verdict_brief(&Disposition::Reapable), "reapable");
    assert_eq!(verdict_short(&Disposition::Reapable), "● reapable");
}

/// The same size, computed with floating point.
fn float_bytes(b: u64) -> String {
    const UNITS: [&str; 5] = ["B", "K", "M", "G", "T"];
    let mut v = b as f64;
    let mut unit = 0;
    while v >= 1024.0 && unit < UNITS.len() - 1 {
        v /= 1024.0;
        unit += 1;
    }
    if unit == 0 {
        format!("{b}{}", UNITS[0])
    } else {
        format!("{v:.1}{}", UNITS[unit])
    }
}

#[test]
fn sizes_are_shown_to_one_decimal() {
    for (b, text) in [
        (0, "0B"),
        (1023, "1023B"),
        (1024, "1.0K"),
        (1075, "1.0K"),
        (1076, "1.1K"),
        (1280, "1.2K"), // halfway to the even digit
        (1792, "1.8K"),
        (1_048_575, "1024.0K"),
        (15_000_000_000, "14.0G"),
        (u64::MAX, "16777216.0T"),
    ] {
        assert_eq!(human_bytes(b), text, "{b}");
    }
}

#[test]
fn sizes_agree_with_floating_point() {
    let mut cases: Vec<u64> = (0..5000).collect();
    for shift in 10..64 {
        let base = 1u64 << shift;
        for d in 0..40u64 {
            cases.push(base.wrapping_add(d * (base >> 7).max(1)));
            cases.push(base.wrapping_sub(d));
            cases.push(base.wrapping_add(d));
            // Near the middles between two decimals.
            let middle = ((2 * d + 1) * (base / 20)).wrapping_add(base);
            cases.extend([middle.wrapping_sub(1), middle, middle.wrapping_add(1)]);
        }
    }
    let mut x = 0x9e37_79b9_7f4a_7c15u64;
    for _ in 0..20_000 {
        x = x.wrapping_mul(6364136223846793005).wrapping_add(1442695040888963407);
        cases.push(x);
        cases.push(x >> (x % 60));
    }
    for b in cases {
        assert_eq!(human_bytes(b), float_bytes(b), "{b}");
    }
}

#[test]
fn sizes_are_parsed() {
    for (s, n) in [
        ("1024", 1024),
        ("500M", 500 << 20),
        ("1G", 1 << 30),
        (" 2 k ", 2048),
        ("3T", 3 << 40),
        ("+7m", 7 << 20),
        ("0", 0),
        ("18446744073709551615", u64::MAX),
        ("16777215T", 16777215 << 40),
    ] {
        assert_eq!(parse_size(s), Ok(n), "{s}");
    }
    for s in ["", "G", "1.5G", "-1", "1GB", "x", "18446744073709551616", "+"] {
        assert_eq!(
            parse_size(s),
            Err(format!("unparseable size {:?}", s.trim())),
        );
    }
    assert_eq!(
        parse_size("  1\"x "),
        Err("unparseable size \"1\\\"x\"".to_string())
    );
    // More bytes than can be counted.
    for s in ["18446744073709551615K", "16777216T", "17179869184g"] {
        assert_eq!(parse_size(s), Err(format!("unparseable size {s:?}")));
    }
}

#[test]
fn sums_are_checked() {
    assert_eq!(total(&[]), Some(0));
    assert_eq!(total(&[1, 2, 3]), Some(6));
    assert_eq!(total(&[u64::MAX]), Some(u64::MAX));
    assert_eq!(total(&[u64::MAX, 1]), None);
    assert_eq!(total(&[1, u64::MAX, 0]), None);
}

#[test]
fn ecosystems_narrow_the_report() {
    let all = || {
        ["rust", "node", "rust"]
            .iter()
            .enumerate()
            .map(|(i, e)| facts(&format!("/{i}"), e, None, None).candidate)
            .collect::<Vec<_>>()
    };
    assert_eq!(select_ecosystems(all(), &[]), all());
    let rust = select_ecosystems(all(), &["zig".to_string(), "rust".to_string()]);
    assert_eq!(rust.len(), 2);
    assert_eq!(rust[1].path, "/2");
    assert!(select_ecosystems(all(), &["zig".to_string()]).is_empty());
}

#[test]
fn idle_floors_can_be_set_for_every_class() {
    assert_eq!(idle_floors(None), IdlePolicy::default());
    assert_eq!(
        idle_floors(Some(1)),
        IdlePolicy {
            worktree_days: 1,
            regenerable_days: 1,
            cache_days: 1
        }
    );
}

#[test]
fn rows_are_ordered_by_path_and_the_plan_is_the_reapable_ones() {
    let all = [
        facts("/w/b", "rust", Some(10), Some(5)),
        facts("/w/a-x", "rust", Some(20), Some(0)),
        facts("/w/a/z", "rust", Some(30), Some(9)),
    ];
    let policy = Policy::default();
    let rows = report_rows(&all, &policy);
    let paths: Vec<&str> = rows.iter().map(|r| r.candidate.path.as_str()).collect();
    assert_eq!(paths, ["/w/a/z", "/w/a-x", "/w/b"]);
    assert_eq!(rows[0].disposition, Disposition::Reapable);
    assert!(matches!(rows[1].disposition, Disposition::Refused { .. }));
    assert_eq!(rows[2].size_bytes, Some(10));
    let admitted = admit_all(&all, &policy);
    assert_eq!(admitted.len(), 2);
    assert_eq!(admitted_sizes(&admitted), [10, 30]);
    let p = plan(&admitted);
    assert_eq!(step_sizes(&p, &admitted), [30, 10]);
    assert_eq!(step_sizes(&p, &admitted[..1]), [0, 10]);
    let prepared = prepare(&admitted).unwrap();
    assert_eq!(prepared.plan, p);
    assert_eq!(total(&prepared.sizes), total(&admitted_sizes(&admitted)));
    assert!(prepare(&[]).is_none());
}

#[test]
fn rows_of_one_path_keep_their_order() {
    let all = [
        facts("/w/a", "one", None, None),
        facts("/v", "x", None, None),
        facts("/w//a", "two", None, None),
    ];
    let rows = report_rows(&all, &Policy::default());
    let names: Vec<&str> = rows.iter().map(|r| r.candidate.ecosystem.0.as_str()).collect();
    assert_eq!(names, ["x", "one", "two"]);
}

#[test]
fn the_table_has_a_line_for_each_row() {
    let totals = ScanTotals {
        dirs: 12,
        files: 345,
        candidates: 2,
    };
    let all = [
        facts("/w/target", "rust", Some(1536), Some(10)),
        facts("/w/x", "an-ecosystem", None, None),
    ];
    let rows = report_rows(&all, &Policy::default());
    assert_eq!(
        row_line(&rows[0]),
        format!(
            "{:>9} {:<8} {:<9} {:<40} {}",
            "1.5K", "rust", "idle 10d", "/w/target", "reapable"
        )
    );
    assert_eq!(
        row_line(&rows[1]),
        format!(
            "{:>9} {:<8} {:<9} {:<40} {}",
            "?", "an-ecosystem", "idle ?", "/w/x", "refused: unknown(idle_days) · unknown(size_bytes)"
        )
    );
    let lines = table_lines(&rows, &totals, 1536, Some("sha256:ab"));
    assert_eq!(lines.len(), 4);
    assert_eq!(
        lines[2],
        "2 candidate(s) · 12 dirs · 345 files scanned · 1.5K reapable"
    );
    assert_eq!(lines[2], summary_line(&totals, 1536));
    assert_eq!(
        lines[3],
        "plan sealed: reaper reap --plan sha256:ab [--execute]   (PERMANENT delete)"
    );
    assert_eq!(table_lines(&[], &totals, 0, None).len(), 1);
    let refused = table_lines(&rows[1..], &totals, 0, None);
    assert_eq!(refused.len(), 3);
    assert_eq!(refused[2], hint_line(&rows[1..]));
}

#[test]
fn the_hint_names_the_most_frequent_refusals() {
    let mut all = Vec::new();
    for i in 0..3 {
        let mut f = facts(&format!("/{i}"), "rust", Some(1), Some(0));
        f.same_device = if i == 0 { Some(false) } else { Some(true) };
        f.cloud_backed = if i == 1 { Some(true) } else { Some(false) };
        f.active_build = if i < 2 { Some(true) } else { Some(false) };
        all.push(f);
    }
    let rows = report_rows(&all, &Policy::default());
    let pair = |code: &str, n: u64| (code.to_string(), n);
    assert_eq!(
        tally_refusals(&rows),
        [
            pair("too-recent", 3),
            pair("active-build", 2),
            pair("cloud-backed", 1),
            pair("cross-device", 1),
        ]
    );
    assert_eq!(
        hint_line(&rows),
        "0 reapable — all 3 candidate(s) refused (too-recent×3 · active-build×2 · cloud-backed×1). Fresh builds age out: try --min-idle-days 1, or check the refusals above."
    );
}

#[test]
fn state_lies_below_what_is_set() {
    assert_eq!(state_dir(Some("/s"), Some("/p"), "/tmp"), "/s/reaper");
    assert_eq!(state_dir(None, Some("/p"), "/tmp"), "/p/reaper");
    assert_eq!(state_dir(None, None, "/tmp"), "/tmp/reaper");
    assert_eq!(
        linux_state_dir(Some("/x"), Some("/h")).as_deref(),
        Some("/x")
    );
    assert_eq!(
        linux_state_dir(None, Some("/h")).as_deref(),
        Some("/h/.local/state")
    );
    assert_eq!(linux_state_dir(None, None), None);
    assert_eq!(
        mac_state_dir(Some("/h")).as_deref(),
        Some("/h/Library/Application Support")
    );
    assert_eq!(mac_state_dir(None), None);
}

fn browser() -> Browser {
    let mut b = Browser::new();
    for (path, size, idle) in [
        ("/w/small", Some(1), Some(10)),
        ("/w/big", Some(300), Some(10)),
        ("/w/fresh", Some(20), Some(0)),
        ("/w/unknown", None, Some(10)),
        ("/w/also-20", Some(20), Some(10)),
    ] {
        let f = facts(path, "rust", size, idle);
        let d = classify(&f, &Policy::default());
        b.add_item(f, d);
    }
    b
}

fn paths(b: &Browser) -> Vec<&str> {
    b.items
        .iter()
        .map(|i| i.facts.candidate.path.as_str())
        .collect()
}

fn press(b: &mut Browser, c: char) -> KeyAction {
    b.on_key(Key::Char { c, control: false })
}

#[test]
fn larger_rows_come_first() {
    let b = browser();
    assert_eq!(
        paths(&b),
        ["/w/big", "/w/fresh", "/w/also-20", "/w/small", "/w/unknown"]
    );
    assert_eq!(b.selected, Some(0));
    assert!(b.items.iter().all(|i| !i.marked));
}

#[test]
fn the_selection_stays_on_the_rows() {
    let mut b = browser();
    b.on_key(Key::Up);
    assert_eq!(b.selected, Some(0));
    for _ in 0..9 {
        b.on_key(Key::Down);
    }
    assert_eq!(b.selected, Some(4));
    press(&mut b, 'k');
    assert_eq!(b.selected, Some(3));
    press(&mut b, 'j');
    assert_eq!(b.selected, Some(4));
    let mut empty = Browser::new();
    empty.on_key(Key::Down);
    assert_eq!(empty.selected, None);
    press(&mut empty, ' ');
}

#[test]
fn refused_rows_cannot_be_marked() {
    let mut b = browser();
    press(&mut b, ' ');
    assert!(b.items[0].marked);
    press(&mut b, ' ');
    assert!(!b.items[0].marked);
    press(&mut b, 'j');
    press(&mut b, ' ');
    assert!(!b.items[1].marked, "a fresh row was marked");
    press(&mut b, 'a');
    let marks: Vec<bool> = b.items.iter().map(|i| i.marked).collect();
    assert_eq!(marks, [true, false, true, true, false]);
    assert_eq!(b.marked_count(), 3);
    assert_eq!(b.marked_bytes(), Some(321));
    let admitted = b.marked_admitted(&Policy::default());
    assert_eq!(admitted.len(), 3);
    assert_eq!(admitted[0].facts().candidate.path, "/w/big");
}

#[test]
fn only_a_typed_y_executes() {
    let mut b = browser();
    press(&mut b, 'a');
    assert_eq!(press(&mut b, 'x'), KeyAction::Seal);
    assert_eq!(press(&mut b, 'd'), KeyAction::Seal);
    let sealed = |b: &Browser| {
        let admitted = b.marked_admitted(&Policy::default());
        let p = plan(&admitted);
        let sizes = step_sizes(&p, &admitted);
        seal(&p, &vec![None; p.steps.len()], &sizes)
    };
    let plan_one = sealed(&b);
    b.confirm(plan_one);
    assert!(matches!(b.mode, Mode::Confirm(_)));
    assert_eq!(press(&mut b, 'q'), KeyAction::Nothing); // aborts, does not quit
    assert!(matches!(b.mode, Mode::Browse));
    let plan_two = sealed(&b);
    b.confirm(plan_two);
    assert_eq!(press(&mut b, 'y'), KeyAction::Execute);
    b.report(vec![
        StepOutcome::Reaped {
            path: "/w//big".into(),
            freed_bytes: 300,
            recover: None,
        },
        StepOutcome::Refused {
            path: "/w/small".into(),
            why: "live".into(),
        },
    ]);
    assert_eq!(
        paths(&b),
        ["/w/fresh", "/w/also-20", "/w/small", "/w/unknown"]
    );
    assert_eq!(b.selected, Some(0));
    assert!(matches!(&b.mode, Mode::Report(o) if o.len() == 2));
    assert_eq!(b.on_key(Key::Other), KeyAction::Nothing);
    assert!(matches!(b.mode, Mode::Browse));
    assert_eq!(press(&mut b, 'y'), KeyAction::Nothing);
}

#[test]
fn a_filter_is_typed_and_narrows_what_is_visible() {
    let mut b = browser();
    assert_eq!(b.visible(), [0, 1, 2, 3, 4]);
    press(&mut b, '/');
    for c in "w/bx".chars() {
        press(&mut b, c);
    }
    assert!(b.visible().is_empty());
    b.on_key(Key::Backspace);
    assert!(matches!(&b.mode, Mode::Filter(f) if f == "w/b"));
    assert_eq!(b.visible(), [0]);
    b.on_key(Key::Up);
    b.on_key(Key::Enter);
    assert!(matches!(b.mode, Mode::Browse));
    assert_eq!(b.visible(), [0, 1, 2, 3, 4]);
    press(&mut b, '/');
    b.on_key(Key::Backspace);
    assert!(matches!(&b.mode, Mode::Filter(f) if f.is_empty()));
    b.on_key(Key::Esc);
    assert!(matches!(b.mode, Mode::Browse));
}

#[test]
fn browsing_can_be_quit() {
    let mut b = browser();
    assert_eq!(b.on_key(Key::Esc), KeyAction::Quit);
    assert_eq!(press(&mut b, 'q'), KeyAction::Quit);
    assert_eq!(press(&mut b, 'c'), KeyAction::Nothing);
    assert_eq!(
        b.on_key(Key::Char {
            c: 'c',
            control: true
        }),
        KeyAction::Quit
    );
}

#[test]
fn permanence_is_loud() {
    assert_eq!(
        confirm_banner(2, 1024),
        " ⚠ PERMANENT DELETE — 2 step(s), 1.0K · type y to commit, any key aborts "
    );
    assert_eq!(
        report_banner(0, 1, 0),
        " freed 0B · 1 left in place · any key continues "
    );
    assert_eq!(
        report_banner(1024, 0, 2),
        " freed 1.0K · 0 left in place · 2 interrupted · any key continues "
    );
    assert_eq!(filter_banner("ab"), " / ab▌  (Enter/Esc done)");
    assert_eq!(
        browse_banner(2048, 3),
        " SELECTED 2.0K in 3 · ⚠ PERMANENT DELETE · space mark  a all  x reap  / filter  q quit "
    );
    assert_eq!(header_text("scanning…", 5), "── scanning… · 5 candidates ");
    assert_eq!(scanned_text(1, 22), "1 dirs · 22 files scanned");
    let mut b = browser();
    assert_eq!(mark_text(&b.items[0]), "·");
    press(&mut b, ' ');
    assert_eq!(mark_text(&b.items[0]), "✔");
    assert_eq!(mark_text(&b.items[1]), " ");
    assert_eq!(idle_text(&b.items[0].facts), "10d");
    assert_eq!(idle_text(&facts("/", "e", None, None)), "?");
}
