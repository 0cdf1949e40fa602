//! What holds across functions, on concrete values.

use reaper::bytes::{cstr_at, find_nul, read_i32, read_i64, read_u16, read_u32, read_u64};
use reaper::dirread::{
    append_linux_entries, linux_caps, mac_caps, mac_entry, std_caps, std_entry, win_caps,
    win_entry, Caps, Entry, FileKind, StdType,
};
use reaper::orchestrator::{ScanTotals, Visit};
use reaper::parse::{RawMacEntry, RawWinEntry};
use reaper::paths::{order_paths, PathOrder};
use reaper::prober::{probe, SubtreeSum};
use reaper::sweep::{pid_of, Sweep};
use reaper::text::{decimal, first_word, join_texts, pad_left, pad_right, replace_text, trim};
use reaper::update::newer;
use reaper::{
    classify, Candidate, DetectorId, Disposition, EcosystemId, Facts, Policy, RefusalReason,
    SafetyClass,
};

fn candidate() -> Candidate {
    Candidate {
        path: "/w/target".to_string(),
        ecosystem: EcosystemId("rust".into()),
        detector: DetectorId("rust-target".into()),
        safety_class: SafetyClass::Regenerable {
            regenerate_hint: None,
        },
    }
}

#[test]
fn an_undercount_only_makes_a_candidate_less_attractive() {
    let policy = Policy::new(Default::default(), 100, false, &[]).unwrap();
    let verdict = |size: u64| {
        let facts = Facts {
            size_bytes: Some(size),
            idle_days: Some(9),
            live_pids: Some(vec![]),
            active_build: Some(false),
            same_device: Some(true),
            cloud_backed: Some(false),
            ..Facts::unprobed(candidate())
        };
        classify(&facts, &policy)
    };
    assert!(matches!(verdict(99), Disposition::Refused { .. }));
    for size in [100, 101, u64::MAX] {
        assert_eq!(verdict(size), Disposition::Reapable);
    }
}

#[test]
fn an_unswept_candidate_is_refused() {
    let mut sum = SubtreeSum::new();
    let file = Entry {
        name: "f".into(),
        kind: FileKind::File,
        len: Some(10),
        mtime: Some(1),
        ino: None,
        cloud: Some(false),
    };
    sum.observe(&file, 0, None);
    let facts = probe(&candidate(), Some(1), Some(1), &sum, 10_000_000_000_000_000);
    assert_eq!(
        classify(&facts, &Policy::default()),
        Disposition::Refused {
            reasons: vec![RefusalReason::Unknown {
                what: "live_pids".into()
            }]
        }
    );
}

#[test]
fn visits_and_sightings_commute() {
    let visit = |n: usize, files: u64| Visit {
        discovered: vec![candidate(); n],
        descend: vec![],
        files,
    };
    let record = |order: [&Visit; 2]| {
        let mut totals = ScanTotals::new();
        for v in order {
            totals.enter();
            totals.record(v);
        }
        totals
    };
    let (a, b) = (visit(1, 7), visit(2, 30));
    assert_eq!(record([&a, &b]), record([&b, &a]));
    assert_eq!(
        record([&a, &b]),
        ScanTotals {
            dirs: 2,
            files: 37,
            candidates: 3
        }
    );

    let dirs = vec!["/w".to_string()];
    let sweep = |order: [u32; 3]| {
        let mut s = Sweep::new(&dirs, 2);
        for pid in order {
            s.note(pid, "/w/x");
        }
        s.finish()
    };
    assert_eq!(sweep([3, 1, 2]), vec![Some(vec![1, 3])]);
    assert_eq!(sweep([2, 1, 3]), sweep([3, 1, 2]));
}

fn honours(e: &Entry, caps: Caps) -> bool {
    (e.kind != FileKind::File || e.len.is_some() == caps.size)
        && e.mtime.is_some() == caps.mtime
        && e.ino.is_some() == caps.ino
        && e.cloud.is_some() == caps.cloud
}

#[test]
fn entries_have_what_their_backend_declares() {
    let mut record = vec![0u8; 24];
    record[16] = 24;
    record[18] = 8;
    record[19] = b'f';
    let mut linux = Vec::new();
    append_linux_entries(&mut linux, &record, 1);
    assert_eq!(linux.len(), 1);
    assert!(honours(&linux[0], linux_caps()));
    let mac = mac_entry(
        RawMacEntry {
            name: "f".into(),
            objtype: 1,
            mtime_sec: 0,
            mtime_nsec: 0,
            flags: 0,
            file_id: 1,
            data_length: Some(1),
        },
        1,
    );
    assert!(honours(&mac, mac_caps()));
    let win = win_entry(RawWinEntry {
        name: "f".into(),
        attributes: 0,
        end_of_file: 0,
        last_write_time: 0,
        file_id: 0,
    });
    assert!(honours(&win, win_caps()));
    let file = StdType {
        is_symlink: false,
        is_dir: false,
        is_file: true,
    };
    assert!(honours(&std_entry("f".into(), Some(file)), std_caps()));
}

#[test]
fn numbers_read_back() {
    for n in [0u64, 9, 10, 4_294_967_295, u64::MAX] {
        assert_eq!(decimal(n), n.to_string());
    }
    assert_eq!(pid_of(&decimal(40_961)), Some(40_961));
    let mut buf = vec![0xee];
    buf.extend(0x0102_0304_0506_0708u64.to_le_bytes());
    assert_eq!(read_u64(&buf, 1), 0x0102_0304_0506_0708);
    assert_eq!(read_u32(&buf, 1), 0x0506_0708);
    assert_eq!(read_u16(&buf, 1), 0x0708);
    for n in [0i64, -1, i64::MIN, i64::MAX] {
        assert_eq!(read_i64(&n.to_le_bytes(), 0), n);
    }
    for n in [0i32, -1, i32::MIN, i32::MAX] {
        assert_eq!(read_i32(&n.to_le_bytes(), 0), n);
    }
    assert_eq!(find_nul(b"ab\0c\0", 1, 5), 2);
    assert_eq!(find_nul(b"abc", 1, 2), 2);
    assert_eq!(cstr_at(b"xab\0", 1), Some("ab"));
    assert_eq!(cstr_at(b"xab", 1), None);
}

#[test]
fn newer_is_a_strict_order() {
    let versions = ["0.1.0", "0.1.1", "0.2", "0.10.0", "1", "1.0"];
    for (i, a) in versions.iter().enumerate() {
        for (j, b) in versions.iter().enumerate() {
            assert_eq!(newer(a, b), i > j, "{a} {b}");
        }
    }
}

#[test]
fn paths_are_totally_ordered() {
    let paths = ["", "/", "/a", "/a/b", "/a-b", ".", "..", "a", "a/b"];
    for a in paths {
        assert_eq!(order_paths(a, a), PathOrder::Same);
        for b in paths {
            let forth = order_paths(a, b);
            let back = match order_paths(b, a) {
                PathOrder::Before => PathOrder::After,
                PathOrder::Same => PathOrder::Same,
                PathOrder::After => PathOrder::Before,
            };
            assert_eq!(forth, back);
            for c in paths {
                if forth == PathOrder::Before && order_paths(b, c) == PathOrder::Before {
                    assert_eq!(order_paths(a, c), PathOrder::Before);
                }
            }
        }
    }
}

#[test]
fn texts_are_trimmed_padded_joined_and_replaced_as_std_does() {
    let chars = |s: &str| s.chars().collect::<Vec<char>>();
    let text = |c: &[char]| c.iter().collect::<String>();
    for s in [
        "",
        "  a b  ",
        "\t\u{85}x\u{a0}\u{2003}",
        "\u{1680}\u{2028}\u{2029}\u{202f}\u{205f}\u{3000}",
        "no\u{200b}space",
        "\u{b}\u{c}y\r\n",
    ] {
        assert_eq!(text(trim(&chars(s))), s.trim());
        assert_eq!(
            text(first_word(&chars(s))),
            s.split_whitespace().next().unwrap_or_default()
        );
    }
    assert_eq!(pad_left("größe", 8), format!("{:>8}", "größe"));
    assert_eq!(pad_right("größe", 8), format!("{:<8}", "größe"));
    assert_eq!(pad_right("größe", 3), "größe");
    let parts = ["a", "", "b"].map(String::from);
    assert_eq!(join_texts(&parts, " · "), parts.join(" · "));
    assert_eq!(join_texts(&[], ","), "");
    for s in ["aXXbXX", "XXX", "none", ""] {
        assert_eq!(replace_text(&chars(s), "XX", "-"), s.replace("XX", "-"));
    }
}

#[test]
fn every_white_space_character_is_known() {
    for c in (0u32..0x11_0000).filter_map(char::from_u32) {
        let s = [c];
        assert_eq!(trim(&s).is_empty(), c.is_whitespace(), "{c:?}");
    }
}
