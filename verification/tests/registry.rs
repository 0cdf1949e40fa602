//! The ruleset and what it matches.

use reaper::orchestrator::{visit, ScanTotals};
use reaper::dirread::{std_entry, Entry, StdType};
use reaper::registry::{Detector, DetectorKind, Marker, RowRead};
use reaper::{DetectorId, EcosystemId, Registry, RulesetError, SafetyClass};
use std::collections::{BTreeMap, BTreeSet};

#[test]
fn embedded_ruleset_parses_and_covers_the_bar() {
    let reg = Registry::embedded().expect("embedded ruleset must always load");
    assert!(
        reg.detectors().len() >= 15,
        "launch coverage bar: top ~15 ecosystems"
    );
}

#[test]
fn embedded_ruleset_has_every_row() {
    let reg = Registry::embedded().unwrap();
    assert_eq!(reg.detectors().len(), 27);
    let first: &Detector = &reg.detectors()[0];
    assert_eq!(first.id, "rust-target");
    assert_eq!(first.ecosystem, "rust");
    assert_eq!(
        first.kind,
        DetectorKind::SiblingMarker {
            reclaim_dir: "target".to_string(),
            marker: Some(Marker::Exact("Cargo.toml".to_string())),
        }
    );
    assert_eq!(
        first.safety,
        SafetyClass::Regenerable {
            regenerate_hint: Some("cargo build".to_string())
        }
    );
}

#[test]
fn unknown_safety_or_kind_is_a_load_error_never_a_skip() {
    let bad = r#"[[detector]]
id = "x"
ecosystem = "x"
reclaim_dir = "y"
safety = "yolo""#;
    assert!(Registry::from_toml(bad).is_err());
    let bad_kind = r#"[[detector]]
id = "x"
ecosystem = "x"
kind = "telepathy"
safety = "regenerable""#;
    assert!(Registry::from_toml(bad_kind).is_err());
}

#[test]
fn load_errors_say_what_is_wrong() {
    let load = |text: &str| Registry::from_toml(text).unwrap_err();
    let row = "[[detector]]\nid = 'x'\necosystem = 'e'\n";
    assert_eq!(
        load(&format!("{row}reclaim_dir = 'y'\nsafety = 'yo\"lo'")),
        RulesetError("detector x: unknown safety \"yo\\\"lo\"".to_string())
    );
    assert_eq!(
        load(&format!("{row}kind = 'telepathy'\nsafety = 'regenerable'")).0,
        "detector x: unknown kind \"telepathy\""
    );
    assert_eq!(
        load(&format!("{row}safety = 'regenerable'")).0,
        "detector x: reclaim_dir required"
    );
    assert_eq!(load(row).0, "missing field `safety`");
    assert_eq!(
        load("[[detector]]\nid = 'x'\nsafety = 'git_worktree'").0,
        "missing field `ecosystem`"
    );
    assert_eq!(
        load("[[detector]]\necosystem = 'x'\nsafety = 'git_worktree'").0,
        "missing field `id`"
    );
    assert_eq!(
        load(&format!("{row}safety = 'git_worktree'\ncolour = 'red'")).0,
        "unknown field `colour`, expected one of `id`, `ecosystem`, `kind`, `reclaim_dir`, \
         `marker`, `safety`, `regenerate`"
    );
    assert_eq!(load("title = 'no rows'").0, "missing field `detector`");
    assert_eq!(
        load(&format!("{row}safety = 7")).0,
        "invalid type: `safety`, expected a string"
    );
    // A date is no text.
    assert_eq!(
        load(&format!("{row}safety = 'regenerable'\nmarker = 1979-05-27")).0,
        "invalid type: `marker`, expected a string"
    );
    assert_eq!(
        load("detector = 'x'").0,
        "invalid type: `detector`, expected a sequence"
    );
    for item in ["7", "'x'", "true", "1.5", "1979-05-27"] {
        assert_eq!(
            load(&format!("detector = [{item}]")).0,
            "invalid type, expected struct DetectorRow"
        );
    }
    // What is no TOML at all comes with the parser's words.
    assert!(!load("[[detector").0.is_empty());
    assert_eq!(
        load("title = 'no rows'").message(),
        "ruleset error: missing field `detector`"
    );
}

#[test]
fn a_later_malformed_row_is_reported_before_an_earlier_unknown_safety() {
    let text = "[[detector]]\nid = 'a'\necosystem = 'e'\nsafety = 'yolo'\n[[detector]]\nid = 'b'\n";
    assert_eq!(
        Registry::from_toml(text).unwrap_err().0,
        "missing field `ecosystem`"
    );
}

#[test]
fn a_row_can_be_an_array_of_all_that_it_has() {
    let load = |row: &str| Registry::from_toml(&format!("detector = [[{row}]]"));
    let reg = load("'a', 'e', 'cachedir_tag', 'd', 'm', 'regenerable', 'make'").unwrap();
    assert_eq!(reg.detectors().len(), 1);
    assert_eq!(reg.detectors()[0].id, "a");
    assert_eq!(reg.detectors()[0].ecosystem, "e");
    assert_eq!(reg.detectors()[0].kind, DetectorKind::CachedirTag);
    assert_eq!(
        reg.detectors()[0].safety,
        SafetyClass::Regenerable {
            regenerate_hint: Some("make".to_string())
        }
    );
    // What comes after is not looked at.
    let longer = load("'a', 'e', 'git_worktree', 'd', 'm', 'git_worktree', 'r', 7").unwrap();
    assert_eq!(longer.detectors()[0].kind, DetectorKind::GitWorktreeSelf);
    assert_eq!(
        load("'a', 'e', 'git_worktree'").unwrap_err().0,
        "invalid length 3, expected struct DetectorRow with 7 elements"
    );
    assert_eq!(
        load("'a', 'e', 'git_worktree', 4, 'm', 'git_worktree', 'r'").unwrap_err().0,
        "invalid type, expected a string"
    );
    assert_eq!(
        load("'a', 'e', 'k', 'd', 'm', 'git_worktree', 'r'").unwrap_err().0,
        "detector a: unknown kind \"k\""
    );
}

#[test]
fn rows_are_read_from_tables() {
    let pair = |k: &str, v: &str| (k.to_string(), Some(v.to_string()));
    let rows = vec![
        RowRead::Table(vec![
            pair("ecosystem", "dotnet"),
            pair("id", "dotnet-bin"),
            pair("marker", "*.csproj"),
            pair("reclaim_dir", "bin"),
            pair("safety", "regenerable"),
        ]),
        RowRead::Table(vec![
            pair("ecosystem", "cache"),
            pair("id", "tag"),
            pair("kind", "cachedir_tag"),
            pair("safety", "package_cache"),
        ]),
    ];
    let reg = Registry::from_rows(&rows).unwrap();
    assert_eq!(reg.detectors().len(), 2);
    assert_eq!(
        reg.detectors()[0].kind,
        DetectorKind::SiblingMarker {
            reclaim_dir: "bin".to_string(),
            marker: Some(Marker::Extension(".csproj".to_string())),
        }
    );
    assert_eq!(
        reg.detectors()[0].safety,
        SafetyClass::Regenerable {
            regenerate_hint: None
        }
    );
    assert_eq!(reg.detectors()[1].kind, DetectorKind::CachedirTag);
    assert_eq!(reg.detectors()[1].safety, SafetyClass::PackageCache);
}

#[test]
fn markers_parse_and_hit() {
    assert_eq!(
        Marker::parse("*.xcodeproj"),
        Marker::Extension(".xcodeproj".to_string())
    );
    assert_eq!(Marker::parse("go.mod"), Marker::Exact("go.mod".to_string()));
    assert_eq!(Marker::parse(""), Marker::Exact("".to_string()));
    assert!(Marker::parse("*.xcodeproj").hits(&[], &["App.xcodeproj"]));
    assert!(!Marker::parse("*.xcodeproj").hits(&["App.xcodeproj.bak"], &["xcodeproj"]));
    assert!(Marker::parse("go.mod").hits(&["a", "go.mod"], &[]));
    assert!(Marker::parse("go.mod").hits(&[], &["go.mod"]));
    assert!(!Marker::parse("go.mod").hits(&["ago.mod"], &["go.modx"]));
}

#[test]
fn rust_target_fires_only_with_sibling_marker() {
    let reg = Registry::embedded().unwrap();
    let dir = "/w/proj";
    let hit = reg.match_listing(dir, &["Cargo.toml"], &["src", "target"]);
    assert_eq!(hit.len(), 1);
    assert_eq!(
        hit[0].candidate.path,
        camino::Utf8Path::new(dir).join("target").to_string()
    );
    assert!(hit[0].prune);
    assert!(reg.match_listing(dir, &[], &["src", "target"]).is_empty());
}

#[test]
fn first_match_wins_when_two_rows_claim_one_path() {
    // Both Cargo.toml and pom.xml present: rust-target is first in the
    // ruleset, so `target` is claimed once, as rust.
    let reg = Registry::embedded().unwrap();
    let dir = "/w/poly";
    let hits = reg.match_listing(dir, &["Cargo.toml", "pom.xml"], &["target"]);
    assert_eq!(hits.len(), 1);
    assert_eq!(hits[0].candidate.detector, DetectorId("rust-target".into()));
}

#[test]
fn extension_markers_and_markerless_rows_fire() {
    let reg = Registry::embedded().unwrap();
    let dir = "/w/app";
    // *.csproj extension marker
    let hits = reg.match_listing(dir, &["App.csproj"], &["bin", "obj"]);
    assert_eq!(hits.len(), 2);
    // markerless __pycache__
    let hits = reg.match_listing(dir, &[], &["__pycache__"]);
    assert_eq!(hits.len(), 1);
    assert_eq!(hits[0].candidate.ecosystem, EcosystemId("python".into()));
}

#[test]
fn cachedir_tag_claims_self_and_prunes() {
    let reg = Registry::embedded().unwrap();
    let dir = "/w/somecache/v2";
    let hits = reg.match_listing(dir, &["CACHEDIR.TAG", "data.bin"], &["gen"]);
    assert_eq!(hits.len(), 1);
    assert_eq!(hits[0].candidate.path, dir);
    assert!(hits[0].prune, "a self-declared cache is never descended");
}

#[test]
fn git_file_marks_a_worktree_but_git_dir_never_does() {
    let reg = Registry::embedded().unwrap();
    let dir = "/w/repo/.wt/feature";
    let hit = reg.match_listing(dir, &[".git", "README.md"], &["src"]);
    assert_eq!(hit.len(), 1);
    assert_eq!(hit[0].candidate.safety_class, SafetyClass::GitWorktree);
    assert!(!hit[0].prune);
    assert!(reg
        .match_listing(dir, &["README.md"], &[".git", "src"])
        .is_empty());
}

/// A tree held in memory: the directories, each with its files.
#[derive(Default)]
struct Tree {
    dirs: BTreeMap<String, BTreeSet<String>>,
    files: BTreeMap<String, BTreeSet<String>>,
}

impl Tree {
    fn mkdir(&mut self, path: &str) {
        let p = camino::Utf8Path::new(path);
        self.dirs.entry(path.to_string()).or_default();
        if let (Some(up), Some(name)) = (p.parent(), p.file_name()) {
            self.mkdir(up.as_str());
            self.dirs
                .get_mut(up.as_str())
                .unwrap()
                .insert(name.to_string());
        }
    }

    fn touch(&mut self, path: &str) {
        let p = camino::Utf8Path::new(path);
        let up = p.parent().unwrap().as_str();
        self.mkdir(up);
        self.files
            .entry(up.to_string())
            .or_default()
            .insert(p.file_name().unwrap().to_string());
    }

    fn list(&self, dir: &str) -> Option<Vec<Entry>> {
        let subdirs = self.dirs.get(dir)?;
        let kind = |is_dir: bool| {
            Some(StdType {
                is_symlink: false,
                is_dir,
                is_file: !is_dir,
            })
        };
        let mut out: Vec<Entry> = subdirs
            .iter()
            .map(|d| std_entry(d.clone(), kind(true)))
            .collect();
        if let Some(files) = self.files.get(dir) {
            out.extend(files.iter().map(|f| std_entry(f.clone(), kind(false))));
        }
        Some(out)
    }

    /// Walks the tree from `root`: what was discovered, and the totals.
    fn walk(&self, root: &str, registry: &Registry) -> (Vec<reaper::Candidate>, ScanTotals) {
        let mut totals = ScanTotals::new();
        let mut seen = Vec::new();
        let mut todo = vec![root.to_string()];
        while let Some(dir) = todo.pop() {
            totals.enter();
            let Some(entries) = self.list(&dir) else {
                continue;
            };
            let v = visit(registry, &dir, &entries);
            totals.record(&v);
            seen.extend(v.discovered);
            todo.extend(v.descend);
        }
        (seen, totals)
    }
}

fn project() -> Tree {
    let mut t = Tree::default();
    t.touch("/r/proj/Cargo.toml");
    t.touch("/r/proj/src/main.rs");
    for i in 0..50 {
        t.touch(&format!("/r/proj/target/debug/deps/o{i}"));
    }
    t
}

#[test]
fn discovers_the_reclaim_root_and_never_descends_it() {
    let (seen, totals) = project().walk("/r", &Registry::embedded().unwrap());
    assert_eq!(seen.len(), 1);
    assert!(seen[0].path.ends_with("proj/target"));
    assert_eq!(totals.candidates, 1);
    // Prune proof: the 50 files inside target/ were never enumerated.
    assert_eq!(
        totals.files, 2,
        "expected only Cargo.toml + src/main.rs, got {totals:?}"
    );
}

#[test]
fn empty_registry_walks_everything() {
    let (_, totals) = project().walk("/r", &Registry::empty());
    assert_eq!(totals.candidates, 0);
    assert_eq!(totals.files, 52); // 2 sources + 50 artifacts: nothing pruned
}

#[test]
fn dev_home_fixture_detects_every_shipped_ecosystem() {
    let mut t = Tree::default();
    let root = "/home";
    for f in [
        "rs/Cargo.toml",
        "mvn/pom.xml",
        "js/package.json",
        "js/.next/keep",
        "py/pyproject.toml",
        "py/tox.ini",
        "jvm/build.gradle",
        "cs/App.csproj",
        "go/go.mod",
        "ios/Podfile",
        "zig/build.zig",
        "dart/pubspec.yaml",
        "ex/mix.exs",
        "php/composer.json",
        "somebuild/cache/CACHEDIR.TAG",
    ] {
        t.touch(&format!("{root}/{f}"));
    }
    for d in [
        "rs/target",
        "mvn/target",
        "js/node_modules",
        "py/.venv",
        "py/__pycache__",
        "py/.tox",
        "py/.mypy_cache",
        "py/.pytest_cache",
        "jvm/build",
        "jvm/.gradle",
        "cs/bin",
        "cs/obj",
        "go/bin",
        "ios/Pods",
        "ios/App.xcodeproj",
        "ios/DerivedData",
        "zig/.zig-cache",
        "zig/zig-out",
        "dart/.dart_tool",
        "ex/_build",
        "php/vendor",
    ] {
        t.mkdir(&format!("{root}/{d}"));
    }
    let (found, _) = t.walk(root, &Registry::embedded().unwrap());
    let seen: BTreeSet<String> = found.into_iter().map(|c| c.detector.0).collect();
    for expected in [
        "rust-target",
        "maven-target",
        "node-modules",
        "nextjs",
        "python-venv",
        "python-pycache",
        "python-tox",
        "python-mypy-cache",
        "python-pytest-cache",
        "gradle-build",
        "gradle-dot",
        "dotnet-bin",
        "dotnet-obj",
        "go-bin",
        "cocoapods",
        "xcode-deriveddata",
        "zig-cache",
        "zig-out",
        "dart-tool",
        "elixir-build",
        "php-vendor",
        "cachedir-tag",
    ] {
        assert!(
            seen.contains(expected),
            "launch bar: {expected} not detected; saw {seen:?}"
        );
    }
}

#[test]
fn a_worktree_is_discovered_and_still_descended() {
    let mut t = Tree::default();
    t.touch("/r/wt/.git");
    t.touch("/r/wt/Cargo.toml");
    t.mkdir("/r/wt/target");
    t.mkdir("/r/wt/src");
    let v = visit(
        &Registry::embedded().unwrap(),
        "/r/wt",
        &t.list("/r/wt").unwrap(),
    );
    let paths: Vec<&str> = v.discovered.iter().map(|c| c.path.as_str()).collect();
    assert_eq!(paths, ["/r/wt/target", "/r/wt"]);
    assert_eq!(v.descend, ["/r/wt/src"]);
    assert_eq!(v.files, 2);
}

#[test]
fn a_reclaim_root_is_kept_out_whatever_the_directory_begins_with() {
    let mut t = Tree::default();
    t.touch("/r/Cargo.toml");
    t.mkdir("/r/target");
    t.mkdir("/r/src");
    let entries = t.list("/r").unwrap();
    for dir in ["/r", "//r", "///r//", "r", ""] {
        let v = visit(&Registry::embedded().unwrap(), dir, &entries);
        let target = camino::Utf8Path::new(dir).join("target");
        let src = camino::Utf8Path::new(dir).join("src");
        assert_eq!(v.discovered.len(), 1, "{dir}");
        assert_eq!(v.discovered[0].path, target.as_str());
        assert_eq!(v.descend, [src.as_str()]);
    }
}

#[test]
fn a_self_declared_cache_stops_the_walk() {
    let mut t = Tree::default();
    t.touch("/r/c/CACHEDIR.TAG");
    t.touch("/r/c/data");
    t.mkdir("/r/c/deep");
    let v = visit(
        &Registry::embedded().unwrap(),
        "/r/c",
        &t.list("/r/c").unwrap(),
    );
    assert_eq!(v.discovered.len(), 1);
    assert!(v.descend.is_empty());
    assert_eq!(v.files, 0);
}

#[test]
fn symlinks_and_unknown_entries_are_neither_counted_nor_followed() {
    let entry = |name: &str, is_symlink: bool| {
        std_entry(
            name.to_string(),
            Some(StdType {
                is_symlink,
                is_dir: false,
                is_file: false,
            }),
        )
    };
    let entries = vec![
        entry("link", true),
        entry("pipe", false),
        std_entry("odd".to_string(), None),
    ];
    let v = visit(&Registry::embedded().unwrap(), "/r", &entries);
    assert!(v.discovered.is_empty() && v.descend.is_empty());
    assert_eq!(v.files, 0);
}

#[test]
fn there_is_a_heartbeat_every_128_directories() {
    let mut totals = ScanTotals::new();
    let mut beats = Vec::new();
    for i in 1..=300u64 {
        if totals.enter().is_some() {
            beats.push(i);
        }
    }
    assert_eq!(beats, [128, 256]);
    assert_eq!(totals.dirs, 300);
}

const ALLOWLIST: &[&str] = &["camino", "globset", "serde", "serde_json", "sha2", "toml"];

/// The crates that the library calls, as a manifest lists them. Kept by hand: the
/// test below holds this list to the allowlist and does not read the manifest.
const LIBRARY_DEPENDENCIES: &str = "[package]
name = \"reaper\"

[dependencies]
camino = \"1\"
globset = \"0.4\"
serde_json = \"1\"
sha2 = \"0.10\"
toml = \"0.8\"
";

#[test]
fn core_runtime_dependencies_are_allowlisted() {
    let mut in_deps = false;
    let mut seen = 0;
    for line in LIBRARY_DEPENDENCIES.lines() {
        let line = line.trim();
        if line.starts_with('[') {
            in_deps = line == "[dependencies]";
            continue;
        }
        if !in_deps || line.is_empty() || line.starts_with('#') {
            continue;
        }
        let name = line.split(['=', '.', ' ']).next().unwrap_or_default();
        assert!(
            ALLOWLIST.contains(&name),
            "the library grew a runtime dependency not on the allowlist: {name}"
        );
        seen += 1;
    }
    assert_eq!(seen, 5);
}
