//! Plans: ordering, sealing, and the canonical text of steps.

use reaper::digest::{hex, sha256_hex};
use reaper::json::{find_field, write_object, JsonField, JsonValue};
use reaper::members::{find_keys, keep_once, read_members};
use reaper::paths::{equal_paths, order_paths, PathOrder};
use reaper::plan::{canonical_step, describe_identity, describe_step, list_step};
use reaper::{seal, BoundStep, Identity, ReapPlan, ReapStep};
use sha2::{Digest, Sha256};

fn delete(path: &str, hint: Option<&str>) -> ReapStep {
    ReapStep::DeleteDir {
        path: path.to_string(),
        regenerate_hint: hint.map(String::from),
    }
}

fn worktree(path: &str, branch: Option<&str>) -> ReapStep {
    ReapStep::RemoveWorktree {
        path: path.to_string(),
        branch: branch.map(String::from),
    }
}

fn id(dev: u64, ino: u64, mtime_ns: u64) -> Identity {
    Identity { dev, ino, mtime_ns }
}

fn bound(step_json: &str) -> BoundStep {
    BoundStep {
        step_json: step_json.to_string(),
        identity: None,
        size_bytes: 0,
        recover: None,
    }
}

#[test]
fn steps_have_a_canonical_text() {
    assert_eq!(
        canonical_step(&delete("/w/target", Some("cargo build"))),
        r#"{"step":"delete_dir","path":"/w/target","regenerate_hint":"cargo build"}"#
    );
    assert_eq!(
        canonical_step(&worktree("/w/wt", None)),
        r#"{"step":"remove_worktree","path":"/w/wt","branch":null}"#
    );
    assert_eq!(worktree("/w/wt", None).path(), "/w/wt");
}

#[test]
fn texts_are_escaped_as_json_strings() {
    let odd = "q\" b\\ n\n t\t r\r \u{8}\u{c}\u{1}\u{1f}\u{7f} größe 𝄞 /";
    let object = write_object(&[("k", JsonValue::Text(odd)), ("n", JsonValue::Number(u64::MAX))]);
    assert_eq!(
        object,
        format!(
            "{{\"k\":{},\"n\":{}}}",
            serde_json::to_string(odd).unwrap(),
            u64::MAX
        )
    );
    let read: serde_json::Value = serde_json::from_str(&object).unwrap();
    assert_eq!(read["k"], odd);
    assert_eq!(write_object(&[]), "{}");
}

#[test]
fn fields_are_found_by_name() {
    let fields = vec![
        ("a".to_string(), JsonField::Number(1)),
        ("b".to_string(), JsonField::Null),
    ];
    assert_eq!(find_field(&fields, "b"), Some(&JsonField::Null));
    assert_eq!(find_field(&fields, "c"), None);
}

#[test]
fn sealed_steps_read_back() {
    let steps = vec![
        delete("/w/a \"quoted\"\n\u{1}/target", Some("größe")),
        delete("", None),
        worktree("C:\\w\\wt", Some("feature/𝄞")),
        worktree("/w/wt", None),
    ];
    let n = steps.len();
    let plan = ReapPlan { steps };
    let sealed = seal(&plan, &vec![None; n], &vec![0; n]);
    for (step, bound) in plan.steps.iter().zip(&sealed.steps) {
        assert_eq!(&bound.step(), step);
        assert_eq!(bound.try_step().as_ref(), Some(step));
    }
}

#[test]
fn texts_that_describe_no_step_do_not_read() {
    for text in [
        "",
        "[]",
        "7",
        "{}",
        r#"{"step":"delete_dir"}"#,
        r#"{"path":"/x"}"#,
        r#"{"step":"explode","path":"/x"}"#,
        r#"{"step":"delete_dir","path":7}"#,
        r#"{"step":"delete_dir","path":"/x","regenerate_hint":7}"#,
        r#"{"step":"remove_worktree","path":"/x","branch":["main"]}"#,
        r#"{"step":"delete_dir","path":"/x"} trailing"#,
    ] {
        assert_eq!(bound(text).try_step(), None, "{text}");
    }
    // Absent and null are the same; members of other names do not matter.
    assert_eq!(
        bound(r#" {"extra":true,"path":"/x","step":"delete_dir"} "#).try_step(),
        Some(delete("/x", None))
    );
}

#[test]
fn a_member_that_is_given_twice_describes_nothing() {
    for text in [
        r#"{"step":"delete_dir","path":"/x","path":"/y"}"#,
        r#"{"step":"delete_dir","path":"/x","path":"/x"}"#,
        r#"{"step":"delete_dir","step":"delete_dir","path":"/x"}"#,
        r#"{"step":"delete_dir","path":"/x","pa\u0074h":"/y"}"#,
        r#"{"step":"delete_dir","path":"/x","regenerate_hint":null,"regenerate_hint":"h"}"#,
    ] {
        assert_eq!(bound(text).try_step(), None, "{text}");
    }
    // What stands in a value, or has a name that no step has, is no second member.
    for text in [
        r#"{"step":"delete_dir","path":"/x","o":{"path":"/y","path":"/z"}}"#,
        r#"{"step":"delete_dir","path":"/x","o":["path",{"step":1}],"o":2}"#,
        r#"{"step":"delete_dir" , "path" : "/x", "branch":1, "branch":2}"#,
        r#"{"o":"\"path\":","step":"delete_dir","path":"/x"}"#,
    ] {
        assert_eq!(bound(text).try_step(), Some(delete("/x", None)), "{text}");
    }
}

#[test]
fn a_step_can_be_listed() {
    for (text, step) in [
        (r#"["delete_dir","/x",null]"#, delete("/x", None)),
        (r#" [ "delete_dir" , "/x", "h" ] "#, delete("/x", Some("h"))),
        (r#"["remove_worktree","/x","main"]"#, worktree("/x", Some("main"))),
    ] {
        assert_eq!(bound(text).try_step(), Some(step), "{text}");
    }
    for text in [
        r#"["delete_dir","/x"]"#,
        r#"["delete_dir","/x",null,null]"#,
        r#"["delete_dir",7,null]"#,
        r#"["delete_dir","/x",7]"#,
        r#"["explode","/x",null]"#,
        r#"[0,"/x",null]"#,
    ] {
        assert_eq!(bound(text).try_step(), None, "{text}");
    }
    let text = |s: &str| JsonField::Text(s.to_string());
    assert_eq!(
        list_step(vec![text("delete_dir"), text("/x"), JsonField::Null]),
        Some(delete("/x", None))
    );
    assert_eq!(list_step(vec![]), None);
}

#[test]
fn members_are_found_at_the_outermost_level() {
    let keys = find_keys(r#"{"a":{"b":1},"c\"":[{"d":":"}],"e":":"}"#);
    let keys: Vec<String> = keys.into_iter().map(|k| k.into_iter().collect()).collect();
    assert_eq!(keys, ["a", "c\\\"", "e"]);
    let names = [Some("a".to_string()), None, Some("b".to_string()), Some("a".to_string())];
    let fields = vec![
        ("a".to_string(), JsonField::Number(1)),
        ("b".to_string(), JsonField::Null),
    ];
    assert_eq!(
        keep_once(fields, &names),
        [
            ("a".to_string(), JsonField::Other),
            ("b".to_string(), JsonField::Null)
        ]
    );
    assert_eq!(
        read_members(r#"{"x":"y","n":7}"#).map(|mut fields| {
            fields.sort_by(|a, b| a.0.cmp(&b.0));
            fields
        }),
        Some(vec![
            ("n".to_string(), JsonField::Number(7)),
            ("x".to_string(), JsonField::Text("y".into())),
        ])
    );
    assert_eq!(read_members("[1]"), None);
}

#[test]
fn steps_are_described_by_their_fields() {
    let text = |s: &str| JsonField::Text(s.to_string());
    let mut fields = vec![
        ("branch".to_string(), text("main")),
        ("path".to_string(), text("/x")),
        ("step".to_string(), text("remove_worktree")),
    ];
    assert_eq!(describe_step(&fields), Some(worktree("/x", Some("main"))));
    fields[0].1 = JsonField::Other;
    assert_eq!(describe_step(&fields), None);
    fields[2].1 = text("delete_dir");
    assert_eq!(describe_step(&fields), Some(delete("/x", None)));
}

#[test]
fn the_digest_is_over_steps_and_bindings() {
    let plan = ReapPlan {
        steps: vec![
            delete("/a", None),
            worktree("/b", Some("main")),
            delete("/c", Some("make")),
        ],
    };
    let bindings = [Some(id(1, 2, 3)), None, Some(id(u64::MAX, 0, 10))];
    let sealed = seal(&plan, &bindings, &[5, 6, 7]);
    let mut hasher = Sha256::new();
    for (step, identity) in plan.steps.iter().zip(&bindings) {
        hasher.update(canonical_step(step).as_bytes());
        hasher.update(format!("{identity:?}").as_bytes());
    }
    assert_eq!(sealed.digest, format!("sha256:{:x}", hasher.finalize()));
    assert_eq!(sealed.steps.len(), 3);
    assert_eq!(sealed.steps[0].recover, None);
    assert_eq!(
        sealed.steps[1].recover.as_deref(),
        Some("git worktree add /b main")
    );
    assert_eq!(sealed.steps[2].recover.as_deref(), Some("make"));
    assert_eq!(sealed.steps[2].size_bytes, 7);
    assert_eq!(sealed.steps[0].identity, Some(id(1, 2, 3)));
    // Sizes do not enter the digest; bindings and steps do.
    assert_eq!(seal(&plan, &bindings, &[0, 0, 0]).digest, sealed.digest);
    let drifted = [Some(id(1, 2, 4)), None, Some(id(u64::MAX, 0, 10))];
    assert_ne!(seal(&plan, &drifted, &[5, 6, 7]).digest, sealed.digest);
}

#[test]
fn a_plan_is_sealed_as_far_as_it_is_bound_and_sized() {
    let plan = ReapPlan {
        steps: vec![delete("/a", None), delete("/b", None)],
    };
    assert_eq!(seal(&plan, &[None], &[1, 2]).steps.len(), 1);
    assert_eq!(seal(&plan, &[None, None], &[]).steps.len(), 0);
    assert_eq!(
        seal(&plan, &[], &[]).digest,
        "sha256:e3b0c44298fc1c149afbf4c8996fb92427ae41e4649b934ca495991b7852b855"
    );
}

#[test]
fn a_digest_stands_for_one_plan_and_its_bindings() {
    // Texts that would run into one another, were they not delimited.
    let variants: Vec<(Vec<ReapStep>, Vec<Option<Identity>>)> = vec![
        (vec![], vec![]),
        (vec![delete("/a", None)], vec![None]),
        (vec![delete("/a", Some("null"))], vec![None]),
        (vec![delete("/a\"", None)], vec![None]),
        (vec![delete("/a\\\"", None)], vec![None]),
        (vec![worktree("/a", None)], vec![None]),
        (vec![delete("/a", None)], vec![Some(id(1, 23, 4))]),
        (vec![delete("/a", None)], vec![Some(id(12, 3, 4))]),
        (vec![delete("/a", None), delete("/b", None)], vec![None, None]),
        (vec![delete("/b", None), delete("/a", None)], vec![None, None]),
    ];
    let digest = |(steps, bindings): &(Vec<ReapStep>, Vec<Option<Identity>>), size: u64| {
        let sizes = vec![size; steps.len()];
        let plan = ReapPlan {
            steps: steps.clone(),
        };
        seal(&plan, bindings, &sizes).digest
    };
    for (i, a) in variants.iter().enumerate() {
        let text = digest(a, 0);
        assert_eq!(text.len(), 71);
        assert!(text.starts_with("sha256:"));
        assert!(text[7..].chars().all(|c| matches!(c, '0'..='9' | 'a'..='f')));
        for (j, b) in variants.iter().enumerate() {
            assert_eq!(text == digest(b, 9), i == j, "{a:?} {b:?}");
        }
    }
}

#[test]
fn identities_are_described_as_they_are_debugged() {
    for identity in [None, Some(id(0, 10, u64::MAX))] {
        assert_eq!(describe_identity(&identity), format!("{identity:?}"));
    }
}

#[test]
fn digests_are_hexadecimal() {
    assert_eq!(hex(&[0x00, 0x0f, 0xa5, 0xff]), "000fa5ff");
    assert_eq!(
        sha256_hex(b"abc"),
        "ba7816bf8f01cfea414140de5dae2223b00361a396177a9cb410ff61f20015ad"
    );
}

#[test]
fn paths_are_ordered_by_component() {
    // As text, '-' comes before '/': by component, "a" comes before "a-b".
    assert_eq!(order_paths("/w/a/z", "/w/a-b"), PathOrder::Before);
    assert_eq!(order_paths("/w/a-b", "/w/a/z"), PathOrder::After);
    assert_eq!(order_paths("/w//a/", "/w/a"), PathOrder::Same);
    assert!(equal_paths("/w/./a", "/w/a"));
    assert!(!equal_paths("/w/a", "w/a"));
    for (a, b) in [("/a", "/b"), ("a", "/a"), ("..", "a"), (".", ".."), ("", "a")] {
        let expected = match camino::Utf8Path::new(a).cmp(camino::Utf8Path::new(b)) {
            std::cmp::Ordering::Less => PathOrder::Before,
            std::cmp::Ordering::Equal => PathOrder::Same,
            std::cmp::Ordering::Greater => PathOrder::After,
        };
        assert_eq!(order_paths(a, b), expected);
    }
}
