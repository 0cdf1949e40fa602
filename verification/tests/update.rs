//! Self-update.

use reaper::update::{
    asset_url, decide_update, is_redirect, latest_url, newer, tag_of, verify_sha256,
    version_of_tag, UpdateDecision,
};
use sha2::{Digest, Sha256};

#[test]
fn version_ordering_is_numeric_not_lexicographic() {
    assert!(newer("0.10.0", "0.9.9"));
    assert!(newer("1.0.0", "0.99.0"));
    assert!(!newer("0.1.0", "0.1.0"));
    assert!(!newer("0.1.0", "0.2.0"));
}

#[test]
fn versions_are_read_up_to_what_is_no_number() {
    assert!(newer("1.2.3", "1.2"));
    assert!(!newer("1.2", "1.2.0"));
    assert!(!newer("1.2-rc1", "1.2"));
    assert!(newer("1.2-3", "1.2-rc1"));
    assert!(!newer("", "0"));
    assert!(newer("0", "x"));
    assert!(newer("1..9", "0.5"));
    assert!(!newer("99999999999999999999", "0"));
}

#[test]
fn checksum_gate_refuses_mismatch_and_garbage() {
    let bytes = b"the binary";
    let good = format!("{:x}  reaper-x", Sha256::digest(bytes));
    assert!(verify_sha256(bytes, good.as_bytes()).is_ok());
    // one flipped nibble
    let mut bad = good.clone();
    bad.replace_range(0..1, if &good[0..1] == "a" { "b" } else { "a" });
    assert!(verify_sha256(bytes, bad.as_bytes()).is_err());
    // malformed sidecars never pass
    assert!(verify_sha256(bytes, b"").is_err());
    assert!(verify_sha256(bytes, b"<html>404</html>").is_err());
}

#[test]
fn checksum_errors_say_what_is_wrong() {
    let got = "ba7816bf8f01cfea414140de5dae2223b00361a396177a9cb410ff61f20015ad";
    assert_eq!(verify_sha256(b"abc", got.as_bytes()), Ok(()));
    assert_eq!(
        verify_sha256(b"abc", format!("\n {} x", got.to_uppercase()).as_bytes()),
        Ok(())
    );
    assert_eq!(
        verify_sha256(b"abc", b"ABC\"d rest"),
        Err("malformed checksum sidecar \"abc\\\"d\" — refusing to install".to_string())
    );
    let other = "0".repeat(64);
    assert_eq!(
        verify_sha256(b"abc", other.as_bytes()),
        Err(format!(
            "checksum mismatch: expected {other}, downloaded {got} — refusing to install"
        ))
    );
    assert!(verify_sha256(b"abc", &[0xff; 64]).is_err());
}

#[test]
fn the_tag_is_where_the_redirect_ends() {
    assert_eq!(
        tag_of(Some("https://github.com/x/y/releases/tag/v0.2.1")),
        Ok("v0.2.1".to_string())
    );
    assert_eq!(
        tag_of(Some("https://github.com/x/y/releases")),
        Err("unexpected release redirect: https://github.com/x/y/releases".to_string())
    );
    assert!(tag_of(Some("https://github.com/v1/")).is_err());
    assert_eq!(tag_of(Some("v1")), Ok("v1".to_string()));
    assert_eq!(
        tag_of(None),
        Err("release lookup: no redirect — no releases published yet?".to_string())
    );
    assert!(is_redirect(300) && is_redirect(399));
    assert!(!is_redirect(299) && !is_redirect(400));
}

#[test]
fn assets_have_their_addresses() {
    assert_eq!(
        latest_url(),
        "https://github.com/benelser/reaper/releases/latest"
    );
    assert_eq!(
        asset_url("v1.0", "x86_64-pc-windows-msvc", ".exe"),
        "https://github.com/benelser/reaper/releases/download/v1.0/reaper-x86_64-pc-windows-msvc.exe"
    );
    assert_eq!(version_of_tag("v0.2.1"), "0.2.1");
    assert_eq!(version_of_tag("vv1"), "1");
    assert_eq!(version_of_tag("1"), "1");
}

#[test]
fn only_a_newer_release_is_installed() {
    assert_eq!(
        decide_update("0.1.0", "v0.1.0", false),
        UpdateDecision::UpToDate {
            notice: "reaper 0.1.0 is up to date (latest release: v0.1.0)".to_string()
        }
    );
    assert_eq!(
        decide_update("0.1.0", "v0.2.0", true),
        UpdateDecision::Report {
            notice: "update available: 0.1.0 → 0.2.0".to_string(),
            hint: "run `reaper update` to install it".to_string()
        }
    );
    assert_eq!(
        decide_update("0.1.0", "v0.2.0", false),
        UpdateDecision::Install {
            notice: "update available: 0.1.0 → 0.2.0".to_string(),
            version: "0.2.0".to_string()
        }
    );
}
