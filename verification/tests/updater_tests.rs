use std::cmp::Ordering;
use accelara::updater::{compare_versions, strip_v_prefix, has_newer_version};
use accelara::updater::{ReleaseInfo, evaluate_release, failed_check};

#[test]
fn test_version_comparison() {
    assert_eq!(compare_versions("3.0.0", "3.0.1"), Ordering::Less);
    assert_eq!(compare_versions("3.0.1", "3.0.0"), Ordering::Greater);
    assert_eq!(compare_versions("3.0.0", "3.0.0"), Ordering::Equal);
    assert_eq!(compare_versions("2.9.9", "3.0.0"), Ordering::Less);
    assert_eq!(compare_versions("3.1.0", "3.0.9"), Ordering::Greater);
}

#[test]
fn version_comparison_pads_missing_components() {
    assert_eq!(compare_versions("3.0", "3.0.0"), Ordering::Equal);
    assert_eq!(compare_versions("3", "3.0.1"), Ordering::Less);
}

#[test]
fn version_comparison_treats_junk_as_zero() {
    assert_eq!(compare_versions("abc", "0"), Ordering::Equal);
    assert_eq!(compare_versions("3.x.2", "3.0.2"), Ordering::Equal);
}

#[test]
fn strip_v_removes_leading_letters() {
    assert_eq!(strip_v_prefix("v3.0.1"), "3.0.1");
    assert_eq!(strip_v_prefix("3.0.1"), "3.0.1");
    assert_eq!(strip_v_prefix("vv2.0"), "2.0");
}

#[test]
fn newer_version_detection() {
    assert!(has_newer_version("3.0.0", "v3.0.1"));
    assert!(!has_newer_version("v3.0.1", "3.0.1"));
}

fn release(tag: &str) -> ReleaseInfo {
    ReleaseInfo {
        tag_name: tag.to_string(),
        name: String::new(),
        body: String::new(),
        published_at: String::new(),
        html_url: String::new(),
        assets: Vec::new(),
    }
}

#[test]
fn evaluate_release_reports_update() {
    let r = evaluate_release("3.0.0".to_string(), release("v3.1.0"));
    assert!(r.has_update);
    assert_eq!(r.current_version, "3.0.0");
    assert_eq!(r.latest_version, "v3.1.0");
    assert!(r.release_info.is_some());
    assert!(r.error.is_none());
}

#[test]
fn evaluate_release_same_version() {
    let r = evaluate_release("3.1.0".to_string(), release("v3.1.0"));
    assert!(!r.has_update);
}

#[test]
fn failed_check_keeps_current_version() {
    let r = failed_check("3.0.0".to_string(), "offline".to_string());
    assert!(!r.has_update);
    assert_eq!(r.latest_version, "3.0.0");
    assert_eq!(r.error.as_deref(), Some("offline"));
}
