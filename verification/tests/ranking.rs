use std::cmp::Ordering;

use jre_discovery::java::{JavaMeta, RuntimeVersion};

fn meta(major: u8, update: u16, build: u16, path: &str) -> JavaMeta {
    JavaMeta {
        arch: Some(64),
        exec_path: Some(path.to_string()),
        version: Some(RuntimeVersion { build, update, major }),
        valid: true,
    }
}

#[test]
fn versionless_ranks_below_versioned() {
    let bare = JavaMeta::new();
    let versioned = meta(8, 60, 1, "/jvm/a/bin/java");
    assert_eq!(bare.cmp(&versioned), Ordering::Less);
    assert_eq!(versioned.cmp(&bare), Ordering::Greater);
}

#[test]
fn two_versionless_records_rank_equal() {
    assert_eq!(JavaMeta::new().cmp(&JavaMeta::new()), Ordering::Equal);
}

#[test]
fn version_fields_order_ascending() {
    let a = meta(8, 60, 1, "/jvm/a/bin/java");
    let b = meta(8, 61, 1, "/jvm/b/bin/java");
    let c = meta(9, 0, 0, "/jvm/c/bin/java");
    assert_eq!(a.cmp(&b), Ordering::Less);
    assert_eq!(b.cmp(&c), Ordering::Less);
    assert_eq!(a.cmp(&c), Ordering::Less);
    assert_eq!(c.cmp(&a), Ordering::Greater);
}

#[test]
fn build_breaks_update_ties() {
    let a = meta(8, 60, 1, "/jvm/a/bin/java");
    let b = meta(8, 60, 2, "/jvm/b/bin/java");
    assert_eq!(a.cmp(&b), Ordering::Less);
}

#[test]
fn jdk_path_outranks_jre_at_equal_version() {
    let jre = meta(8, 60, 1, "/jvm/jre1.8.0_60/bin/java");
    let jdk = meta(8, 60, 1, "/jvm/jdk1.8.0_60/bin/java");
    assert_eq!(jdk.cmp(&jre), Ordering::Greater);
    assert_eq!(jre.cmp(&jdk), Ordering::Less);
}

#[test]
fn jdk_marker_is_found_case_insensitively() {
    let jre = meta(8, 60, 1, "/jvm/runtime-a/bin/java");
    let jdk = meta(8, 60, 1, "/jvm/JDK-1.8/bin/java");
    assert_eq!(jdk.cmp(&jre), Ordering::Greater);
}

#[test]
fn equal_version_and_both_jdk_rank_equal() {
    let a = meta(8, 60, 1, "/jvm/jdk-a/bin/java");
    let b = meta(8, 60, 1, "/jvm/jdk-b/bin/java");
    assert_eq!(a.cmp(&b), Ordering::Equal);
}

#[test]
fn record_with_path_outranks_pathless_at_equal_version() {
    let mut pathless = meta(8, 60, 1, "/x");
    pathless.exec_path = None;
    let with_path = meta(8, 60, 1, "/jvm/a/bin/java");
    assert_eq!(with_path.cmp(&pathless), Ordering::Greater);
    assert_eq!(pathless.cmp(&with_path), Ordering::Less);
}

#[test]
fn dedup_equality_diverges_from_ranking_order() {
    // Same major, different update and build: equal for deduplication, yet
    // not equal under the ranking order.
    let a = meta(8, 60, 1, "/jvm/a/bin/java");
    let b = meta(8, 80, 2, "/jvm/b/bin/java");
    assert!(a == b);
    assert_ne!(a.cmp(&b), Ordering::Equal);
    assert_eq!(a.cmp(&b), Ordering::Less);
}

#[test]
fn dedup_equality_on_versionless_records() {
    let a = JavaMeta::new();
    let b = JavaMeta::new();
    let c = meta(8, 60, 1, "/jvm/c/bin/java");
    assert!(a == b);
    assert!(a != c);
    assert!(c != a);
}

#[test]
fn dedup_equality_differs_across_majors() {
    let a = meta(8, 60, 1, "/jvm/a/bin/java");
    let b = meta(9, 60, 1, "/jvm/b/bin/java");
    assert!(a != b);
}
