use jre_discovery::java::{JavaMeta, RuntimeVersion};
use jre_discovery::pipeline::{
    collect_valid_candidates, dedup_paths, discover_all, discover_primary, filter_valid,
    select_primary, sort_by_rank,
};
use jre_discovery::platform::{map_roots_to_candidates, Os};
use jre_discovery::props::PropsError;

fn meta(major: u8, update: u16, build: u16, path: &str, valid: bool) -> JavaMeta {
    JavaMeta {
        arch: Some(64),
        exec_path: Some(path.to_string()),
        version: Some(RuntimeVersion { build, update, major }),
        valid,
    }
}

#[test]
fn dedup_removes_exact_duplicates_keeping_first() {
    let paths = vec![
        "/a/bin/java".to_string(),
        "/b/bin/java".to_string(),
        "/a/bin/java".to_string(),
        "/c/bin/java".to_string(),
        "/b/bin/java".to_string(),
    ];
    let out = dedup_paths(&paths);
    assert_eq!(out, vec![
        "/a/bin/java".to_string(),
        "/b/bin/java".to_string(),
        "/c/bin/java".to_string(),
    ]);
}

#[test]
fn dedup_keeps_different_spellings_of_one_location() {
    // Only exact string duplicates are removed: two spellings of the same
    // filesystem location both survive.
    let paths = vec!["/a/bin/java".to_string(), "/a//bin/java".to_string()];
    let out = dedup_paths(&paths);
    assert_eq!(out.len(), 2);
}

#[test]
fn two_roots_resolving_to_one_path_are_probed_once() {
    let roots = vec!["/usr/lib/jvm/default".to_string(), "/usr/lib/jvm/default".to_string()];
    let candidates = map_roots_to_candidates(Os::Linux, &roots);
    assert_eq!(candidates.len(), 2);
    let out = dedup_paths(&candidates);
    assert_eq!(out, vec!["/usr/lib/jvm/default/bin/java".to_string()]);
}

#[test]
fn filter_drops_invalid_records() {
    let ms = vec![
        meta(8, 60, 1, "/a/bin/java", true),
        meta(8, 61, 1, "/b/bin/java", false),
        meta(8, 62, 1, "/c/bin/java", true),
    ];
    let kept = filter_valid(&ms);
    assert_eq!(kept.len(), 2);
    assert_eq!(kept[0].exec_path.as_deref(), Some("/a/bin/java"));
    assert_eq!(kept[1].exec_path.as_deref(), Some("/c/bin/java"));
}

#[test]
fn sort_orders_ascending_by_rank() {
    let ms = vec![
        meta(9, 0, 0, "/c/bin/java", true),
        meta(8, 60, 1, "/a/bin/java", true),
        meta(8, 61, 1, "/b/bin/java", true),
    ];
    let sorted = sort_by_rank(ms);
    assert_eq!(sorted[0].exec_path.as_deref(), Some("/a/bin/java"));
    assert_eq!(sorted[1].exec_path.as_deref(), Some("/b/bin/java"));
    assert_eq!(sorted[2].exec_path.as_deref(), Some("/c/bin/java"));
}

#[test]
fn select_primary_returns_greatest_valid_record() {
    let ms = vec![
        meta(8, 80, 1, "/jvm/best/bin/java", true),
        meta(8, 60, 1, "/jvm/old/bin/java", true),
        meta(9, 0, 0, "/jvm/new-but-invalid/bin/java", false),
    ];
    assert_eq!(select_primary(&ms).as_deref(), Some("/jvm/best/bin/java"));
}

#[test]
fn select_primary_on_empty_input_returns_none() {
    let ms: Vec<JavaMeta> = Vec::new();
    assert_eq!(select_primary(&ms), None);
}

#[test]
fn root_with_missing_executable_yields_no_candidates() {
    // A root directory whose mapped executable does not exist contributes no
    // probe, and the run ends without error and without a result.
    let roots = vec!["/opt/jvms/broken".to_string()];
    let candidates = map_roots_to_candidates(Os::Linux, &roots);
    assert_eq!(candidates, vec!["/opt/jvms/broken/bin/java".to_string()]);
    // The executable is absent, so no probe output is gathered.
    let probes: Vec<(String, String)> = Vec::new();
    let all = discover_all(&probes).unwrap();
    assert_eq!(all.len(), 0);
    assert_eq!(discover_primary(&probes).unwrap(), None);
}

#[test]
fn discovery_prefers_jdk_at_higher_update() {
    let probes = vec![
        (
            "/roots/jre8/bin/java".to_string(),
            "sun.arch.data.model = 64\njava.runtime.version = 9.8.0_60-b01".to_string(),
        ),
        (
            "/roots/jdk8u80/bin/java".to_string(),
            "sun.arch.data.model = 64\njava.runtime.version = 9.8.0_80-b01".to_string(),
        ),
    ];
    let primary = discover_primary(&probes).unwrap();
    assert_eq!(primary.as_deref(), Some("/roots/jdk8u80/bin/java"));
}

#[test]
fn collect_keeps_only_fully_reported_probes() {
    let probes = vec![
        (
            "/roots/noarch/bin/java".to_string(),
            "java.runtime.version = 9.8.0_60-b01".to_string(),
        ),
        (
            "/roots/nover/bin/java".to_string(),
            "sun.arch.data.model = 64".to_string(),
        ),
        (
            "/roots/full/bin/java".to_string(),
            "sun.arch.data.model = 64\njava.runtime.version = 9.8.0_60-b01".to_string(),
        ),
    ];
    let ms = collect_valid_candidates(&probes).unwrap();
    assert_eq!(ms.len(), 1);
    assert_eq!(ms[0].exec_path.as_deref(), Some("/roots/full/bin/java"));
    assert!(ms[0].valid);
    assert_eq!(ms[0].arch, Some(64));
}

#[test]
fn one_malformed_probe_fails_the_run() {
    let probes = vec![
        (
            "/roots/good/bin/java".to_string(),
            "sun.arch.data.model = 64\njava.runtime.version = 9.8.0_60-b01".to_string(),
        ),
        (
            "/roots/bad/bin/java".to_string(),
            "sun.arch.data.model = ??".to_string(),
        ),
    ];
    let r = discover_all(&probes);
    assert!(matches!(r, Err(PropsError::MalformedArchLine)));
}

#[test]
fn discovery_orders_full_results_ascending() {
    let probes = vec![
        (
            "/roots/jdk8u80/bin/java".to_string(),
            "sun.arch.data.model = 64\njava.runtime.version = 9.8.0_80-b01".to_string(),
        ),
        (
            "/roots/jre8/bin/java".to_string(),
            "sun.arch.data.model = 64\njava.runtime.version = 9.8.0_60-b01".to_string(),
        ),
    ];
    let all = discover_all(&probes).unwrap();
    assert_eq!(all.len(), 2);
    assert_eq!(all[0].exec_path.as_deref(), Some("/roots/jre8/bin/java"));
    assert_eq!(all[1].exec_path.as_deref(), Some("/roots/jdk8u80/bin/java"));
}
