use jre_discovery::mojang::mojang_launcher_url;
use jre_discovery::openjdk::open_jdk_url;
use jre_discovery::platform::{
    accept_java_home, filter_registry_entries, internet_plugin_path, introspection_target,
    is_java_exe_path, path_to_java, registry_search_keys, runtime_scan_dir, well_known_scan_dir,
    Os,
};

#[test]
fn root_maps_to_executable_per_platform() {
    assert_eq!(path_to_java(Os::Linux, "/usr/lib/jvm/jdk8"), "/usr/lib/jvm/jdk8/bin/java");
    assert_eq!(
        path_to_java(Os::Windows, "C:\\Program Files\\Java\\jre8"),
        "C:\\Program Files\\Java\\jre8/bin/javaw.exe"
    );
    assert_eq!(
        path_to_java(Os::MacOs, "/Library/Java/JavaVirtualMachines/jdk8"),
        "/Library/Java/JavaVirtualMachines/jdk8/Contents/Home/bin/java"
    );
}

#[test]
fn executable_suffix_convention_is_checked() {
    assert!(is_java_exe_path(Os::Linux, "/usr/lib/jvm/jdk8/bin/java"));
    assert!(is_java_exe_path(Os::Linux, "bin/java"));
    assert!(!is_java_exe_path(Os::Linux, "/usr/lib/jvm/jdk8/bin/javac"));
    assert!(!is_java_exe_path(Os::Linux, "/usr/lib/jvm/jdk8/sbin/java"));
    assert!(!is_java_exe_path(Os::Linux, "java"));
    assert!(!is_java_exe_path(Os::Linux, ""));
}

#[test]
fn windows_convention_accepts_both_separators() {
    assert!(is_java_exe_path(Os::Windows, "C:\\Java\\jre8\\bin\\javaw.exe"));
    assert!(is_java_exe_path(Os::Windows, "C:\\Java\\jre8/bin/javaw.exe"));
    assert!(!is_java_exe_path(Os::Windows, "C:\\Java\\jre8\\bin\\java"));
}

#[test]
fn mac_convention_requires_plain_java_name() {
    assert!(is_java_exe_path(Os::MacOs, "/Library/Java/jdk8/Contents/Home/bin/java"));
    assert!(!is_java_exe_path(Os::MacOs, "/Library/Java/jdk8/Contents/Home/bin/javaw.exe"));
}

#[test]
fn probe_binary_replaces_last_component() {
    assert_eq!(
        introspection_target(Os::Windows, "C:\\Java\\jre8\\bin\\javaw.exe"),
        "C:\\Java\\jre8\\bin\\java.exe"
    );
    assert_eq!(
        introspection_target(Os::Linux, "/usr/lib/jvm/jdk8/bin/java"),
        "/usr/lib/jvm/jdk8/bin/java"
    );
}

#[test]
fn registry_entries_are_filtered_by_name_and_value() {
    let entries = vec![
        ("1.8.0_261".to_string(), "C:\\Java\\jre1.8.0_261".to_string()),
        ("1.8.0_202".to_string(), "C:\\Program Files (x86)\\Java\\jre1.8.0_202".to_string()),
        ("11.0.2".to_string(), "C:\\Java\\jdk-11.0.2".to_string()),
        ("1.8".to_string(), "C:\\Java\\jdk1.8.0_261".to_string()),
    ];
    let roots = filter_registry_entries(&entries);
    assert_eq!(roots, vec![
        "C:\\Java\\jre1.8.0_261".to_string(),
        "C:\\Java\\jdk1.8.0_261".to_string(),
    ]);
}

#[test]
fn registry_value_filter_is_case_sensitive() {
    // The registry walk drops only the exact "(x86)" spelling.
    let entries = vec![("1.8.0_261".to_string(), "C:\\Program Files (X86)\\Java".to_string())];
    let roots = filter_registry_entries(&entries);
    assert_eq!(roots.len(), 1);
}

#[test]
fn environment_home_is_rejected_only_for_x86_on_windows() {
    assert_eq!(
        accept_java_home(Os::Windows, "C:\\Program Files (x86)\\Java\\jre8".to_string()),
        None
    );
    assert_eq!(
        accept_java_home(Os::Windows, "C:\\Program Files (X86)\\Java\\jre8".to_string()),
        None
    );
    assert_eq!(
        accept_java_home(Os::Windows, "C:\\Program Files\\Java\\jre8".to_string()),
        Some("C:\\Program Files\\Java\\jre8".to_string())
    );
    assert_eq!(
        accept_java_home(Os::Linux, "/usr/lib/jvm/jdk (x86)".to_string()),
        Some("/usr/lib/jvm/jdk (x86)".to_string())
    );
}

#[test]
fn scan_directories_follow_the_platform() {
    assert_eq!(well_known_scan_dir(Os::Linux), "/usr/lib/jvm");
    assert_eq!(well_known_scan_dir(Os::Windows), "C:\\Program Files\\Java");
    assert_eq!(well_known_scan_dir(Os::MacOs), "/Library/Java/JavaVirtualMachines");
    assert_eq!(runtime_scan_dir(Os::Linux, "/home/u/.app"), "/home/u/.app/runtime/x64");
    assert_eq!(runtime_scan_dir(Os::Windows, "C:\\app"), "C:\\app\\runtime\\x64");
    assert_eq!(
        internet_plugin_path(),
        "/Library/Internet Plug-Ins/JavaAppletPlugin.plugin"
    );
}

#[test]
fn registry_keys_name_runtime_and_development_kit() {
    let keys = registry_search_keys();
    assert_eq!(keys, vec![
        "SOFTWARE\\JavaSoft\\Java Runtime Environment".to_string(),
        "SOFTWARE\\JavaSoft\\Java Development Kit".to_string(),
    ]);
}

#[test]
fn asset_query_url_is_exact() {
    assert_eq!(
        open_jdk_url(Os::Linux, 8),
        "https://api.adoptopenjdk.net/v2/latestAssets/nightly/openjdk8?os=linux&arch=x64&heap_size=normal&openjdk_impl=hotspot&type=jre"
    );
    assert_eq!(
        open_jdk_url(Os::Windows, 11),
        "https://api.adoptopenjdk.net/v2/latestAssets/nightly/openjdk11?os=windows&arch=x64&heap_size=normal&openjdk_impl=hotspot&type=jre"
    );
    assert_eq!(
        open_jdk_url(Os::MacOs, 120),
        "https://api.adoptopenjdk.net/v2/latestAssets/nightly/openjdk120?os=mac&arch=x64&heap_size=normal&openjdk_impl=hotspot&type=jre"
    );
}

#[test]
fn launcher_metadata_url_is_exact() {
    assert_eq!(mojang_launcher_url(), "https://launchermeta.mojang.com/mc/launcher.json");
}
