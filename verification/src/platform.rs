//! Platform conventions, resolved once from a configuration value instead of
//! per-OS code paths: how a runtime root maps to its executable, which paths
//! count as runtime executables, which sibling binary is probed, and which
//! locations are searched.

use vstd::prelude::*;

use crate::text::{contains_ci, contains_ci_exec, contains_seq, contains_sub};
use vstd::string::StringExecFns;

verus! {

/// The platform whose conventions apply; chosen once at startup.
#[derive(Clone, Copy, PartialEq, Eq, Structural, Debug)]
pub enum Os {
    Linux,
    Windows,
    MacOs,
}

/// The suffix appended to a runtime root to reach its discoverable
/// executable.
pub open spec fn exec_suffix(os: Os) -> Seq<char> {
    match os {
        Os::Linux => "/bin/java"@,
        Os::Windows => "/bin/javaw.exe"@,
        Os::MacOs => "/Contents/Home/bin/java"@,
    }
}

/// The file name a candidate executable path must end in.
pub open spec fn java_bin_name(os: Os) -> Seq<char> {
    match os {
        Os::Windows => "javaw.exe"@,
        _ => "java"@,
    }
}

/// The file name of the sibling binary that is actually probed.
pub open spec fn probe_bin_name(os: Os) -> Seq<char> {
    match os {
        Os::Windows => "java.exe"@,
        _ => "java"@,
    }
}

/// A path separator under the given platform's conventions.
pub open spec fn is_sep(os: Os, c: char) -> bool {
    c == '/' || (os == Os::Windows && c == '\\')
}

fn is_sep_exec(os: Os, c: char) -> (r: bool)
    ensures
        r == is_sep(os, c),
{
    c == '/' || (os == Os::Windows && c == '\\')
}

/// Maps a runtime root directory to its candidate executable path.
pub fn path_to_java(os: Os, root_path: &str) -> (r: String)
    ensures
        r@ == root_path@ + exec_suffix(os),
{
    let mut s = root_path.to_owned();
    match os {
        Os::Linux => s.append("/bin/java"),
        Os::Windows => s.append("/bin/javaw.exe"),
        Os::MacOs => s.append("/Contents/Home/bin/java"),
    }
    s
}

/// The path's last two components are `bin` and the platform's executable
/// name: the executable name at the end, a separator before it, `bin` before
/// that, and a separator (or the start of the path) before `bin`.
pub open spec fn spec_is_java_exe_path(os: Os, p: Seq<char>) -> bool {
    let name = java_bin_name(os);
    let k = p.len() - name.len();
    &&& p.len() >= name.len() + 4
    &&& p.subrange(k, p.len() as int) == name
    &&& is_sep(os, p[k - 1])
    &&& p.subrange(k - 4, k - 1) == "bin"@
    &&& (p.len() == name.len() + 4 || is_sep(os, p[k - 5]))
}

/// Whether a path follows the platform's executable-path convention. Only
/// such paths are ever probed.
pub fn is_java_exe_path(os: Os, path: &str) -> (r: bool)
    ensures
        r == spec_is_java_exe_path(os, path@),
{
    proof {
        reveal_strlit("javaw.exe");
        reveal_strlit("java");
        reveal_strlit("bin");
    }
    let name: &str = match os {
        Os::Windows => "javaw.exe",
        _ => "java",
    };
    let name_len: usize = match os {
        Os::Windows => 9,
        _ => 4,
    };
    let n: usize = path.unicode_len();
    if n < name_len + 4 {
        return false;
    }
    let k: usize = n - name_len;
    crate::text::matches_at(path, k, name) && is_sep_exec(os, path.get_char(k - 1))
        && crate::text::matches_at(path, k - 4, "bin") && (n == name_len + 4 || is_sep_exec(
        os,
        path.get_char(k - 5),
    ))
}

/// Length of the directory part of `p`, separator included: everything up to
/// and including the last separator, or nothing when `p` has none.
pub open spec fn dir_prefix_len(os: Os, p: Seq<char>) -> int
    decreases p.len(),
{
    if p.len() == 0 {
        0
    } else if is_sep(os, p.last()) {
        p.len() as int
    } else {
        dir_prefix_len(os, p.drop_last())
    }
}

proof fn lemma_dir_prefix_at(os: Os, p: Seq<char>, k: int)
    requires
        0 <= k <= p.len(),
        forall|l: int| k <= l < p.len() ==> !is_sep(os, p[l]),
        k > 0 ==> is_sep(os, p[k - 1]),
    ensures
        dir_prefix_len(os, p) == k,
    decreases p.len(),
{
    if p.len() == 0 {
    } else if k == p.len() {
    } else {
        assert(!is_sep(os, p.last()));
        assert forall|l: int| k <= l < p.drop_last().len() implies !is_sep(
            os,
            p.drop_last()[l],
        ) by {
            assert(p.drop_last()[l] == p[l]);
        }
        if k > 0 {
            assert(p.drop_last()[k - 1] == p[k - 1]);
        }
        lemma_dir_prefix_at(os, p.drop_last(), k);
    }
}

/// Replaces the last path component with the platform's probe binary: the
/// discoverable executable may not print diagnostics, so its sibling is
/// spawned instead.
pub fn introspection_target(os: Os, path: &str) -> (r: String)
    ensures
        r@ == path@.subrange(0, dir_prefix_len(os, path@)) + probe_bin_name(os),
{
    let n: usize = path.unicode_len();
    let mut e: usize = n;
    loop
        invariant
            e <= n,
            n == path@.len(),
            forall|l: int| e <= l < n ==> !is_sep(os, path@[l]),
        ensures
            e <= n,
            forall|l: int| e <= l < n ==> !is_sep(os, path@[l]),
            e > 0 ==> is_sep(os, path@[e - 1]),
        decreases e,
    {
        if e == 0 {
            break;
        }
        if is_sep_exec(os, path.get_char(e - 1)) {
            break;
        }
        e = e - 1;
    }
    proof {
        lemma_dir_prefix_at(os, path@, e as int);
    }
    let mut s = path.substring_char(0, e).to_owned();
    match os {
        Os::Windows => s.append("java.exe"),
        _ => s.append("java"),
    }
    s
}

/// Maps each root in order to its candidate executable path.
pub open spec fn map_roots_spec(os: Os, roots: Seq<Seq<char>>) -> Seq<Seq<char>>
    decreases roots.len(),
{
    if roots.len() == 0 {
        Seq::empty()
    } else {
        map_roots_spec(os, roots.drop_last()).push(roots.last() + exec_suffix(os))
    }
}

pub fn map_roots_to_candidates(os: Os, roots: &Vec<String>) -> (r: Vec<String>)
    ensures
        r.deep_view() == map_roots_spec(os, roots.deep_view()),
{
    let ghost orig = roots.deep_view();
    let mut out: Vec<String> = Vec::new();
    let mut i: usize = 0;
    while i < roots.len()
        invariant
            i <= roots.len(),
            orig == roots.deep_view(),
            out.deep_view() == map_roots_spec(os, orig.subrange(0, i as int)),
        decreases roots.len() - i,
    {
        let cand = path_to_java(os, roots[i].as_str());
        out.push(cand);
        proof {
            assert(roots@[i as int]@ == orig[i as int]);
            assert(orig.subrange(0, i as int + 1).drop_last() =~= orig.subrange(0, i as int));
            assert(orig.subrange(0, i as int + 1).last() == orig[i as int]);
            assert(out.deep_view() =~= map_roots_spec(os, orig.subrange(0, i as int + 1)));
        }
        i = i + 1;
    }
    proof {
        assert(orig.subrange(0, orig.len() as int) =~= orig);
    }
    out
}

/// Keeps, in order, the home value of each registry entry whose subkey name
/// contains `"1.8"` and whose value does not contain `"(x86)"`.
pub open spec fn registry_filter_spec(entries: Seq<(Seq<char>, Seq<char>)>) -> Seq<Seq<char>>
    decreases entries.len(),
{
    if entries.len() == 0 {
        Seq::empty()
    } else {
        let pre = registry_filter_spec(entries.drop_last());
        let e = entries.last();
        if contains_seq(e.0, "1.8"@) && !contains_seq(e.1, "(x86)"@) {
            pre.push(e.1)
        } else {
            pre
        }
    }
}

/// Filters enumerated registry entries, given as (subkey name, home value)
/// pairs, to the candidate roots they contribute.
pub fn filter_registry_entries(entries: &Vec<(String, String)>) -> (r: Vec<String>)
    ensures
        r.deep_view() == registry_filter_spec(entries.deep_view()),
{
    let ghost orig = entries.deep_view();
    let mut out: Vec<String> = Vec::new();
    let mut i: usize = 0;
    while i < entries.len()
        invariant
            i <= entries.len(),
            orig == entries.deep_view(),
            out.deep_view() == registry_filter_spec(orig.subrange(0, i as int)),
        decreases entries.len() - i,
    {
        proof {
            assert(entries@[i as int].deep_view() == orig[i as int]);
            assert(orig.subrange(0, i as int + 1).drop_last() =~= orig.subrange(0, i as int));
            assert(orig.subrange(0, i as int + 1).last() == orig[i as int]);
        }
        let e = &entries[i];
        if contains_sub(e.0.as_str(), "1.8") && !contains_sub(e.1.as_str(), "(x86)") {
            out.push(e.1.clone());
        }
        proof {
            assert(out.deep_view() =~= registry_filter_spec(orig.subrange(0, i as int + 1)));
        }
        i = i + 1;
    }
    proof {
        assert(orig.subrange(0, orig.len() as int) =~= orig);
    }
    out
}

/// The value of the runtime-home environment variable contains `"(x86)"` in
/// lowercase form; such a home is rejected on the registry-bearing platform.
pub open spec fn marks_x86(p: Seq<char>) -> bool {
    contains_ci(p, "(x86)"@)
}

/// Accepts or rejects a runtime home taken from the environment: on the
/// registry-bearing platform a home marked `"(x86)"` is dropped; elsewhere
/// every home is taken as given.
pub fn accept_java_home(os: Os, path: String) -> (r: Option<String>)
    ensures
        match os {
            Os::Windows => {
                if marks_x86(path@) {
                    r is None
                } else {
                    r matches Some(q) && q@ == path@
                }
            },
            _ => r matches Some(q) && q@ == path@,
        },
{
    match os {
        Os::Windows => {
            if contains_ci_exec(path.as_str(), "(x86)") {
                None
            } else {
                Some(path)
            }
        },
        _ => Some(path),
    }
}

/// The platform's well-known installation directory, whose immediate
/// subdirectories are runtime root candidates.
pub fn well_known_scan_dir(os: Os) -> (r: String)
    ensures
        r@ == (match os {
            Os::Linux => "/usr/lib/jvm"@,
            Os::Windows => "C:\\Program Files\\Java"@,
            Os::MacOs => "/Library/Java/JavaVirtualMachines"@,
        }),
{
    match os {
        Os::Linux => "/usr/lib/jvm".to_owned(),
        Os::Windows => "C:\\Program Files\\Java".to_owned(),
        Os::MacOs => "/Library/Java/JavaVirtualMachines".to_owned(),
    }
}

/// The application-local runtime directory under the given data directory.
pub fn runtime_scan_dir(os: Os, data_dir: &str) -> (r: String)
    ensures
        r@ == data_dir@ + (match os {
            Os::Windows => "\\runtime\\x64"@,
            _ => "/runtime/x64"@,
        }),
{
    let mut s = data_dir.to_owned();
    match os {
        Os::Windows => s.append("\\runtime\\x64"),
        _ => s.append("/runtime/x64"),
    }
    s
}

/// The browser-plugin runtime bundle looked for on the platform with an
/// internet-plugin convention.
pub fn internet_plugin_path() -> (r: String)
    ensures
        r@ == "/Library/Internet Plug-Ins/JavaAppletPlugin.plugin"@,
{
    "/Library/Internet Plug-Ins/JavaAppletPlugin.plugin".to_owned()
}

/// The two fixed registry paths enumerated on the registry-bearing platform:
/// the runtime-environment key and the development-kit key.
pub fn registry_search_keys() -> (r: Vec<String>)
    ensures
        r.deep_view() == seq![
            "SOFTWARE\\JavaSoft\\Java Runtime Environment"@,
            "SOFTWARE\\JavaSoft\\Java Development Kit"@,
        ],
{
    let mut keys: Vec<String> = Vec::new();
    keys.push("SOFTWARE\\JavaSoft\\Java Runtime Environment".to_owned());
    keys.push("SOFTWARE\\JavaSoft\\Java Development Kit".to_owned());
    proof {
        assert(keys.deep_view() =~= seq![
            "SOFTWARE\\JavaSoft\\Java Runtime Environment"@,
            "SOFTWARE\\JavaSoft\\Java Development Kit"@,
        ]);
    }
    keys
}

} // verus!
