//! Scanning a runtime's diagnostic property dump.
//!
//! The probe output is read line by line. A line naming the data-model key
//! yields the architecture (recorded only when it equals 64); a line naming
//! the runtime-version key yields a version (recorded only when its major is
//! 8 and its update exceeds 52). A malformed relevant line — no `'='`, an
//! empty value, or a number that does not parse — fails the whole scan, so
//! that the one candidate drops out.

use vstd::prelude::*;

use crate::java::{spec_parse_version, JavaMeta, JdkParserError, MetaView, RuntimeVersion};
use crate::text::{
    contains_seq, contains_sub, find_char, lemma_find_char_at, lemma_find_char_none, parse_number,
    second_field, split_char, split_two, trim, trim_spec,
};

verus! {

/// Which kind of property line failed the scan.
#[derive(Clone, Copy, PartialEq, Eq, Structural, Debug)]
pub enum PropsError {
    MalformedArchLine,
    MalformedVersionLine,
}

/// The running scan state: architecture seen so far, version seen so far.
pub type ScanState = (Option<u8>, Option<RuntimeVersion>);

/// What one line contributes to the scan state.
pub open spec fn spec_scan_line(l: Seq<char>, st: ScanState) -> Result<ScanState, PropsError> {
    let t = trim_spec(l);
    if contains_seq(l, "sun.arch.data.model"@) {
        if find_char(t, '=') < 0 {
            Err(PropsError::MalformedArchLine)
        } else {
            let val = second_field(t, '=');
            if val.len() < 1 {
                Err(PropsError::MalformedArchLine)
            } else {
                let digits = val.drop_first();
                if !(crate::text::is_number(digits) && crate::text::digits_val(digits) <= u8::MAX) {
                    Err(PropsError::MalformedArchLine)
                } else if crate::text::digits_val(digits) == 64 {
                    Ok((Some(64u8), st.1))
                } else {
                    Ok(st)
                }
            }
        }
    } else if contains_seq(l, "java.runtime.version"@) {
        if find_char(t, '=') < 0 {
            Err(PropsError::MalformedVersionLine)
        } else {
            match spec_parse_version(second_field(t, '=')) {
                Ok(rv) => if rv.major == 8 && rv.update > 52 {
                    Ok((st.0, Some(rv)))
                } else {
                    Ok(st)
                },
                Err(JdkParserError::IncompatibleJreVersion) => Ok(st),
                Err(JdkParserError::MalformedVersion) => Err(PropsError::MalformedVersionLine),
            }
        }
    } else {
        Ok(st)
    }
}

/// The scan state after the given lines, or the first failure.
pub open spec fn scan_props(lines: Seq<Seq<char>>) -> Result<ScanState, PropsError>
    decreases lines.len(),
{
    if lines.len() == 0 {
        Ok((None, None))
    } else {
        match scan_props(lines.drop_last()) {
            Err(e) => Err(e),
            Ok(st) => spec_scan_line(lines.last(), st),
        }
    }
}

/// What scanning a whole probe output yields.
pub open spec fn spec_scan_output(s: Seq<char>) -> Result<ScanState, PropsError> {
    scan_props(split_char(s, '\n'))
}

/// Once a prefix of the lines has failed, the whole scan fails the same way.
pub proof fn lemma_scan_props_err(lines: Seq<Seq<char>>, k: int)
    requires
        0 <= k <= lines.len(),
        scan_props(lines.subrange(0, k)) is Err,
    ensures
        scan_props(lines) == scan_props(lines.subrange(0, k)),
    decreases lines.len() - k,
{
    if k == lines.len() {
        assert(lines.subrange(0, k) =~= lines);
    } else {
        assert(lines.subrange(0, k + 1).drop_last() =~= lines.subrange(0, k));
        lemma_scan_props_err(lines, k + 1);
    }
}

fn scan_line(line: &str, arch: Option<u8>, ver: Option<RuntimeVersion>) -> (r: Result<
    (Option<u8>, Option<RuntimeVersion>),
    PropsError,
>)
    ensures
        r == spec_scan_line(line@, (arch, ver)),
{
    if contains_sub(line, "sun.arch.data.model") {
        let t = trim(line);
        match split_two(t, '=') {
            None => Err(PropsError::MalformedArchLine),
            Some((_, val)) => {
                let vn: usize = val.unicode_len();
                if vn < 1 {
                    Err(PropsError::MalformedArchLine)
                } else {
                    let digits = val.substring_char(1, vn);
                    proof {
                        assert(digits@ =~= second_field(trim_spec(line@), '=').drop_first());
                    }
                    match parse_number(digits, 255) {
                        None => Err(PropsError::MalformedArchLine),
                        Some(a) => {
                            if a == 64 {
                                Ok((Some(64u8), ver))
                            } else {
                                Ok((arch, ver))
                            }
                        },
                    }
                }
            },
        }
    } else if contains_sub(line, "java.runtime.version") {
        let t = trim(line);
        match split_two(t, '=') {
            None => Err(PropsError::MalformedVersionLine),
            Some((_, val)) => {
                match RuntimeVersion::from_ver_string(val) {
                    Ok(rv) => {
                        if rv.major == 8 && rv.update > 52 {
                            Ok((arch, Some(rv)))
                        } else {
                            Ok((arch, ver))
                        }
                    },
                    Err(JdkParserError::IncompatibleJreVersion) => Ok((arch, ver)),
                    Err(JdkParserError::MalformedVersion) => Err(PropsError::MalformedVersionLine),
                }
            },
        }
    } else {
        Ok((arch, ver))
    }
}

/// Scans decoded probe output and returns the metadata it reports: the
/// architecture when a data-model line said 64, the version when a
/// runtime-version line parsed with major 8 and update above 52. The path is
/// left unset and the record is not yet valid. Fails on the first malformed
/// property line.
pub fn validate_jvm_properties(stderr: &str) -> (r: Result<JavaMeta, PropsError>)
    ensures
        match r {
            Ok(m) => spec_scan_output(stderr@) matches Ok(st) && m@ == (MetaView {
                arch: st.0,
                exec_path: None,
                version: st.1,
                valid: false,
            }),
            Err(e) => spec_scan_output(stderr@) == Err::<ScanState, PropsError>(e),
        },
{
    let n: usize = stderr.unicode_len();
    let ghost lines = split_char(stderr@, '\n');
    let mut start: usize = 0;
    let mut finished: bool = false;
    let ghost mut k: int = 0;
    let mut arch: Option<u8> = None;
    let mut ver: Option<RuntimeVersion> = None;
    proof {
        assert(stderr@.subrange(0, n as int) =~= stderr@);
    }
    while !finished
        invariant
            start <= n,
            n == stderr@.len(),
            0 <= k <= lines.len(),
            lines == split_char(stderr@, '\n'),
            !finished ==> split_char(stderr@.subrange(start as int, n as int), '\n')
                == lines.subrange(k, lines.len() as int),
            finished ==> k == lines.len(),
            scan_props(lines.subrange(0, k)) == Ok::<ScanState, PropsError>((arch, ver)),
        decreases lines.len() - k,
    {
        let ghost rem = stderr@.subrange(start as int, n as int);
        proof {
            crate::text::lemma_split_char_len(rem, '\n');
        }
        let end: usize = match crate::text::find_from(stderr, start, '\n') {
            Some(e) => e,
            None => {
                finished = true;
                n
            },
        };
        let line = stderr.substring_char(start, end);
        proof {
            if finished {
                assert forall|j: int| 0 <= j < rem.len() implies rem[j] != '\n' by {
                    assert(rem[j] == stderr@[start + j]);
                }
                lemma_find_char_none(rem, '\n');
                assert(split_char(rem, '\n') == seq![rem]);
                assert(lines.subrange(k, lines.len() as int).len() == 1);
                assert(k + 1 == lines.len());
                assert(lines[k] == lines.subrange(k, lines.len() as int)[0]);
                assert(line@ =~= rem);
            } else {
                assert(rem[end - start] == stderr@[end as int]);
                assert forall|j: int| 0 <= j < end - start implies rem[j] != '\n' by {
                    assert(rem[j] == stderr@[start + j]);
                }
                lemma_find_char_at(rem, '\n', end - start);
                assert(split_char(rem, '\n') == seq![rem.subrange(0, end - start)] + split_char(
                    rem.subrange(end - start + 1, rem.len() as int),
                    '\n',
                ));
                assert(lines.subrange(k, lines.len() as int).len() >= 1);
                assert(lines[k] == lines.subrange(k, lines.len() as int)[0]);
                assert(line@ =~= rem.subrange(0, end - start));
                assert(rem.subrange(end - start + 1, rem.len() as int) =~= stderr@.subrange(
                    end + 1,
                    n as int,
                ));
                assert(lines.subrange(k, lines.len() as int).drop_first() =~= lines.subrange(
                    k + 1,
                    lines.len() as int,
                ));
            }
            assert(lines[k] == line@);
        }
        match scan_line(line, arch, ver) {
            Err(e) => {
                proof {
                    assert(lines.subrange(0, k + 1).drop_last() =~= lines.subrange(0, k));
                    assert(lines.subrange(0, k + 1).last() == lines[k]);
                    assert(scan_props(lines.subrange(0, k + 1)) == Err::<ScanState, PropsError>(e));
                    lemma_scan_props_err(lines, k + 1);
                    assert(lines.subrange(0, lines.len() as int) =~= lines);
                }
                return Err(e);
            },
            Ok(st) => {
                arch = st.0;
                ver = st.1;
                proof {
                    assert(lines.subrange(0, k + 1).drop_last() =~= lines.subrange(0, k));
                    assert(lines.subrange(0, k + 1).last() == lines[k]);
                }
            },
        }
        if !finished {
            start = end + 1;
        }
        proof {
            k = k + 1;
        }
    }
    proof {
        assert(lines.subrange(0, lines.len() as int) =~= lines);
    }
    Ok(JavaMeta { arch, exec_path: None, version: ver, valid: false })
}

} // verus!
