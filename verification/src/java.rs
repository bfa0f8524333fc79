//! Runtime metadata and version strings.
//!
//! `RuntimeVersion` is produced only by [`RuntimeVersion::from_ver_string`];
//! `JavaMeta` carries what a probe of one candidate executable reported. The
//! ranking order ([`JavaMeta::cmp`]) and the deduplication equality (`==`)
//! are deliberately two different relations: the order compares the whole
//! version triple and breaks ties by the executable path, while the equality
//! compares the major number alone.

use vstd::prelude::*;

use crate::text::{
    contains_ci, contains_ci_exec, digits_val, find_char, head_field, is_number, second_field,
    split_two, trim, trim_spec,
};

verus! {

/// How a version string fails to parse: a leading `'1'` marks a runtime
/// generation this parser rejects outright; anything else that does not match
/// the `major.minor.patch_update-bNN` shape is malformed.
#[derive(Clone, Copy, PartialEq, Eq, Structural, Debug)]
pub enum JdkParserError {
    IncompatibleJreVersion,
    MalformedVersion,
}

/// A parsed runtime version triple.
#[derive(Clone, Copy, Debug)]
pub struct RuntimeVersion {
    pub build: u16,
    pub update: u16,
    pub major: u8,
}

/// The digit run that gives the build number: the second `'-'` field with its
/// leading marker character removed, then trimmed.
pub open spec fn build_digits(s: Seq<char>) -> Seq<char> {
    trim_spec(second_field(s, '-').drop_first())
}

/// The digit run that gives the update number: the second `'_'` field of the
/// part before the first `'-'`.
pub open spec fn update_digits(s: Seq<char>) -> Seq<char> {
    second_field(head_field(s, '-'), '_')
}

/// The digit run that gives the major number: the second `'.'` field of the
/// part before the first `'_'`.
pub open spec fn major_digits(s: Seq<char>) -> Seq<char> {
    second_field(head_field(head_field(s, '-'), '_'), '.')
}

/// A version string has the accepted shape when every separator is present
/// and each extracted field is a decimal number in range.
pub open spec fn version_shape_ok(s: Seq<char>) -> bool {
    &&& find_char(s, '-') >= 0
    &&& second_field(s, '-').len() >= 1
    &&& is_number(build_digits(s)) && digits_val(build_digits(s)) <= u16::MAX
    &&& find_char(head_field(s, '-'), '_') >= 0
    &&& is_number(update_digits(s)) && digits_val(update_digits(s)) <= u16::MAX
    &&& find_char(head_field(head_field(s, '-'), '_'), '.') >= 0
    &&& is_number(major_digits(s)) && digits_val(major_digits(s)) <= u8::MAX
}

/// What parsing a version string returns: an empty string is malformed, a
/// leading `'1'` is rejected as an incompatible runtime generation, and an
/// accepted string yields the (major, update, build) triple read from its
/// fields.
pub open spec fn spec_parse_version(s: Seq<char>) -> Result<RuntimeVersion, JdkParserError> {
    if s.len() == 0 {
        Err(JdkParserError::MalformedVersion)
    } else if s[0] == '1' {
        Err(JdkParserError::IncompatibleJreVersion)
    } else if !version_shape_ok(s) {
        Err(JdkParserError::MalformedVersion)
    } else {
        Ok(
            RuntimeVersion {
                build: digits_val(build_digits(s)) as u16,
                update: digits_val(update_digits(s)) as u16,
                major: digits_val(major_digits(s)) as u8,
            },
        )
    }
}

impl RuntimeVersion {
    /// Parses a raw runtime version string such as `"9.8.0_152-b16"`:
    /// build from the `'-'` suffix, update from the `'_'` field, major from
    /// the second `'.'` field. A string starting with `'1'` is rejected with
    /// `IncompatibleJreVersion`; any other shape violation is malformed.
    pub fn from_ver_string(ver_string: &str) -> (r: Result<Self, JdkParserError>)
        ensures
            r == spec_parse_version(ver_string@),
    {
        let n: usize = ver_string.unicode_len();
        if n == 0 {
            return Err(JdkParserError::MalformedVersion);
        }
        if ver_string.get_char(0) == '1' {
            return Err(JdkParserError::IncompatibleJreVersion);
        }
        let (seg1, bseg) = match split_two(ver_string, '-') {
            None => {
                return Err(JdkParserError::MalformedVersion);
            },
            Some(p) => p,
        };
        let bn: usize = bseg.unicode_len();
        if bn == 0 {
            return Err(JdkParserError::MalformedVersion);
        }
        let bdig = trim(bseg.substring_char(1, bn));
        proof {
            assert(bseg@.subrange(1, bn as int) =~= bseg@.drop_first());
        }
        let build: u16 = match crate::text::parse_number(bdig, 65535) {
            None => {
                return Err(JdkParserError::MalformedVersion);
            },
            Some(b) => b,
        };
        let (mhead, useg) = match split_two(seg1, '_') {
            None => {
                return Err(JdkParserError::MalformedVersion);
            },
            Some(p) => p,
        };
        let update: u16 = match crate::text::parse_number(useg, 65535) {
            None => {
                return Err(JdkParserError::MalformedVersion);
            },
            Some(u) => u,
        };
        let (_, mseg) = match split_two(mhead, '.') {
            None => {
                return Err(JdkParserError::MalformedVersion);
            },
            Some(p) => p,
        };
        let major: u16 = match crate::text::parse_number(mseg, 255) {
            None => {
                return Err(JdkParserError::MalformedVersion);
            },
            Some(m) => m,
        };
        Ok(RuntimeVersion { build, update, major: major as u8 })
    }
}

impl PartialEq for RuntimeVersion {
    /// Two versions are equal when their major numbers agree; update and
    /// build are deliberately ignored. This relation serves deduplication
    /// only and is coarser than the ranking order.
    fn eq(&self, other: &Self) -> (r: bool) {
        self.major == other.major
    }
}

impl vstd::std_specs::cmp::PartialEqSpecImpl for RuntimeVersion {
    open spec fn obeys_eq_spec() -> bool {
        true
    }

    open spec fn eq_spec(&self, other: &Self) -> bool {
        self.major == other.major
    }
}

/// The ghost value of a `JavaMeta`: the same fields with the path as a
/// character sequence.
pub struct MetaView {
    pub arch: Option<u8>,
    pub exec_path: Option<Seq<char>>,
    pub version: Option<RuntimeVersion>,
    pub valid: bool,
}

/// Metadata gathered about one candidate runtime executable.
#[derive(Debug)]
pub struct JavaMeta {
    pub arch: Option<u8>,
    pub exec_path: Option<String>,
    pub version: Option<RuntimeVersion>,
    pub valid: bool,
}

impl View for JavaMeta {
    type V = MetaView;

    open spec fn view(&self) -> MetaView {
        MetaView {
            arch: self.arch,
            exec_path: self.exec_path.deep_view(),
            version: self.version,
            valid: self.valid,
        }
    }
}

impl DeepView for JavaMeta {
    type V = MetaView;

    open spec fn deep_view(&self) -> MetaView {
        self.view()
    }
}

/// The lowercase form of the path contains `"jdk"`.
pub open spec fn path_marks_jdk(p: Seq<char>) -> bool {
    contains_ci(p, "jdk"@)
}

/// The ranking order: no version ranks below any version; then major, update
/// and build compare ascending; at a full tie a path marked as a JDK ranks
/// above one that is not.
pub open spec fn spec_cmp(a: MetaView, b: MetaView) -> core::cmp::Ordering {
    match (a.version, b.version) {
        (Option::Some(_), Option::None) => core::cmp::Ordering::Greater,
        (Option::None, Option::Some(_)) => core::cmp::Ordering::Less,
        (Option::None, Option::None) => core::cmp::Ordering::Equal,
        (Option::Some(va), Option::Some(vb)) => {
            if va.major != vb.major {
                cmp_int(va.major as int, vb.major as int)
            } else if va.update != vb.update {
                cmp_int(va.update as int, vb.update as int)
            } else if va.build != vb.build {
                cmp_int(va.build as int, vb.build as int)
            } else {
                match (a.exec_path, b.exec_path) {
                    (Option::Some(_), Option::None) => core::cmp::Ordering::Greater,
                    (Option::None, Option::Some(_)) => core::cmp::Ordering::Less,
                    (Option::None, Option::None) => core::cmp::Ordering::Equal,
                    (Option::Some(pa), Option::Some(pb)) => cmp_bool(
                        path_marks_jdk(pa),
                        path_marks_jdk(pb),
                    ),
                }
            }
        },
    }
}

pub open spec fn cmp_int(x: int, y: int) -> core::cmp::Ordering {
    if x < y {
        core::cmp::Ordering::Less
    } else if x == y {
        core::cmp::Ordering::Equal
    } else {
        core::cmp::Ordering::Greater
    }
}

pub open spec fn cmp_bool(x: bool, y: bool) -> core::cmp::Ordering {
    if x == y {
        core::cmp::Ordering::Equal
    } else if !x {
        core::cmp::Ordering::Less
    } else {
        core::cmp::Ordering::Greater
    }
}

/// `a` ranks no higher than `b`.
pub open spec fn rank_le(a: MetaView, b: MetaView) -> bool {
    spec_cmp(a, b) != core::cmp::Ordering::Greater
}

/// Comparing in one direction determines the other direction.
pub proof fn lemma_cmp_antisymmetric(a: MetaView, b: MetaView)
    ensures
        (spec_cmp(a, b) == core::cmp::Ordering::Greater) == (spec_cmp(b, a)
            == core::cmp::Ordering::Less),
        (spec_cmp(a, b) == core::cmp::Ordering::Equal) == (spec_cmp(b, a)
            == core::cmp::Ordering::Equal),
{
}

/// Every record compares equal to itself.
pub proof fn lemma_cmp_reflexive(a: MetaView)
    ensures
        spec_cmp(a, a) == core::cmp::Ordering::Equal,
{
}

/// Any two records are ordered one way or the other.
pub proof fn lemma_rank_le_total(a: MetaView, b: MetaView)
    ensures
        rank_le(a, b) || rank_le(b, a),
{
    lemma_cmp_antisymmetric(a, b);
}

/// The ranking order is transitive.
pub proof fn lemma_rank_le_trans(a: MetaView, b: MetaView, c: MetaView)
    requires
        rank_le(a, b),
        rank_le(b, c),
    ensures
        rank_le(a, c),
{
}

/// A record without a version ranks strictly below any record with one.
pub proof fn lemma_versionless_ranks_below(a: MetaView, b: MetaView)
    requires
        a.version is None,
        b.version is Some,
    ensures
        spec_cmp(a, b) == core::cmp::Ordering::Less,
        spec_cmp(b, a) == core::cmp::Ordering::Greater,
{
}

/// At identical version triples, a record whose path is marked as a JDK
/// ranks strictly above one whose path is not.
pub proof fn lemma_jdk_outranks_at_tie(a: MetaView, b: MetaView)
    requires
        a.version is Some,
        a.version == b.version,
        a.exec_path matches Some(pa) && path_marks_jdk(pa),
        b.exec_path matches Some(pb) && !path_marks_jdk(pb),
    ensures
        spec_cmp(a, b) == core::cmp::Ordering::Greater,
        spec_cmp(b, a) == core::cmp::Ordering::Less,
{
}

/// Records sharing a major number are equal for deduplication even when
/// update or build differ — and the ranking order still tells them apart:
/// the two relations deliberately diverge.
pub proof fn lemma_dedup_equality_coarser_than_order(a: MetaView, b: MetaView)
    requires
        a.version matches Some(va) && b.version matches Some(vb) && va.major == vb.major && (
        va.update != vb.update || va.build != vb.build),
    ensures
        meta_eq_spec(a, b),
        spec_cmp(a, b) != core::cmp::Ordering::Equal,
{
}

/// The deduplication equality over metadata: both versionless, or both
/// versioned with the same major number.
pub open spec fn meta_eq_spec(a: MetaView, b: MetaView) -> bool {
    match (a.version, b.version) {
        (Option::None, Option::None) => true,
        (Option::Some(va), Option::Some(vb)) => va.major == vb.major,
        _ => false,
    }
}

impl JavaMeta {
    /// An empty record: nothing probed yet, not valid.
    pub fn new() -> (r: Self)
        ensures
            r@ == (MetaView { arch: None, exec_path: None, version: None, valid: false }),
    {
        JavaMeta { arch: None, exec_path: None, version: None, valid: false }
    }

    /// The ranking order used to select the best candidate.
    pub fn cmp(&self, other: &Self) -> (r: core::cmp::Ordering)
        ensures
            r == spec_cmp(self@, other@),
    {
        match (&self.version, &other.version) {
            (Option::Some(_), Option::None) => core::cmp::Ordering::Greater,
            (Option::None, Option::Some(_)) => core::cmp::Ordering::Less,
            (Option::None, Option::None) => core::cmp::Ordering::Equal,
            (Option::Some(va), Option::Some(vb)) => {
                if va.major != vb.major {
                    if va.major < vb.major {
                        core::cmp::Ordering::Less
                    } else {
                        core::cmp::Ordering::Greater
                    }
                } else if va.update != vb.update {
                    if va.update < vb.update {
                        core::cmp::Ordering::Less
                    } else {
                        core::cmp::Ordering::Greater
                    }
                } else if va.build != vb.build {
                    if va.build < vb.build {
                        core::cmp::Ordering::Less
                    } else {
                        core::cmp::Ordering::Greater
                    }
                } else {
                    match (&self.exec_path, &other.exec_path) {
                        (Option::Some(_), Option::None) => core::cmp::Ordering::Greater,
                        (Option::None, Option::Some(_)) => core::cmp::Ordering::Less,
                        (Option::None, Option::None) => core::cmp::Ordering::Equal,
                        (Option::Some(pa), Option::Some(pb)) => {
                            let ja = contains_ci_exec(pa.as_str(), "jdk");
                            let jb = contains_ci_exec(pb.as_str(), "jdk");
                            if ja == jb {
                                core::cmp::Ordering::Equal
                            } else if !ja {
                                core::cmp::Ordering::Less
                            } else {
                                core::cmp::Ordering::Greater
                            }
                        },
                    }
                }
            },
        }
    }
}

impl PartialEq for JavaMeta {
    /// The deduplication equality: records agree when both lack a version or
    /// when their versions share the major number. Distinct from, and coarser
    /// than, the ranking order.
    fn eq(&self, other: &Self) -> (r: bool) {
        match (&self.version, &other.version) {
            (Option::None, Option::None) => true,
            (Option::Some(va), Option::Some(vb)) => va.major == vb.major,
            _ => false,
        }
    }
}

impl vstd::std_specs::cmp::PartialEqSpecImpl for JavaMeta {
    open spec fn obeys_eq_spec() -> bool {
        true
    }

    open spec fn eq_spec(&self, other: &Self) -> bool {
        meta_eq_spec(self@, other@)
    }
}

} // verus!
