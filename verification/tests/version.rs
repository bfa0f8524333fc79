use jre_discovery::java::{JdkParserError, RuntimeVersion};

#[test]
fn legacy_encoded_version_is_rejected() {
    // The literal leading-character rule: a string starting with '1' fails,
    // even though the rest of the parser is shaped for exactly this string.
    let r = RuntimeVersion::from_ver_string("1.8.0_152-b16");
    assert!(matches!(r, Err(JdkParserError::IncompatibleJreVersion)));
}

#[test]
fn synthetic_version_parses_fields() {
    let v = RuntimeVersion::from_ver_string("9.8.0_152-b16").unwrap();
    assert_eq!(v.major, 8);
    assert_eq!(v.update, 152);
    assert_eq!(v.build, 16);
}

#[test]
fn version_with_leading_space_parses() {
    // The value as it arrives from a property line, with the space after '='.
    let v = RuntimeVersion::from_ver_string(" 9.8.0_60-b01").unwrap();
    assert_eq!(v.major, 8);
    assert_eq!(v.update, 60);
    assert_eq!(v.build, 1);
}

#[test]
fn empty_string_is_malformed() {
    let r = RuntimeVersion::from_ver_string("");
    assert!(matches!(r, Err(JdkParserError::MalformedVersion)));
}

#[test]
fn missing_dash_is_malformed() {
    let r = RuntimeVersion::from_ver_string("9.8.0_152");
    assert!(matches!(r, Err(JdkParserError::MalformedVersion)));
}

#[test]
fn missing_underscore_is_malformed() {
    let r = RuntimeVersion::from_ver_string("9.8.0-b16");
    assert!(matches!(r, Err(JdkParserError::MalformedVersion)));
}

#[test]
fn missing_dot_is_malformed() {
    let r = RuntimeVersion::from_ver_string("98_152-b16");
    assert!(matches!(r, Err(JdkParserError::MalformedVersion)));
}

#[test]
fn non_numeric_build_is_malformed() {
    let r = RuntimeVersion::from_ver_string("9.8.0_152-bxx");
    assert!(matches!(r, Err(JdkParserError::MalformedVersion)));
}

#[test]
fn empty_build_segment_is_malformed() {
    let r = RuntimeVersion::from_ver_string("9.8.0_152-");
    assert!(matches!(r, Err(JdkParserError::MalformedVersion)));
}

#[test]
fn build_segment_of_one_character_is_malformed() {
    // Only the marker character is present; no digits remain.
    let r = RuntimeVersion::from_ver_string("9.8.0_152-b");
    assert!(matches!(r, Err(JdkParserError::MalformedVersion)));
}

#[test]
fn out_of_range_major_is_malformed() {
    let r = RuntimeVersion::from_ver_string("9.999.0_152-b16");
    assert!(matches!(r, Err(JdkParserError::MalformedVersion)));
}

#[test]
fn out_of_range_update_is_malformed() {
    let r = RuntimeVersion::from_ver_string("9.8.0_70000-b16");
    assert!(matches!(r, Err(JdkParserError::MalformedVersion)));
}

#[test]
fn pre_release_tag_is_not_accepted() {
    // A second '-' segment is taken as the build field; the tag's characters
    // are not digits.
    let r = RuntimeVersion::from_ver_string("9.8.0_152-ea-b16");
    assert!(matches!(r, Err(JdkParserError::MalformedVersion)));
}

#[test]
fn version_equality_compares_major_only() {
    let a = RuntimeVersion { build: 1, update: 60, major: 8 };
    let b = RuntimeVersion { build: 9, update: 99, major: 8 };
    let c = RuntimeVersion { build: 1, update: 60, major: 9 };
    assert!(a == b);
    assert!(a != c);
}
