use versi::version::{parse_installed_versions, parse_remote_versions, NodeVersion};

#[test]
fn version_test_parse_version() {
    let v: NodeVersion = "v20.11.0".parse().unwrap();
    assert_eq!(v.major, 20);
    assert_eq!(v.minor, 11);
    assert_eq!(v.patch, 0);
}

#[test]
fn version_test_version_ordering() {
    let v1: NodeVersion = "v18.0.0".parse().unwrap();
    let v2: NodeVersion = "v20.0.0".parse().unwrap();
    assert!(v2 > v1);
}

#[test]
fn types_test_parse_version() {
    let v: NodeVersion = "v20.11.0".parse().unwrap();
    assert_eq!(v.major, 20);
    assert_eq!(v.minor, 11);
    assert_eq!(v.patch, 0);
}

#[test]
fn types_test_version_ordering() {
    let v1: NodeVersion = "v18.0.0".parse().unwrap();
    let v2: NodeVersion = "v20.0.0".parse().unwrap();
    assert!(v2 > v1);
}

#[test]
fn version_test_parse_installed_versions() {
    let output = "* v20.11.0 default\nv18.19.1\nv16.20.2";
    let versions = parse_installed_versions(output);
    assert_eq!(versions.len(), 3);
    assert!(versions[0].is_default);
}

#[test]
fn installed_list_drops_system_entries() {
    let output = "system\n* system\n* v20.11.0 default\nv18.19.1\n\nv16.20.2\n";
    let versions = parse_installed_versions(output);
    assert_eq!(versions.len(), 3);
    assert!(versions[0].is_default);
    assert!(!versions[1].is_default);
    assert_eq!(versions[2].version, NodeVersion::new(16, 20, 2));
}

#[test]
fn remote_list_reads_codenames() {
    let output = "v20.11.0 (Iron)\nv21.6.1\nnot-a-version\nv18.19.1 (Hydrogen)\n";
    let versions = parse_remote_versions(output);
    assert_eq!(versions.len(), 3);
    assert_eq!(versions[0].lts_codename.as_deref(), Some("Iron"));
    assert_eq!(versions[1].lts_codename, None);
    assert_eq!(versions[2].version, NodeVersion::new(18, 19, 1));
    assert!(!versions[2].is_latest);
}

#[test]
fn round_trip_through_canonical_text() {
    for text in ["20.11.0", "v20.11.0", "  v0.0.1 ", "4294967295.0.7"] {
        let v = NodeVersion::parse(text).unwrap();
        let printed = v.to_string();
        assert_eq!(NodeVersion::parse(&printed).unwrap(), v);
    }
    assert_eq!(NodeVersion::new(20, 11, 0).to_string(), "v20.11.0");
    assert_eq!(NodeVersion::parse("20.11.0").unwrap().to_string(), "v20.11.0");
}

#[test]
fn parse_errors_name_the_field() {
    assert_eq!(NodeVersion::parse("v20.11").unwrap_err().0, "Expected X.Y.Z format, got: 20.11");
    assert_eq!(NodeVersion::parse("vx.1.2").unwrap_err().0, "Invalid major version: x");
    assert_eq!(NodeVersion::parse("1.y.2").unwrap_err().0, "Invalid minor version: y");
    assert_eq!(NodeVersion::parse("1.2.4294967296").unwrap_err().0, "Invalid patch version: 4294967296");
}

#[test]
fn ordering_is_lexicographic() {
    let a = NodeVersion::parse("v20.1.0").unwrap();
    let b = NodeVersion::parse("v20.0.9").unwrap();
    assert!(a > b);
    assert!(NodeVersion::parse("v18.0.0").unwrap() < NodeVersion::parse("v20.0.0").unwrap());
    assert_eq!(a.compare(&b), std::cmp::Ordering::Greater);
}
