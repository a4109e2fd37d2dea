use versi::search::{filter_group, filter_version, version_matches_folded};
use versi::version::{InstalledVersion, NodeVersion, VersionGroup};

fn rec(a: u32, b: u32, c: u32, codename: Option<&str>) -> InstalledVersion {
    InstalledVersion {
        version: NodeVersion::new(a, b, c),
        is_default: false,
        lts_codename: codename.map(|s| s.to_string()),
        install_date: None,
        disk_size: None,
    }
}

#[test]
fn folded_matching_rules() {
    assert!(version_matches_folded("v20.1.0", None, "", ""));
    assert!(version_matches_folded("v20.1.0", Some("iron"), "LTS", "lts"));
    assert!(!version_matches_folded("v21.1.0", None, "lts", "lts"));
    assert!(version_matches_folded("v20.1.0", None, "20.1", "20.1"));
    assert!(version_matches_folded("v20.1.0", Some("iron"), "Ir", "ir"));
    assert!(!version_matches_folded("v20.1.0", Some("iron"), "18", "18"));
}

#[test]
fn search_folds_case() {
    let iron = rec(20, 11, 0, Some("Iron"));
    assert!(filter_version(&iron, "IRON"));
    assert!(filter_version(&iron, "Lts"));
    assert!(filter_version(&iron, "v20"));
    assert!(!filter_version(&rec(21, 0, 0, None), "lts"));
    let group = VersionGroup { major: 20, versions: vec![rec(20, 1, 0, None), iron], is_expanded: true };
    assert!(filter_group(&group, "iron"));
    assert!(filter_group(&group, ""));
    assert!(!filter_group(&group, "hydrogen"));
}
