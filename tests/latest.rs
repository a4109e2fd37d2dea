use versi::latest::{bulk_update_candidates, compute_latest_by_major, filter_latest_patches, recommended_versions_on};
use versi::schedule::{ReleaseSchedule, VersionSchedule};
use std::collections::HashMap;
use versi::version::NodeVersion;

fn v(a: u32, b: u32, c: u32) -> NodeVersion {
    NodeVersion::new(a, b, c)
}

#[test]
fn latest_per_major_in_first_seen_order() {
    let vs = vec![v(20, 1, 0), v(18, 2, 0), v(20, 11, 0), v(18, 1, 9)];
    assert_eq!(compute_latest_by_major(&vs), vec![(20, v(20, 11, 0)), (18, v(18, 2, 0))]);
    assert!(compute_latest_by_major(&vec![]).is_empty());
}

#[test]
fn bulk_updates_only_where_a_release_is_newer() {
    let installed = vec![v(20, 1, 0), v(18, 19, 1), v(16, 20, 2)];
    let remote = vec![v(20, 11, 0), v(20, 10, 0), v(18, 19, 1), v(22, 0, 0)];
    assert_eq!(bulk_update_candidates(&installed, &remote), vec![(v(20, 1, 0), v(20, 11, 0))]);
}

#[test]
fn latest_patch_of_each_line() {
    let remote = versi::version::parse_remote_versions("v18.19.0\nv20.10.0\nv18.19.1 (Hydrogen)\nv20.11.1\nv20.11.0\nv18.18.2");
    let latest: Vec<NodeVersion> = filter_latest_patches(&remote).iter().map(|r| r.version).collect();
    assert_eq!(latest, vec![v(20, 11, 1), v(20, 10, 0), v(18, 19, 1), v(18, 18, 2)]);
    assert_eq!(filter_latest_patches(&remote)[2].lts_codename.as_deref(), Some("Hydrogen"));
}

#[test]
fn recommended_versions_keep_active_majors() {
    let remote = versi::version::parse_remote_versions("v16.20.2\nv18.19.1\nv18.20.0\nv20.11.0\nv21.6.0\nv22.1.0");
    let all: Vec<NodeVersion> = recommended_versions_on(&remote, None, (2025, 1, 1)).iter().map(|r| r.version).collect();
    assert_eq!(all, vec![v(22, 1, 0), v(21, 6, 0), v(20, 11, 0), v(18, 20, 0), v(16, 20, 2)]);
    let mut versions = HashMap::new();
    versions.insert(16, VersionSchedule {
        start: "2021-04-20".to_string(),
        lts: None,
        maintenance: None,
        end: "2023-09-11".to_string(),
        codename: None,
    });
    let schedule = ReleaseSchedule { versions };
    let active: Vec<NodeVersion> = recommended_versions_on(&remote, Some(&schedule), (2025, 1, 1)).iter().map(|r| r.version).collect();
    assert_eq!(active, vec![v(22, 1, 0), v(21, 6, 0), v(20, 11, 0), v(18, 20, 0)]);
    let many = versi::version::parse_remote_versions("v30.0.0\nv29.0.0\nv28.0.0\nv27.0.0\nv26.0.0\nv25.0.0\nv24.0.0\nv23.0.0\nv22.0.0");
    assert_eq!(recommended_versions_on(&many, None, (2025, 1, 1)).len(), 8);
}
