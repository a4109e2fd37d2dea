use std::collections::HashMap;
use versi::schedule::{ReleaseSchedule, VersionSchedule};
use versi::update::{is_newer_version, update_from_release};

fn create_test_schedule() -> ReleaseSchedule {
    let mut versions = HashMap::new();

    versions.insert(
        20,
        VersionSchedule {
            start: "2023-04-18".to_string(),
            lts: Some("2023-10-24".to_string()),
            maintenance: Some("2024-10-22".to_string()),
            end: "2026-04-30".to_string(),
            codename: Some("Iron".to_string()),
        },
    );

    versions.insert(
        18,
        VersionSchedule {
            start: "2022-04-19".to_string(),
            lts: Some("2022-10-25".to_string()),
            maintenance: Some("2023-10-18".to_string()),
            end: "2025-04-30".to_string(),
            codename: Some("Hydrogen".to_string()),
        },
    );

    versions.insert(
        16,
        VersionSchedule {
            start: "2021-04-20".to_string(),
            lts: Some("2021-10-26".to_string()),
            maintenance: Some("2022-10-18".to_string()),
            end: "2023-09-11".to_string(),
            codename: Some("Gallium".to_string()),
        },
    );

    versions.insert(
        23,
        VersionSchedule {
            start: "2024-04-23".to_string(),
            lts: None,
            maintenance: None,
            end: "2025-06-01".to_string(),
            codename: None,
        },
    );

    ReleaseSchedule { versions }
}

#[test]
fn test_is_lts_with_codename() {
    let schedule = create_test_schedule();
    assert!(schedule.is_lts(20));
    assert!(schedule.is_lts(18));
}

#[test]
fn test_is_lts_without_codename() {
    let schedule = create_test_schedule();
    assert!(!schedule.is_lts(23));
}

#[test]
fn test_is_lts_unknown_version() {
    let schedule = create_test_schedule();
    assert!(!schedule.is_lts(99));
}

#[test]
fn test_codename() {
    let schedule = create_test_schedule();
    assert_eq!(schedule.codename(20), Some("Iron"));
    assert_eq!(schedule.codename(18), Some("Hydrogen"));
    assert_eq!(schedule.codename(23), None);
}

#[test]
fn test_codename_unknown_version() {
    let schedule = create_test_schedule();
    assert_eq!(schedule.codename(99), None);
}

#[test]
fn test_is_active_unknown_version_high() {
    let schedule = create_test_schedule();
    assert!(schedule.is_active(99));
}

#[test]
fn test_is_active_unknown_version_low() {
    let schedule = create_test_schedule();
    assert!(!schedule.is_active(10));
}

#[test]
fn test_is_active_eol_version() {
    let schedule = create_test_schedule();
    assert!(!schedule.is_active(16));
}

#[test]
fn test_active_lts_versions() {
    // The schedule above describes the lines as they stood in early 2025.
    let schedule = create_test_schedule();
    let active_lts = schedule.active_lts_versions_on((2025, 1, 15));
    assert!(active_lts.contains(&20));
    assert!(!active_lts.contains(&23));
    assert!(!active_lts.contains(&16));
}

#[test]
fn active_versions_follow_end_dates() {
    let schedule = create_test_schedule();
    let mut active = schedule.active_versions_on((2025, 5, 1));
    active.sort();
    assert_eq!(active, vec![20, 23]);
    assert!(schedule.is_active_on(18, (2025, 4, 29)));
    assert!(!schedule.is_active_on(18, (2025, 4, 30)));
    let mut lts = schedule.active_lts_versions_on((2024, 1, 1));
    lts.sort();
    assert_eq!(lts, vec![18, 20]);
}

#[test]
fn unreadable_end_date_counts_as_active() {
    let mut schedule = create_test_schedule();
    schedule.versions.insert(
        21,
        VersionSchedule {
            start: "2023-10-17".to_string(),
            lts: None,
            maintenance: None,
            end: "someday".to_string(),
            codename: None,
        },
    );
    assert!(schedule.is_active_on(21, (2030, 1, 1)));
}

#[test]
fn test_version_comparison() {
    assert!(is_newer_version("1.0.1", "1.0.0"));
    assert!(is_newer_version("1.1.0", "1.0.0"));
    assert!(is_newer_version("2.0.0", "1.9.9"));
    assert!(!is_newer_version("1.0.0", "1.0.0"));
    assert!(!is_newer_version("1.0.0", "1.0.1"));
    assert!(!is_newer_version("0.9.0", "1.0.0"));
}

#[test]
fn short_and_odd_release_numbers() {
    assert!(is_newer_version("2", "1.9.9"));
    assert!(is_newer_version("1.1", "1.0.5"));
    assert!(is_newer_version("nightly", "1.0.0"));
    assert!(!is_newer_version("nightly", "nightly"));
}

#[test]
fn release_tags_drop_their_v() {
    let u = update_from_release("v1.2.0", "v1.3.0", "https://example.org/r".to_string(), None).unwrap();
    assert_eq!(u.current_version, "1.2.0");
    assert_eq!(u.latest_version, "1.3.0");
    assert!(update_from_release("1.3.0", "v1.3.0", String::new(), None).is_none());
}
