use versi::progress::{
    exit_event, install_events, parse_byte_size, parse_progress_line, progress_events,
    InstallPhase, InstallStream,
};

#[test]
fn downloading_line_gives_percent_and_sizes() {
    let p = parse_progress_line("Downloading Node v20.11.0 (45% 10MB/22MB)").unwrap();
    assert_eq!(p.phase, InstallPhase::Downloading);
    assert_eq!(p.percent, Some(45));
    assert_eq!(p.bytes_downloaded, Some(10_000_000));
    assert_eq!(p.total_bytes, Some(22_000_000));
}

#[test]
fn lines_without_keywords_are_noise() {
    assert!(parse_progress_line("Using Node v20.11.0").is_none());
    assert!(parse_progress_line("   ").is_none());
}

#[test]
fn keyword_precedence() {
    assert_eq!(parse_progress_line("Installing Node v20.11.0 (x64)").unwrap().phase, InstallPhase::Downloading);
    assert_eq!(parse_progress_line("Extracting archive").unwrap().phase, InstallPhase::Extracting);
    assert_eq!(parse_progress_line("will extract now").unwrap().phase, InstallPhase::Extracting);
    assert_eq!(parse_progress_line("Installing npm").unwrap().phase, InstallPhase::Installing);
    let done = parse_progress_line("v20.11.0 installed").unwrap();
    assert_eq!(done.phase, InstallPhase::Complete);
    assert_eq!(done.percent, Some(100));
}

#[test]
fn byte_sizes_use_decimal_units() {
    assert_eq!(parse_byte_size("10MB"), Some(10_000_000));
    assert_eq!(parse_byte_size("1.5G"), Some(1_500_000_000));
    assert_eq!(parse_byte_size("2KB"), Some(2_000));
    assert_eq!(parse_byte_size("512B"), Some(512));
    assert_eq!(parse_byte_size(" 7 "), Some(7));
    assert_eq!(parse_byte_size("MB"), None);
    assert_eq!(parse_byte_size("x1MB"), None);
}

#[test]
fn failed_exit_ends_stream_once() {
    let lines = vec![
        "Downloading Node v20.11.0 (10% 1MB/10MB)".to_string(),
        "noise".to_string(),
        "Extracting".to_string(),
    ];
    let events = progress_events(&lines);
    assert_eq!(events.len(), 2);
    let exit = exit_event(false, Some(1), &vec!["first".to_string(), "boom".to_string()]);
    let seen = install_events(events, exit);
    assert_eq!(seen.len(), 3);
    assert_eq!(seen[0].phase, InstallPhase::Downloading);
    assert_eq!(seen[2].phase, InstallPhase::Failed);
    assert_eq!(seen[2].error.as_deref(), Some("boom"));
    assert_eq!(seen.iter().filter(|e| e.phase == InstallPhase::Failed).count(), 1);
}

#[test]
fn exit_without_error_output_names_the_code() {
    let e = exit_event(false, Some(3), &vec![]);
    assert_eq!(e.error.as_deref(), Some("Process exited with code 3"));
    let e = exit_event(false, Some(-2), &vec![]);
    assert_eq!(e.error.as_deref(), Some("Process exited with code -2"));
    let ok = exit_event(true, Some(0), &vec![]);
    assert_eq!(ok.phase, InstallPhase::Complete);
    assert_eq!(ok.percent, Some(100));
}

#[test]
fn nothing_follows_a_terminal_event() {
    let lines = vec!["node installed".to_string(), "Downloading more".to_string()];
    let events = progress_events(&lines);
    let seen = install_events(events, exit_event(false, None, &vec![]));
    assert_eq!(seen.len(), 1);
    assert_eq!(seen[0].phase, InstallPhase::Complete);
    let mut s = InstallStream::new();
    assert!(s.accept(exit_event(true, None, &vec![])).is_some());
    assert!(s.accept(exit_event(false, None, &vec![])).is_none());
}
