use versi::backend::fnm_version_text;
use versi::manager::choose_backend;
use versi::progress::{exit_event, install_outcome, InstallPhase, InstallProgress};
use versi::wsl::{decode_wsl_output, fnm_probe_command, fnm_probe_result, parse_running_distros};

fn utf16(text: &str) -> Vec<u8> {
    text.encode_utf16().flat_map(|u| u.to_le_bytes()).collect()
}

#[test]
fn wsl_output_is_read_as_utf16_or_utf8() {
    assert_eq!(decode_wsl_output(&utf16("Ubuntu\r\n")), "Ubuntu\r\n");
    assert_eq!(decode_wsl_output(&vec![b'x']), "x");
    // UTF-16 digits have no letter, so the bytes are read as UTF-8.
    assert_eq!(decode_wsl_output(&utf16("123")), "1\u{0}2\u{0}3\u{0}");
}

#[test]
fn running_distros_are_listed() {
    let text = decode_wsl_output(&utf16("Ubuntu\r\n\0\r\n Debian \r\n"));
    assert_eq!(parse_running_distros(&text), vec!["Ubuntu".to_string(), "Debian".to_string()]);
    assert!(parse_running_distros("").is_empty());
}

#[test]
fn fnm_probe_in_wsl() {
    let c = fnm_probe_command("Ubuntu");
    assert_eq!(c.program, "wsl.exe");
    assert_eq!(c.args[..5].to_vec(), vec!["-d", "Ubuntu", "--", "sh", "-c"]);
    assert!(c.args[5].starts_with("[ -x $HOME/.local/share/fnm/fnm ] && { echo $HOME/.local/share/fnm/fnm; exit 0; }; "));
    assert_eq!(fnm_probe_result(true, " /usr/bin/fnm \nmore\n").as_deref(), Some("/usr/bin/fnm"));
    assert_eq!(fnm_probe_result(true, "\n"), None);
    assert_eq!(fnm_probe_result(false, "/usr/bin/fnm"), None);
}

#[test]
fn fnm_version_output_loses_its_prefix() {
    assert_eq!(fnm_version_text("fnm 1.37.1\n"), "1.37.1");
    assert_eq!(fnm_version_text(" 1.38.0 "), "1.38.0");
}

#[test]
fn install_results() {
    let mut ok = InstallProgress::default();
    ok.phase = InstallPhase::Downloading;
    let done = exit_event(true, Some(0), &vec![]);
    assert_eq!(install_outcome(&vec![ok.clone(), done]), (true, None));
    let failed = exit_event(false, Some(1), &vec!["boom".to_string()]);
    assert_eq!(install_outcome(&vec![ok.clone(), failed]), (false, Some("boom".to_string())));
    assert_eq!(install_outcome(&vec![ok]), (false, Some("Installation failed".to_string())));
}

#[test]
fn backend_choice_prefers_the_users_tool() {
    let both = vec![("fnm", true), ("nvm", true)];
    assert_eq!(choose_backend(Some("nvm"), &both), Some(1));
    assert_eq!(choose_backend(None, &both), Some(0));
    let only_nvm = vec![("fnm", false), ("nvm", true)];
    assert_eq!(choose_backend(Some("fnm"), &only_nvm), Some(1));
    assert_eq!(choose_backend(None, &vec![("fnm", false), ("nvm", false)]), None);
}
