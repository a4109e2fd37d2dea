use versi::backend::{
    command_result, current_from_output, default_from_installed, lts_only, BackendError, FnmBackend,
    ShellInitOptions,
};
use versi::environment::{
    detected_environments, WslDistro, environments_from_init, parse_wsl_list, Environment, EnvironmentId, EnvironmentInfo, EnvironmentState,
};
use versi::nvm::{detect_nvm_environment, NvmClient, NvmDetection, NvmEnvironment, NvmVariant};
use versi::client::FnmClient;
use versi::shell::{FnmShellOptions, ShellType};
use versi::state::{MainState, NetworkStatus, Toast, UndoAction, VersionCache};
use versi::version::{parse_installed_versions, parse_remote_versions, InstalledVersion, NodeVersion, VersionGroup};

fn installed(text: &str) -> Vec<InstalledVersion> {
    parse_installed_versions(text)
}

#[test]
fn groups_by_major_newest_first() {
    let groups = VersionGroup::from_versions(installed("v20.1.0\nv18.2.0\nv20.0.0"));
    let majors: Vec<u32> = groups.iter().map(|g| g.major).collect();
    assert_eq!(majors, vec![20, 18]);
    let g20: Vec<NodeVersion> = groups[0].versions.iter().map(|v| v.version).collect();
    assert_eq!(g20, vec![NodeVersion::new(20, 1, 0), NodeVersion::new(20, 0, 0)]);
    assert!(groups.iter().all(|g| g.is_expanded));
}

#[test]
fn update_versions_keeps_expansion_by_major() {
    let mut env = EnvironmentState::new(EnvironmentId::Native, "Linux", None);
    assert!(env.loading);
    env.update_versions(installed("* v20.1.0 default\nv18.2.0"));
    assert_eq!(env.default_version, Some(NodeVersion::new(20, 1, 0)));
    assert!(!env.loading);
    env.version_groups[1].is_expanded = false;
    env.update_versions(installed("v22.0.0\nv18.3.0\nv18.2.0"));
    let flags: Vec<(u32, bool)> = env.version_groups.iter().map(|g| (g.major, g.is_expanded)).collect();
    assert_eq!(flags, vec![(22, true), (18, false)]);
    assert_eq!(env.default_version, None);
    env.set_error("list failed".to_string());
    assert_eq!(env.installed_versions.len(), 3);
    assert_eq!(env.error.as_deref(), Some("list failed"));
}

#[test]
fn selecting_loads_only_unloaded_environments() {
    let wsl = EnvironmentId::Wsl { distro: "Ubuntu".to_string() };
    let infos = vec![
        EnvironmentInfo { id: EnvironmentId::Native, fnm_version: Some("1.37.0".to_string()), available: true, unavailable_reason: None },
        EnvironmentInfo { id: wsl.clone(), fnm_version: None, available: true, unavailable_reason: None },
        EnvironmentInfo { id: EnvironmentId::Wsl { distro: "Debian".to_string() }, fnm_version: None, available: false, unavailable_reason: None },
    ];
    let envs = environments_from_init(&infos, "Linux");
    assert_eq!(envs[1].name, "WSL: Ubuntu");
    assert_eq!(envs[2].error.as_deref(), Some("Unavailable"));
    let mut state = MainState::new_with_environments(envs);
    state.environment_loaded(&EnvironmentId::Native, installed("v20.0.0"));
    assert_eq!(state.select_environment(0), None);
    assert_eq!(state.select_environment(5), None);
    assert_eq!(state.select_environment(1), Some(true));
    state.environment_loaded(&wsl, installed("v18.0.0"));
    assert_eq!(state.select_environment(0), Some(false));
    assert_eq!(state.select_environment(1), Some(false));
    assert_eq!(state.select_environment(2), Some(false));
    assert_eq!(state.active_environment().name, "WSL: Debian");
}

#[test]
fn toasts_get_fresh_ids_and_expire() {
    let mut state = MainState::new_with_environments(vec![EnvironmentState::new(EnvironmentId::Native, "macOS", None)]);
    assert_eq!(state.next_toast_id(), 1);
    state.add_toast(Toast::success(4, "done".to_string(), 1000));
    state.add_toast(Toast::error(2, "failed".to_string(), 1000).with_undo(UndoAction::Reinstall { version: "v1.0.0".to_string() }));
    assert_eq!(state.next_toast_id(), 5);
    assert!(!state.toasts[0].is_expired(6999));
    assert!(state.toasts[0].is_expired(7000));
    state.remove_toast(4);
    assert_eq!(state.toasts.len(), 1);
    assert_eq!(state.toasts[0].id, 2);
}

#[test]
fn network_status_reports_stale_lists() {
    let mut cache = VersionCache::new();
    assert!(matches!(cache.network_status(), NetworkStatus::Online));
    cache.error = Some("offline".to_string());
    assert!(matches!(cache.network_status(), NetworkStatus::Offline(_)));
    cache.versions = parse_remote_versions("v20.0.0");
    assert!(matches!(cache.network_status(), NetworkStatus::Stale(_)));
    cache.loading = true;
    assert!(matches!(cache.network_status(), NetworkStatus::Fetching));
}

#[test]
fn wsl_list_skips_header_and_reads_state() {
    let out = "  NAME      STATE           VERSION\n* Ubuntu    Running         2\n  Debian    Stopped         1\n\n  Arch\n";
    let running = vec!["Ubuntu".to_string()];
    let distros = parse_wsl_list(out, &running);
    assert_eq!(distros.len(), 3);
    assert_eq!(distros[0].name, "Ubuntu");
    assert!(distros[0].is_default && distros[0].is_running);
    assert_eq!(distros[1].version, 1);
    assert!(!distros[1].is_running);
    assert_eq!(distros[2].name, "Arch");
    assert_eq!(distros[2].version, 2);
}

#[test]
fn native_commands_carry_environment() {
    let b = FnmBackend::new("/usr/bin/fnm".to_string(), Some("1.37.0".to_string()), None)
        .with_fnm_dir("/data/fnm".to_string())
        .with_node_dist_mirror("https://mirror.example".to_string());
    let c = b.command(&vec!["install".to_string(), "v20.0.0".to_string()]);
    assert_eq!(c.program, "/usr/bin/fnm");
    assert_eq!(c.args, vec!["install", "v20.0.0"]);
    assert_eq!(c.env, vec![
        ("FNM_DIR".to_string(), "/data/fnm".to_string()),
        ("FNM_NODE_DIST_MIRROR".to_string(), "https://mirror.example".to_string()),
    ]);
    assert_eq!(b.backend_info().data_dir.as_deref(), Some("/data/fnm"));
    assert!(b.capabilities().supports_progress);
}

#[test]
fn wsl_commands_are_wrapped() {
    let b = FnmBackend::with_wsl("Ubuntu".to_string(), "/home/u/.fnm/fnm".to_string());
    let c = b.command(&vec!["list".to_string()]);
    assert_eq!(c.program, "wsl.exe");
    assert_eq!(c.args, vec!["-d", "Ubuntu", "--", "/home/u/.fnm/fnm", "list"]);
    assert!(c.env.is_empty());
}

#[test]
fn shell_activation_lines() {
    let b = FnmBackend::new("fnm".to_string(), None, None);
    let none = ShellInitOptions { use_on_cd: false, resolve_engines: false, corepack_enabled: false };
    let all = ShellInitOptions { use_on_cd: true, resolve_engines: true, corepack_enabled: true };
    assert_eq!(b.shell_init_command("bash", &none).as_deref(), Some("eval \"$(fnm env)\""));
    assert_eq!(
        b.shell_init_command("fish", &all).as_deref(),
        Some("fnm env --use-on-cd --resolve-engines --corepack-enabled | source")
    );
    assert_eq!(b.shell_init_command("pwsh", &none).as_deref(), Some("fnm env | Out-String | Invoke-Expression"));
    assert_eq!(b.shell_init_command("cmd", &all), None);
    let opts = FnmShellOptions { use_on_cd: true, resolve_engines: false, corepack_enabled: true };
    assert_eq!(ShellType::Zsh.fnm_init_command(&opts), "eval \"$(fnm env --use-on-cd --corepack-enabled --shell zsh)\"");
    assert_eq!(ShellType::Bash.fnm_init_command(&FnmShellOptions { use_on_cd: false, resolve_engines: false, corepack_enabled: false }), "eval \"$(fnm env --shell bash)\"");
    assert_eq!(ShellType::Cmd.fnm_init_command(&opts), "");
    assert_eq!(ShellType::Cmd.name(), "Command Prompt");
    assert_eq!(ShellType::PowerShell.fnm_shell_arg(), "powershell");
}

#[test]
fn backend_answers_are_read() {
    assert_eq!(command_result(true, "out".to_string(), "err".to_string()).unwrap(), "out");
    assert!(matches!(command_result(false, "out".to_string(), "err".to_string()), Err(BackendError::CommandFailed { stderr }) if stderr == "err"));
    assert_eq!(current_from_output(" v20.1.2\n").unwrap(), Some(NodeVersion::new(20, 1, 2)));
    assert_eq!(current_from_output("none").unwrap(), None);
    assert_eq!(current_from_output("system\n").unwrap(), None);
    assert!(matches!(current_from_output("garbage"), Err(BackendError::ParseError(m)) if m == "Failed to parse version: Expected X.Y.Z format, got: garbage"));
    assert_eq!(default_from_installed(&installed("v18.0.0\nv20.0.0 default")), Some(NodeVersion::new(20, 0, 0)));
    let lts = lts_only(parse_remote_versions("v20.0.0 (Iron)\nv21.0.0\nv18.0.0 (Hydrogen)"));
    assert_eq!(lts.len(), 2);
    assert_eq!(lts[1].version, NodeVersion::new(18, 0, 0));
}

#[test]
fn other_backends_and_environments() {
    assert!(NvmClient::windows("C:/nvm/nvm.exe".to_string()).is_windows());
    assert!(!NvmClient::unix("/home/u/.nvm".to_string()).is_windows());
    assert!(!NvmClient::wsl("Ubuntu".to_string(), "/home/u/.nvm".to_string()).is_windows());
    let d = NvmDetection { found: true, nvm_dir: Some("/home/u/.nvm".to_string()), nvm_exe: None, version: None, variant: NvmVariant::Unix };
    assert!(matches!(detect_nvm_environment(&d), Some(NvmEnvironment::Unix { nvm_dir }) if nvm_dir == "/home/u/.nvm"));
    let w = NvmDetection { variant: NvmVariant::Windows, ..d };
    assert!(detect_nvm_environment(&w).is_none());
    let c = FnmClient::new("fnm".to_string()).with_fnm_dir("/d".to_string()).with_node_dist_mirror("m".to_string());
    assert_eq!(c.fnm_dir.as_deref(), Some("/d"));
    assert_eq!(FnmClient::with_wsl("Ubuntu".to_string()).fnm_path, "fnm");
    assert_eq!(Environment::wsl("Ubuntu".to_string(), "Windows").name, "WSL: Ubuntu");
    assert_eq!(Environment::native("Windows").name, "Windows");
    assert_eq!(EnvironmentId::Native.display_name("macOS"), "macOS");
}

#[test]
fn startup_lists_host_then_distros_in_order() {
    let distros = vec![
        WslDistro { name: "Ubuntu".to_string(), is_default: true, version: 2, fnm_path: Some("/usr/bin/fnm".to_string()), is_running: true },
        WslDistro { name: "Debian".to_string(), is_default: false, version: 2, fnm_path: None, is_running: false },
        WslDistro { name: "Arch".to_string(), is_default: false, version: 2, fnm_path: None, is_running: true },
    ];
    let versions = vec![Some("1.37.1".to_string()), None, None];
    let infos = detected_environments(Some("1.38.0".to_string()), &distros, &versions);
    assert_eq!(infos.len(), 4);
    assert!(matches!(infos[0].id, EnvironmentId::Native));
    assert_eq!(infos[1].fnm_version.as_deref(), Some("1.37.1"));
    assert!(infos[1].available);
    assert_eq!(infos[2].unavailable_reason.as_deref(), Some("Not running"));
    assert_eq!(infos[3].unavailable_reason.as_deref(), Some("fnm not installed"));
    let envs = environments_from_init(&infos, "Windows");
    assert_eq!(envs[0].name, "Windows");
    assert_eq!(envs[3].error.as_deref(), Some("fnm not installed"));
}

#[test]
fn tray_menu_ids_are_read() {
    assert!(matches!(versi::state::parse_menu_event("quit"), Some(versi::state::TrayMessage::Quit)));
    assert!(matches!(versi::state::parse_menu_event("show_window"), Some(versi::state::TrayMessage::ShowWindow)));
    match versi::state::parse_menu_event("set:2:v20.1.0") {
        Some(versi::state::TrayMessage::SetDefault { env_index, version }) => {
            assert_eq!(env_index, 2);
            assert_eq!(version, "v20.1.0");
        },
        other => panic!("unexpected {:?}", other),
    }
    assert!(versi::state::parse_menu_event("set:x:v20.1.0").is_none());
    assert!(versi::state::parse_menu_event("set:1").is_none());
    assert!(versi::state::parse_menu_event("other").is_none());
    assert_eq!(versi::state::step_index(&versi::state::OnboardingStep::InstallNode), 3);
}

#[test]
fn tray_menu_lists_environments_and_versions() {
    let mut env = EnvironmentState::new(EnvironmentId::Native, "Linux", None);
    env.update_versions(installed("* v20.1.0 default\nv18.2.0"));
    let menu = versi::state::TrayMenuData::from_environments(&vec![env]);
    assert_eq!(menu.environments.len(), 1);
    assert_eq!(menu.environments[0].name, "Linux");
    assert_eq!(menu.environments[0].versions[0].version, "v20.1.0");
    assert!(menu.environments[0].versions[0].is_default);
    assert!(!menu.environments[0].versions[1].is_default);
}

#[test]
fn failed_reload_keeps_stale_data() {
    let mut state = MainState::new_with_environments(vec![EnvironmentState::new(EnvironmentId::Native, "Linux", None)]);
    state.environment_loaded(&EnvironmentId::Native, installed("* v20.1.0 default\nv18.2.0"));
    state.environment_error(&EnvironmentId::Native, "list failed".to_string());
    let env = state.active_environment();
    assert_eq!(env.installed_versions.len(), 2);
    assert_eq!(env.version_groups.len(), 2);
    assert_eq!(env.default_version, Some(NodeVersion::new(20, 1, 0)));
    assert!(!env.loading);
    assert_eq!(env.error.as_deref(), Some("list failed"));
}

#[test]
fn recommendations_without_schedule_ignore_the_day() {
    let remote = parse_remote_versions("v20.1.0\nv22.0.0\nv20.2.0");
    let r = versi::latest::get_recommended_versions(&remote, None);
    let got: Vec<NodeVersion> = r.iter().map(|x| x.version).collect();
    assert_eq!(got, vec![NodeVersion::new(22, 0, 0), NodeVersion::new(20, 2, 0)]);
    let parsed: NodeVersion = "  v1.2.3 ".parse().unwrap();
    assert_eq!(parsed, NodeVersion::new(1, 2, 3));
}
