use versi::backend::{BackendError, FnmBackend};
use versi::environment::EnvironmentId;
use versi::manager::{backend_for_environment, determine_wsl_backend, ManagerOp, VersionManager};
use versi::nvm::{nvm_current_from_output, nvm_default_from_alias, NvmClient};
use versi::version::NodeVersion;

#[test]
fn fnm_operations_become_fnm_arguments() {
    let m = VersionManager::Fnm(FnmBackend::new("fnm".to_string(), None, None));
    assert_eq!(m.name(), "fnm");
    let c = m.command(&ManagerOp::InstallWithProgress("v20.0.0".to_string())).unwrap();
    assert_eq!(c.args, vec!["install", "v20.0.0", "--progress", "never"]);
    let c = m.command(&ManagerOp::ListRemoteLts).unwrap();
    assert_eq!(c.args, vec!["list-remote", "--lts"]);
    let c = m.command(&ManagerOp::SetDefault("v18.0.0".to_string())).unwrap();
    assert_eq!(c.args, vec!["default", "v18.0.0"]);
}

#[test]
fn nvm_operations_become_scripts() {
    let unix = VersionManager::Nvm(NvmClient::unix("/home/u/.nvm".to_string()));
    assert_eq!(unix.name(), "nvm");
    let c = unix.command(&ManagerOp::SetDefault("20.1.0".to_string())).unwrap();
    assert_eq!(c.program, "bash");
    assert_eq!(
        c.args,
        vec![
            "-c".to_string(),
            "export NVM_DIR=\"/home/u/.nvm\"; [ -s \"$NVM_DIR/nvm.sh\" ] && \\. \"$NVM_DIR/nvm.sh\"; nvm alias default 20.1.0".to_string()
        ]
    );
    assert_eq!(c.env, vec![("TERM".to_string(), "dumb".to_string()), ("NO_COLOR".to_string(), "1".to_string())]);

    let win = VersionManager::Nvm(NvmClient::windows("C:\\nvm\\nvm.exe".to_string()));
    let c = win.command(&ManagerOp::ListRemote).unwrap();
    assert_eq!(c.program, "C:\\nvm\\nvm.exe");
    assert_eq!(c.args, vec!["list", "available"]);
    assert!(win.command(&ManagerOp::ListRemoteLts).is_none());
    let c = win.command(&ManagerOp::SetDefault("20.1.0".to_string())).unwrap();
    assert_eq!(c.args, vec!["use", "20.1.0"]);

    let wsl = VersionManager::Nvm(NvmClient::wsl("Ubuntu".to_string(), "/home/u/.nvm".to_string()));
    let c = wsl.command(&ManagerOp::Current).unwrap();
    assert_eq!(c.program, "wsl.exe");
    assert_eq!(c.args[..5].to_vec(), vec!["-d", "Ubuntu", "--", "bash", "-c"]);
    assert!(c.args[5].ends_with("; nvm current"));
}

#[test]
fn nvm_answers_are_read() {
    assert_eq!(nvm_current_from_output("v20.11.0\n").unwrap(), Some(NodeVersion::new(20, 11, 0)));
    assert_eq!(nvm_current_from_output("none").unwrap(), None);
    assert_eq!(nvm_current_from_output("system").unwrap(), None);
    assert!(matches!(nvm_current_from_output("vx"), Err(BackendError::ParseError(_))));
    assert_eq!(nvm_default_from_alias("default -> 20 (-> v20.11.0)").unwrap(), Some(NodeVersion::new(20, 11, 0)));
    assert_eq!(nvm_default_from_alias("default -> v18.19.1").unwrap(), Some(NodeVersion::new(18, 19, 1)));
    assert_eq!(nvm_default_from_alias("default -> N/A").unwrap(), None);
    assert!(matches!(nvm_default_from_alias("default -> 20"), Err(BackendError::ParseError(_))));
}

#[test]
fn backends_follow_the_environment() {
    let native = backend_for_environment(&EnvironmentId::Native, "/usr/bin/fnm", &Some("/d".to_string()), "");
    assert_eq!(native.info.path, "/usr/bin/fnm");
    assert_eq!(native.fnm_dir.as_deref(), Some("/d"));
    let wsl = backend_for_environment(&EnvironmentId::Wsl { distro: "Ubuntu".to_string() }, "", &None, "/home/u/.fnm/fnm");
    let c = wsl.command(&vec!["list".to_string()]);
    assert_eq!(c.args, vec!["-d", "Ubuntu", "--", "/home/u/.fnm/fnm", "list"]);
    assert_eq!(determine_wsl_backend("/home/u/.nvm/nvm.sh", "fnm"), "nvm");
    assert_eq!(determine_wsl_backend("/home/u/.local/share/fnm/fnm", "nvm"), "fnm");
    assert_eq!(determine_wsl_backend("/opt/tool", "fnm"), "fnm");
}
