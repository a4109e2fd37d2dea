use versi::shell::{FnmShellOptions, ShellType};
use versi::shell_config::{ShellConfig, ShellConfigEdit};

fn config(shell_type: ShellType, content: &str) -> ShellConfig {
    ShellConfig { shell_type, config_path: "/home/u/.bashrc".to_string(), content: content.to_string() }
}

#[test]
fn profile_without_activation_gets_a_block() {
    let mut c = config(ShellType::Bash, "alias ll=ls");
    assert!(!c.has_fnm_init());
    assert!(c.detect_fnm_options().is_none());
    let opts = FnmShellOptions { use_on_cd: true, resolve_engines: false, corepack_enabled: false };
    let edit = c.add_fnm_init(&opts);
    assert_eq!(edit.original, "alias ll=ls");
    assert_eq!(edit.modified, "alias ll=ls\n# fnm (Fast Node Manager)\neval \"$(fnm env --use-on-cd --shell bash)\"\n");
    assert_eq!(edit.changes, vec!["Add fnm initialization: eval \"$(fnm env --use-on-cd --shell bash)\"".to_string()]);
    assert_eq!(c.content, "alias ll=ls");
}

#[test]
fn flags_are_added_and_removed_in_place() {
    let mut c = config(ShellType::Bash, "export PATH=x\neval \"$(fnm env --use-on-cd)\"\n");
    let found = c.detect_fnm_options().unwrap();
    assert!(found.use_on_cd && !found.resolve_engines && !found.corepack_enabled);
    let opts = FnmShellOptions { use_on_cd: false, resolve_engines: true, corepack_enabled: false };
    let edit = c.update_fnm_flags(&opts);
    assert_eq!(edit.modified, "export PATH=x\neval \"$(fnm env --resolve-engines)\"\n");
    assert_eq!(edit.diff_preview(), "+ Removed --use-on-cd\n+ Added --resolve-engines\n");
    assert!(edit.has_changes());
}

#[test]
fn line_endings_follow_the_profile() {
    let mut c = config(ShellType::Zsh, "fnm env\r\nx");
    let opts = FnmShellOptions { use_on_cd: true, resolve_engines: false, corepack_enabled: false };
    let edit = c.update_fnm_flags(&opts);
    assert_eq!(edit.modified, "fnm env --use-on-cd\nx");
}

#[test]
fn nothing_to_change() {
    let edit = ShellConfigEdit { original: String::new(), modified: String::new(), changes: vec![] };
    assert!(!edit.has_changes());
    assert_eq!(edit.diff_preview(), "No changes needed.");
}
