//! User settings that the core reads.

use vstd::prelude::*;

verus! {

#[derive(Debug, Clone, Copy, PartialEq, Eq, Structural)]
pub enum ThemeSetting {
    System,
    Light,
    Dark,
}

/// When the tray icon is shown.
#[derive(Debug, Clone, Copy, PartialEq, Eq, Structural)]
pub enum TrayBehavior {
    WhenWindowOpen,
    AlwaysRunning,
    Disabled,
}

/// Flags written into shell profiles.
#[derive(Debug, Clone, Copy, PartialEq, Eq, Structural)]
pub struct ShellOptions {
    pub use_on_cd: bool,
    pub resolve_engines: bool,
    pub corepack_enabled: bool,
}

impl Default for ShellOptions {
    fn default() -> (r: ShellOptions)
        ensures
            r == (ShellOptions { use_on_cd: true, resolve_engines: false, corepack_enabled: false }),
    {
        ShellOptions { use_on_cd: true, resolve_engines: false, corepack_enabled: false }
    }
}

#[derive(Debug, Clone)]
pub struct AppSettings {
    pub theme: ThemeSetting,
    pub cache_ttl_hours: u64,
    pub tray_behavior: TrayBehavior,
    pub start_minimized: bool,
    pub fnm_dir: Option<String>,
    pub node_dist_mirror: Option<String>,
    pub shell_options: ShellOptions,
}

impl Default for AppSettings {
    fn default() -> (r: AppSettings)
        ensures
            r.theme == ThemeSetting::System,
            r.cache_ttl_hours == 1,
            r.tray_behavior == TrayBehavior::WhenWindowOpen,
            !r.start_minimized,
            r.fnm_dir is None,
            r.node_dist_mirror is None,
            r.shell_options == (ShellOptions { use_on_cd: true, resolve_engines: false, corepack_enabled: false }),
    {
        AppSettings {
            theme: ThemeSetting::System,
            cache_ttl_hours: 1,
            tray_behavior: TrayBehavior::WhenWindowOpen,
            start_minimized: false,
            fnm_dir: None,
            node_dist_mirror: None,
            shell_options: ShellOptions::default(),
        }
    }
}

} // verus!
