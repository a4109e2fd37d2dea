//! The earlier fnm client, bound to the host or a WSL distribution by name.

use vstd::prelude::*;

verus! {

broadcast use vstd::string::group_string_axioms;

/// Failures of fnm calls.
#[derive(Debug, Clone)]
pub enum FnmError {
    NotFound,
    CommandFailed { stderr: String },
    ParseError(String),
    InstallFailed(String),
    NetworkError(String),
    VersionNotFound(String),
    IoError(String),
    Timeout,
}

/// Where the client runs fnm.
#[derive(Debug, Clone)]
pub enum Environment {
    Native,
    Wsl { distro: String },
}

#[derive(Debug, Clone)]
pub struct FnmClient {
    pub fnm_path: String,
    pub fnm_dir: Option<String>,
    pub node_dist_mirror: Option<String>,
    pub environment: Environment,
}

impl FnmClient {
    pub fn new(fnm_path: String) -> (r: FnmClient)
        ensures
            r.fnm_path == fnm_path,
            r.fnm_dir is None,
            r.node_dist_mirror is None,
            r.environment is Native,
    {
        FnmClient { fnm_path, fnm_dir: None, node_dist_mirror: None, environment: Environment::Native }
    }

    pub fn with_fnm_dir(self, dir: String) -> (r: FnmClient)
        ensures
            r.fnm_dir == Some(dir),
            r.fnm_path == self.fnm_path,
            r.node_dist_mirror == self.node_dist_mirror,
            r.environment == self.environment,
    {
        let mut c = self;
        c.fnm_dir = Some(dir);
        c
    }

    pub fn with_node_dist_mirror(self, mirror: String) -> (r: FnmClient)
        ensures
            r.node_dist_mirror == Some(mirror),
            r.fnm_path == self.fnm_path,
            r.fnm_dir == self.fnm_dir,
            r.environment == self.environment,
    {
        let mut c = self;
        c.node_dist_mirror = Some(mirror);
        c
    }

    /// The client inside WSL distribution `distro`, running `fnm` from its path.
    pub fn with_wsl(distro: String) -> (r: FnmClient)
        ensures
            r.fnm_path@ == "fnm"@,
            r.fnm_dir is None,
            r.node_dist_mirror is None,
            r.environment == (Environment::Wsl { distro }),
    {
        FnmClient {
            fnm_path: "fnm".to_string(),
            fnm_dir: None,
            node_dist_mirror: None,
            environment: Environment::Wsl { distro },
        }
    }
}

} // verus!
