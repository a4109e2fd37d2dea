//! The fnm backend: what it can do, how its commands are formed, and how
//! its answers are read.

use vstd::prelude::*;
use crate::text::{chars_of, join_spaced, push_joined, push_str, same_text, string_of, trim};
use crate::version::{parse_version_spec, InstalledVersion, NodeVersion, RemoteVersion};

verus! {

broadcast use vstd::string::group_string_axioms;

/// Failures of backend operations.
#[derive(Debug, Clone)]
pub enum BackendError {
    NotFound,
    CommandFailed { stderr: String },
    ParseError(String),
    InstallFailed(String),
    NetworkError(String),
    VersionNotFound(String),
    IoError(String),
    Unsupported(String),
    BackendSpecific(String),
    Timeout,
}

/// What a backend supports.
#[derive(Debug, Clone, Copy, PartialEq, Eq, Structural)]
pub struct ManagerCapabilities {
    pub supports_progress: bool,
    pub supports_lts_filter: bool,
    pub supports_use_version: bool,
    pub supports_shell_integration: bool,
    pub supports_auto_switch: bool,
    pub supports_corepack: bool,
    pub supports_resolve_engines: bool,
}

/// Where a backend lives and what it reported about itself.
#[derive(Debug, Clone)]
pub struct BackendInfo {
    pub name: String,
    pub path: String,
    pub version: Option<String>,
    pub data_dir: Option<String>,
    pub in_path: bool,
}

/// Flags of the shell activation line.
#[derive(Debug, Clone, Copy, PartialEq, Eq, Structural)]
pub struct ShellInitOptions {
    pub use_on_cd: bool,
    pub resolve_engines: bool,
    pub corepack_enabled: bool,
}

/// Where the backend runs: on the host, or inside a WSL distribution.
#[derive(Debug, Clone)]
pub enum Environment {
    Native,
    Wsl { distro: String, fnm_path: String },
}

/// A process to start: program, arguments and extra environment variables.
#[derive(Debug, Clone)]
pub struct CommandSpec {
    pub program: String,
    pub args: Vec<String>,
    pub env: Vec<(String, String)>,
}

pub open spec fn texts(v: Seq<String>) -> Seq<Seq<char>> {
    v.map_values(|s: String| s@)
}

pub open spec fn env_texts(v: Seq<(String, String)>) -> Seq<(Seq<char>, Seq<char>)> {
    v.map_values(|p: (String, String)| (p.0@, p.1@))
}

pub open spec fn opt_text(o: Option<String>) -> Option<Seq<char>> {
    match o {
        Some(s) => Some(s@),
        None => None,
    }
}

/// The fnm backend bound to one environment.
#[derive(Debug, Clone)]
pub struct FnmBackend {
    pub info: BackendInfo,
    pub fnm_dir: Option<String>,
    pub node_dist_mirror: Option<String>,
    pub environment: Environment,
}

/// The environment variables that a native fnm command gets.
pub open spec fn fnm_env(fnm_dir: Option<Seq<char>>, mirror: Option<Seq<char>>) -> Seq<(Seq<char>, Seq<char>)> {
    (match fnm_dir {
        Some(d) => seq![("FNM_DIR"@, d)],
        None => Seq::empty(),
    }) + (match mirror {
        Some(m) => seq![("FNM_NODE_DIST_MIRROR"@, m)],
        None => Seq::empty(),
    })
}

/// The program, arguments and environment of `fnm <args>` for `b`.
pub open spec fn fnm_command(b: FnmBackend, args: Seq<Seq<char>>) -> (Seq<char>, Seq<Seq<char>>, Seq<(Seq<char>, Seq<char>)>) {
    match b.environment {
        Environment::Native => (b.info.path@, args, fnm_env(opt_text(b.fnm_dir), opt_text(b.node_dist_mirror))),
        Environment::Wsl { distro, fnm_path } => (
            "wsl.exe"@,
            seq!["-d"@, distro@, "--"@, fnm_path@] + args,
            Seq::empty(),
        ),
    }
}

/// The flags that the options select, in a fixed order.
pub open spec fn flag_words(o: ShellInitOptions) -> Seq<Seq<char>> {
    (if o.use_on_cd { seq!["--use-on-cd"@] } else { Seq::empty() }) + (if o.resolve_engines {
        seq!["--resolve-engines"@]
    } else {
        Seq::empty()
    }) + (if o.corepack_enabled { seq!["--corepack-enabled"@] } else { Seq::empty() })
}

/// The activation line of fnm for a shell, if the shell can run one.
pub open spec fn fnm_init_line(shell: Seq<char>, o: ShellInitOptions) -> Option<Seq<char>> {
    let f = if flag_words(o).len() == 0 {
        Seq::<char>::empty()
    } else {
        seq![' '] + join_spaced(flag_words(o))
    };
    if shell == "bash"@ || shell == "zsh"@ {
        Some("eval \"$(fnm env"@ + f + ")\""@)
    } else if shell == "fish"@ {
        Some("fnm env"@ + f + " | source"@)
    } else if shell == "powershell"@ || shell == "pwsh"@ {
        Some("fnm env"@ + f + " | Out-String | Invoke-Expression"@)
    } else {
        None
    }
}

/// The flags as `&str`, in the order of `flag_words`.
pub fn selected_flags(o: &ShellInitOptions) -> (r: Vec<&'static str>)
    ensures
        r@.map_values(|w: &str| w@) == flag_words(*o),
{
    let mut flags: Vec<&'static str> = Vec::new();
    if o.use_on_cd {
        flags.push("--use-on-cd");
    }
    if o.resolve_engines {
        flags.push("--resolve-engines");
    }
    if o.corepack_enabled {
        flags.push("--corepack-enabled");
    }
    assert(flags@.map_values(|w: &str| w@) =~= flag_words(*o));
    flags
}

impl FnmBackend {
    pub fn new(path: String, version: Option<String>, fnm_dir: Option<String>) -> (r: FnmBackend)
        ensures
            r.info.name@ == "fnm"@,
            r.info.path@ == path@,
            opt_text(r.info.version) == opt_text(version),
            opt_text(r.info.data_dir) == opt_text(fnm_dir),
            r.info.in_path,
            opt_text(r.fnm_dir) == opt_text(fnm_dir),
            r.node_dist_mirror is None,
            r.environment is Native,
    {
        let data_dir = match &fnm_dir {
            Some(d) => Some(d.clone()),
            None => None,
        };
        FnmBackend {
            info: BackendInfo { name: "fnm".to_string(), path, version, data_dir, in_path: true },
            fnm_dir,
            node_dist_mirror: None,
            environment: Environment::Native,
        }
    }

    /// Uses `dir` as fnm's data directory.
    pub fn with_fnm_dir(self, dir: String) -> (r: FnmBackend)
        ensures
            opt_text(r.fnm_dir) == Some(dir@),
            opt_text(r.info.data_dir) == Some(dir@),
            r.info.name == self.info.name,
            r.info.path == self.info.path,
            r.info.version == self.info.version,
            r.info.in_path == self.info.in_path,
            r.node_dist_mirror == self.node_dist_mirror,
            r.environment == self.environment,
    {
        let mut b = self;
        b.fnm_dir = Some(dir.clone());
        b.info.data_dir = Some(dir);
        b
    }

    /// Downloads runtimes from `mirror`.
    pub fn with_node_dist_mirror(self, mirror: String) -> (r: FnmBackend)
        ensures
            opt_text(r.node_dist_mirror) == Some(mirror@),
            r.info == self.info,
            r.fnm_dir == self.fnm_dir,
            r.environment == self.environment,
    {
        let mut b = self;
        b.node_dist_mirror = Some(mirror);
        b
    }

    /// The backend inside WSL distribution `distro`, with fnm at `fnm_path`.
    pub fn with_wsl(distro: String, fnm_path: String) -> (r: FnmBackend)
        ensures
            r.info.name@ == "fnm"@,
            r.info.path@ == fnm_path@,
            r.info.version is None,
            r.info.data_dir is None,
            r.info.in_path,
            r.fnm_dir is None,
            r.node_dist_mirror is None,
            (r.environment matches Environment::Wsl { distro: d, fnm_path: p } && d@ == distro@ && p@ == fnm_path@),
    {
        let path = fnm_path.clone();
        FnmBackend {
            info: BackendInfo { name: "fnm".to_string(), path, version: None, data_dir: None, in_path: true },
            fnm_dir: None,
            node_dist_mirror: None,
            environment: Environment::Wsl { distro, fnm_path },
        }
    }

    pub fn name(&self) -> (r: &'static str)
        ensures
            r@ == "fnm"@,
    {
        "fnm"
    }

    /// fnm supports every capability.
    pub fn capabilities(&self) -> (r: ManagerCapabilities)
        ensures
            r == (ManagerCapabilities {
                supports_progress: true,
                supports_lts_filter: true,
                supports_use_version: true,
                supports_shell_integration: true,
                supports_auto_switch: true,
                supports_corepack: true,
                supports_resolve_engines: true,
            }),
    {
        ManagerCapabilities {
            supports_progress: true,
            supports_lts_filter: true,
            supports_use_version: true,
            supports_shell_integration: true,
            supports_auto_switch: true,
            supports_corepack: true,
            supports_resolve_engines: true,
        }
    }

    pub fn backend_info(&self) -> (r: &BackendInfo)
        ensures
            *r == self.info,
    {
        &self.info
    }

    /// The process that runs `fnm <args>` in this backend's environment.
    pub fn command(&self, args: &Vec<String>) -> (r: CommandSpec)
        ensures
            (r.program@, texts(r.args@), env_texts(r.env@)) == fnm_command(*self, texts(args@)),
    {
        let mut out_args: Vec<String> = Vec::new();
        let mut env: Vec<(String, String)> = Vec::new();
        let program = match &self.environment {
            Environment::Native => {
                match &self.fnm_dir {
                    Some(d) => env.push(("FNM_DIR".to_string(), d.clone())),
                    None => {},
                }
                match &self.node_dist_mirror {
                    Some(m) => env.push(("FNM_NODE_DIST_MIRROR".to_string(), m.clone())),
                    None => {},
                }
                assert(env_texts(env@) =~= fnm_env(opt_text(self.fnm_dir), opt_text(self.node_dist_mirror)));
                self.info.path.clone()
            },
            Environment::Wsl { distro, fnm_path } => {
                out_args.push("-d".to_string());
                out_args.push(distro.clone());
                out_args.push("--".to_string());
                out_args.push(fnm_path.clone());
                assert(env_texts(env@) =~= Seq::<(Seq<char>, Seq<char>)>::empty());
                "wsl.exe".to_string()
            },
        };
        let ghost head = texts(out_args@);
        let mut i: usize = 0;
        while i < args.len()
            invariant
                i <= args@.len(),
                texts(out_args@) == head + texts(args@).take(i as int),
            decreases args@.len() - i,
        {
            let ghost before = out_args@;
            let a = args[i].clone();
            assert(a@ == texts(args@)[i as int]);
            out_args.push(a);
            i = i + 1;
            assert(texts(out_args@) =~= texts(before).push(texts(args@)[i - 1]));
            assert(texts(args@).take(i as int) =~= texts(args@).take(i - 1).push(texts(args@)[i - 1]));
            assert(texts(out_args@) =~= head + texts(args@).take(i as int));
        }
        assert(texts(args@).take(args@.len() as int) =~= texts(args@));
        proof {
            match &self.environment {
                Environment::Native => {
                    assert(head =~= Seq::<Seq<char>>::empty());
                    assert(head + texts(args@) =~= texts(args@));
                },
                Environment::Wsl { distro, fnm_path } => {
                    assert(head =~= seq!["-d"@, distro@, "--"@, fnm_path@]);
                },
            }
        }
        CommandSpec { program, args: out_args, env }
    }

    /// The line that activates fnm in `shell`, or `None` for a shell that
    /// fnm cannot script.
    pub fn shell_init_command(&self, shell: &str, options: &ShellInitOptions) -> (r: Option<String>)
        ensures
            opt_text(r) == fnm_init_line(shell@, *options),
    {
        let flags = selected_flags(options);
        let mut f: Vec<char> = Vec::new();
        if flags.len() > 0 {
            f.push(' ');
            push_joined(&mut f, &flags);
        }
        assert(f@ =~= (if flag_words(*options).len() == 0 {
            Seq::<char>::empty()
        } else {
            seq![' '] + join_spaced(flag_words(*options))
        }));
        let mut out: Vec<char> = Vec::new();
        if same_text(shell, "bash") || same_text(shell, "zsh") {
            push_str(&mut out, "eval \"$(fnm env");
            push_vec(&mut out, &f);
            push_str(&mut out, ")\"");
        } else if same_text(shell, "fish") {
            push_str(&mut out, "fnm env");
            push_vec(&mut out, &f);
            push_str(&mut out, " | source");
        } else if same_text(shell, "powershell") || same_text(shell, "pwsh") {
            push_str(&mut out, "fnm env");
            push_vec(&mut out, &f);
            push_str(&mut out, " | Out-String | Invoke-Expression");
        } else {
            return None;
        }
        Some(string_of(&out))
    }
}

/// Appends all of `v`.
fn push_vec(out: &mut Vec<char>, v: &Vec<char>)
    ensures
        final(out)@ == old(out)@ + v@,
{
    crate::text::push_range(out, v, 0, v.len());
    assert(v@.subrange(0, v@.len() as int) =~= v@);
}


/// The outcome of a finished command: its standard output when it
/// succeeded, else its error output as a failure.
pub fn command_result(success: bool, stdout: String, stderr: String) -> (r: Result<String, BackendError>)
    ensures
        success ==> (r matches Ok(o) && o@ == stdout@),
        !success ==> (r matches Err(BackendError::CommandFailed { stderr: e }) && e@ == stderr@),
{
    if success {
        Ok(stdout)
    } else {
        Err(BackendError::CommandFailed { stderr })
    }
}

/// What `fnm current` printed, read as the version in use.
pub open spec fn current_spec(output: Seq<char>) -> Result<Option<NodeVersion>, Seq<char>> {
    let t = trim(output);
    if t.len() == 0 || t == "none"@ || t == "system"@ {
        Ok(None)
    } else {
        match parse_version_spec(t) {
            Ok(v) => Ok(Some(v)),
            Err(m) => Err("Failed to parse version: "@ + m),
        }
    }
}

/// Reads the output of `fnm current`: no version for an empty answer,
/// `none` or `system`; otherwise the version, or a parse failure.
pub fn current_from_output(output: &str) -> (r: Result<Option<NodeVersion>, BackendError>)
    ensures
        match r {
            Ok(v) => current_spec(output@) == Ok::<Option<NodeVersion>, Seq<char>>(v),
            Err(BackendError::ParseError(m)) => current_spec(output@) == Err::<Option<NodeVersion>, Seq<char>>(m@),
            Err(_) => false,
        },
{
    let cs = chars_of(output);
    assert(cs@.subrange(0, cs@.len() as int) =~= output@);
    let (a, b) = crate::text::trim_range(&cs, 0, cs.len());
    if a == b || crate::text::equals_range(&cs, a, b, &chars_of("none")) || crate::text::equals_range(&cs, a, b, &chars_of("system")) {
        return Ok(None);
    }
    let ghost t = trim(output@);
    assert(parse_version_spec(t) == parse_version_spec(cs@.subrange(a as int, b as int)));
    match NodeVersion::parse_range(&cs, a, b) {
        Ok(v) => {
            assert(t == cs@.subrange(a as int, b as int));
            Ok(Some(v))
        },
        Err(e) => {
            let mut m = chars_of("Failed to parse version: ");
            push_str(&mut m, e.0.as_str());
            Err(BackendError::ParseError(string_of(&m)))
        },
    }
}

/// The version that the listing marks as default.
pub open spec fn default_in(vs: Seq<InstalledVersion>) -> Option<NodeVersion>
    decreases vs.len(),
{
    if vs.len() == 0 {
        None
    } else if vs[0].is_default {
        Some(vs[0].version)
    } else {
        default_in(vs.drop_first())
    }
}

/// The first installed version marked as default, for backends that have no
/// separate query for it.
pub fn default_from_installed(versions: &Vec<InstalledVersion>) -> (r: Option<NodeVersion>)
    ensures
        r == default_in(versions@),
{
    let mut i: usize = 0;
    assert(versions@.skip(0) =~= versions@);
    while i < versions.len()
        invariant
            i <= versions@.len(),
            default_in(versions@) == default_in(versions@.skip(i as int)),
        decreases versions@.len() - i,
    {
        assert(versions@.skip(i as int)[0] == versions@[i as int]);
        if versions[i].is_default {
            return Some(versions[i].version);
        }
        assert(versions@.skip(i as int).drop_first() =~= versions@.skip(i + 1));
        i = i + 1;
    }
    None
}

/// Holds of a remote version with an LTS codename.
pub open spec fn is_lts_release(v: RemoteVersion) -> bool {
    v.lts_codename is Some
}

/// The LTS releases among `all`, in order.
pub fn lts_only(all: Vec<RemoteVersion>) -> (r: Vec<RemoteVersion>)
    ensures
        r@ == all@.filter(|v: RemoteVersion| is_lts_release(v)),
{
    let ghost orig = all@;
    let mut rest = all;
    let mut out: Vec<RemoteVersion> = Vec::new();
    let ghost mut k: int = 0;
    assert(orig.take(0).filter(|v: RemoteVersion| is_lts_release(v)) =~= Seq::<RemoteVersion>::empty());
    assert(orig.skip(0) =~= orig);
    while rest.len() > 0
        invariant
            0 <= k,
            rest@.len() + k == orig.len(),
            rest@ == orig.skip(k),
            out@ == orig.take(k).filter(|v: RemoteVersion| is_lts_release(v)),
        decreases rest@.len(),
    {
        let v = rest.remove(0);
        assert(v == orig[k]);
        assert(rest@ =~= orig.skip(k + 1));
        assert(orig.take(k + 1) =~= orig.take(k).push(v));
        proof {
            orig.take(k).lemma_filter_push(v, |v: RemoteVersion| is_lts_release(v));
        }
        if v.lts_codename.is_some() {
            out.push(v);
        }
        proof {
            k = k + 1;
        }
    }
    assert(orig.take(orig.len() as int) =~= orig);
    out
}


/// The version that `fnm --version` printed: its trimmed output without a
/// leading `fnm `.
pub open spec fn fnm_version_spec(output: Seq<char>) -> Seq<char> {
    let t = trim(output);
    if t.len() >= 4 && t.take(4) == "fnm "@ {
        t.skip(4)
    } else {
        t
    }
}

/// Reads the output of `fnm --version`.
pub fn fnm_version_text(output: &str) -> (r: String)
    ensures
        r@ == fnm_version_spec(output@),
{
    let cs = chars_of(output);
    assert(cs@.subrange(0, cs@.len() as int) =~= output@);
    let (a, b) = crate::text::trim_range(&cs, 0, cs.len());
    let mut start = a;
    if b - a >= 4 && crate::text::equals_range(&cs, a, a + 4, &chars_of("fnm ")) {
        start = a + 4;
    }
    assert(b - a >= 4 ==> cs@.subrange(a as int, b as int).take(4) =~= cs@.subrange(a as int, a + 4));
    let mut out: Vec<char> = Vec::new();
    crate::text::push_range(&mut out, &cs, start, b);
    assert(out@ =~= fnm_version_spec(output@));
    string_of(&out)
}

} // verus!
