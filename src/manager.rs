//! One interface over the supported tools: each operation becomes the
//! command line of the tool that serves the environment.

use vstd::prelude::*;
use crate::backend::{env_texts, fnm_command, texts, CommandSpec, FnmBackend};
use crate::nvm::{nvm_command, NvmClient};
use crate::environment::{id_view, EnvironmentId};
use crate::text::{chars_of, contains, contains_in, push_str, same_text, string_of};

verus! {

broadcast use vstd::string::group_string_axioms;

/// An operation that a version manager performs.
#[derive(Debug, Clone)]
pub enum ManagerOp {
    ListInstalled,
    ListRemote,
    ListRemoteLts,
    Current,
    Install(String),
    InstallWithProgress(String),
    Uninstall(String),
    SetDefault(String),
    UseVersion(String),
}

/// A version manager bound to one environment, one variant per tool.
#[derive(Debug, Clone)]
pub enum VersionManager {
    Fnm(FnmBackend),
    Nvm(NvmClient),
}

/// The fnm arguments of an operation.
pub open spec fn fnm_op_args(op: ManagerOp) -> Seq<Seq<char>> {
    match op {
        ManagerOp::ListInstalled => seq!["list"@],
        ManagerOp::ListRemote => seq!["list-remote"@],
        ManagerOp::ListRemoteLts => seq!["list-remote"@, "--lts"@],
        ManagerOp::Current => seq!["current"@],
        ManagerOp::Install(v) => seq!["install"@, v@],
        ManagerOp::InstallWithProgress(v) => seq!["install"@, v@, "--progress"@, "never"@],
        ManagerOp::Uninstall(v) => seq!["uninstall"@, v@],
        ManagerOp::SetDefault(v) => seq!["default"@, v@],
        ManagerOp::UseVersion(v) => seq!["use"@, v@],
    }
}

/// The nvm command line of an operation; nvm-windows has no LTS listing,
/// which is taken from the full listing instead.
pub open spec fn nvm_op_line(windows: bool, op: ManagerOp) -> Option<Seq<char>> {
    match op {
        ManagerOp::ListInstalled => Some("nvm list"@),
        ManagerOp::ListRemote => Some(if windows { "nvm list available"@ } else { "nvm ls-remote"@ }),
        ManagerOp::ListRemoteLts => if windows { None } else { Some("nvm ls-remote --lts"@) },
        ManagerOp::Current => Some("nvm current"@),
        ManagerOp::Install(v) => Some("nvm install "@ + v@),
        ManagerOp::InstallWithProgress(v) => Some("nvm install "@ + v@),
        ManagerOp::Uninstall(v) => Some("nvm uninstall "@ + v@),
        ManagerOp::SetDefault(v) => Some(if windows { "nvm use "@ + v@ } else { "nvm alias default "@ + v@ }),
        ManagerOp::UseVersion(v) => Some("nvm use "@ + v@),
    }
}

fn with_version(head: &str, v: &String) -> (r: String)
    ensures
        r@ == head@ + v@,
{
    let mut out = chars_of(head);
    push_str(&mut out, v.as_str());
    string_of(&out)
}

fn fnm_args(op: &ManagerOp) -> (r: Vec<String>)
    ensures
        texts(r@) == fnm_op_args(*op),
{
    let r = match op {
        ManagerOp::ListInstalled => vec!["list".to_string()],
        ManagerOp::ListRemote => vec!["list-remote".to_string()],
        ManagerOp::ListRemoteLts => vec!["list-remote".to_string(), "--lts".to_string()],
        ManagerOp::Current => vec!["current".to_string()],
        ManagerOp::Install(v) => vec!["install".to_string(), v.clone()],
        ManagerOp::InstallWithProgress(v) => vec![
            "install".to_string(),
            v.clone(),
            "--progress".to_string(),
            "never".to_string(),
        ],
        ManagerOp::Uninstall(v) => vec!["uninstall".to_string(), v.clone()],
        ManagerOp::SetDefault(v) => vec!["default".to_string(), v.clone()],
        ManagerOp::UseVersion(v) => vec!["use".to_string(), v.clone()],
    };
    assert(texts(r@) =~= fnm_op_args(*op));
    r
}

fn nvm_line(windows: bool, op: &ManagerOp) -> (r: Option<String>)
    ensures
        match r {
            Some(s) => nvm_op_line(windows, *op) == Some(s@),
            None => nvm_op_line(windows, *op) is None,
        },
{
    match op {
        ManagerOp::ListInstalled => Some("nvm list".to_string()),
        ManagerOp::ListRemote => Some(if windows { "nvm list available".to_string() } else { "nvm ls-remote".to_string() }),
        ManagerOp::ListRemoteLts => if windows { None } else { Some("nvm ls-remote --lts".to_string()) },
        ManagerOp::Current => Some("nvm current".to_string()),
        ManagerOp::Install(v) => Some(with_version("nvm install ", v)),
        ManagerOp::InstallWithProgress(v) => Some(with_version("nvm install ", v)),
        ManagerOp::Uninstall(v) => Some(with_version("nvm uninstall ", v)),
        ManagerOp::SetDefault(v) => Some(if windows { with_version("nvm use ", v) } else { with_version("nvm alias default ", v) }),
        ManagerOp::UseVersion(v) => Some(with_version("nvm use ", v)),
    }
}

impl VersionManager {
    pub fn name(&self) -> (r: &'static str)
        ensures
            r@ == (match self {
                VersionManager::Fnm(_) => "fnm"@,
                VersionManager::Nvm(_) => "nvm"@,
            }),
    {
        match self {
            VersionManager::Fnm(_) => "fnm",
            VersionManager::Nvm(_) => "nvm",
        }
    }

    /// The process that performs `op`, or `None` when the tool has no call
    /// for it and the result is derived from another one.
    pub fn command(&self, op: &ManagerOp) -> (r: Option<CommandSpec>)
        ensures
            match self {
                VersionManager::Fnm(b) => r matches Some(c) && (c.program@, texts(c.args@), env_texts(c.env@))
                    == fnm_command(*b, fnm_op_args(*op)),
                VersionManager::Nvm(n) => match nvm_op_line(n.environment is Windows, *op) {
                    Some(line) => r matches Some(c) && (c.program@, texts(c.args@), env_texts(c.env@))
                        == nvm_command(n.environment, line),
                    None => r is None,
                },
            },
    {
        match self {
            VersionManager::Fnm(b) => Some(b.command(&fnm_args(op))),
            VersionManager::Nvm(n) => match nvm_line(n.is_windows(), op) {
                Some(line) => Some(n.command(line.as_str())),
                None => None,
            },
        }
    }
}


/// The tool that a path inside WSL belongs to: `nvm` or `fnm` by name,
/// else `default_name`.
pub fn determine_wsl_backend<'a>(path: &str, default_name: &'a str) -> (r: &'a str)
    ensures
        contains(path@, "nvm"@) ==> r@ == "nvm"@,
        !contains(path@, "nvm"@) && contains(path@, "fnm"@) ==> r@ == "fnm"@,
        !contains(path@, "nvm"@) && !contains(path@, "fnm"@) ==> r@ == default_name@,
{
    let cs = chars_of(path);
    assert(cs@.subrange(0, cs@.len() as int) =~= path@);
    if contains_in(&cs, 0, cs.len(), &chars_of("nvm")) {
        "nvm"
    } else if contains_in(&cs, 0, cs.len(), &chars_of("fnm")) {
        "fnm"
    } else {
        default_name
    }
}

/// The fnm backend that serves environment `id`: on the host, fnm at
/// `fnm_path` with data directory `fnm_dir`; in WSL, fnm at `wsl_fnm_path`
/// inside the distribution.
pub fn backend_for_environment(id: &EnvironmentId, fnm_path: &str, fnm_dir: &Option<String>, wsl_fnm_path: &str) -> (r: FnmBackend)
    ensures
        id is Native ==> r.environment is Native && r.info.path@ == fnm_path@ && crate::backend::opt_text(r.fnm_dir)
            == crate::backend::opt_text(*fnm_dir) && crate::backend::opt_text(r.info.data_dir) == crate::backend::opt_text(*fnm_dir)
            && r.node_dist_mirror is None,
        id is Wsl ==> (r.environment matches crate::backend::Environment::Wsl { distro: d, fnm_path: p }
            && Some(d@) == id_view(*id) && p@ == wsl_fnm_path@) && r.fnm_dir is None && r.node_dist_mirror is None,
{
    match id {
        EnvironmentId::Native => {
            let dir = match fnm_dir {
                Some(d) => Some(d.clone()),
                None => None,
            };
            let b = FnmBackend::new(fnm_path.to_string(), None, dir);
            match fnm_dir {
                Some(d) => b.with_fnm_dir(d.clone()),
                None => b,
            }
        },
        EnvironmentId::Wsl { distro } => FnmBackend::with_wsl(distro.clone(), wsl_fnm_path.to_string()),
    }
}


/// The tool the user prefers: nvm when asked for, else fnm.
pub open spec fn preferred_tool(preferred: Option<Seq<char>>) -> Seq<char> {
    if preferred == Some("nvm"@) {
        "nvm"@
    } else {
        "fnm"@
    }
}

/// Detection `j` may be chosen: its tool was found, and it is the
/// preferred tool unless that one was not found at all.
pub open spec fn eligible(ds: Seq<(&str, bool)>, pref: Seq<char>, j: int) -> bool {
    &&& ds[j].1
    &&& (ds[j].0@ == pref || !exists|k: int| 0 <= k < ds.len() && (#[trigger] ds[k]).1 && ds[k].0@ == pref)
}

/// Picks among the detected tools (name, found), in their order: the first
/// found one that the user prefers, else the first found one.
pub fn choose_backend(preferred: Option<&str>, detections: &Vec<(&str, bool)>) -> (r: Option<usize>)
    ensures
        ({
            let pref = preferred_tool(match preferred {
                Some(p) => Some(p@),
                None => None,
            });
            match r {
                Some(i) => i < detections@.len() && eligible(detections@, pref, i as int)
                    && forall|j: int| 0 <= j < i ==> !#[trigger] eligible(detections@, pref, j),
                None => forall|j: int| 0 <= j < detections@.len() ==> !#[trigger] eligible(detections@, pref, j),
            }
        }),
{
    let ghost pref = preferred_tool(match preferred {
        Some(p) => Some(p@),
        None => None,
    });
    let want: &str = match preferred {
        Some(p) => if same_text(p, "nvm") { "nvm" } else { "fnm" },
        None => "fnm",
    };
    assert(want@ == pref);
    let mut i: usize = 0;
    while i < detections.len()
        invariant
            i <= detections@.len(),
            want@ == pref,
            pref == preferred_tool(match preferred {
                Some(p) => Some(p@),
                None => None,
            }),
            forall|j: int| 0 <= j < i ==> !(detections@[j].1 && detections@[j].0@ == pref),
        decreases detections@.len() - i,
    {
        if detections[i].1 && same_text(detections[i].0, want) {
            assert(detections@[i as int].1 && detections@[i as int].0@ == pref);
            assert(exists|x: int| 0 <= x < detections@.len() && (#[trigger] detections@[x]).1 && detections@[x].0@ == pref);
            assert(eligible(detections@, pref, i as int));
            assert forall|j: int| 0 <= j < i implies !#[trigger] eligible(detections@, pref, j) by {}
            return Some(i);
        }
        i = i + 1;
    }
    assert(!exists|k: int| 0 <= k < detections@.len() && (#[trigger] detections@[k]).1 && detections@[k].0@ == pref);
    let mut k: usize = 0;
    while k < detections.len()
        invariant
            k <= detections@.len(),
            pref == preferred_tool(match preferred {
                Some(p) => Some(p@),
                None => None,
            }),
            !exists|x: int| 0 <= x < detections@.len() && (#[trigger] detections@[x]).1 && detections@[x].0@ == pref,
            forall|j: int| 0 <= j < k ==> !detections@[j].1,
        decreases detections@.len() - k,
    {
        if detections[k].1 {
            assert(eligible(detections@, pref, k as int));
            assert forall|j: int| 0 <= j < k implies !#[trigger] eligible(detections@, pref, j) by {}
            return Some(k);
        }
        k = k + 1;
    }
    assert forall|j: int| 0 <= j < detections@.len() implies !#[trigger] eligible(detections@, pref, j) by {}
    None
}

} // verus!
