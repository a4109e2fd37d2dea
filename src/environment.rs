//! Execution environments (the host, or a WSL distribution) and the state
//! kept for each: the installed versions last loaded, their groups, and
//! whether a load is running or failed.

use vstd::prelude::*;
use crate::text::{
    chars_of, parse_u32, pieces, push_range, push_str, same_text, split, split_ranges, string_of,
    trim, trim_range, u32_of, word_ranges, words,
};
use crate::version::{newest_first, of_major, InstalledVersion, NodeVersion, VersionGroup};
use crate::backend::default_in;

verus! {

broadcast use vstd::string::group_string_axioms;

/// The identity of an environment.
#[derive(Debug, Clone, Eq, Hash)]
pub enum EnvironmentId {
    Native,
    Wsl { distro: String },
}

/// `None` for the host, the distribution's name for WSL.
pub open spec fn id_view(id: EnvironmentId) -> Option<Seq<char>> {
    match id {
        EnvironmentId::Native => None,
        EnvironmentId::Wsl { distro } => Some(distro@),
    }
}

impl PartialEq for EnvironmentId {
    fn eq(&self, other: &EnvironmentId) -> (r: bool)
        ensures
            r == (id_view(*self) == id_view(*other)),
    {
        match (self, other) {
            (EnvironmentId::Native, EnvironmentId::Native) => true,
            (EnvironmentId::Wsl { distro: a }, EnvironmentId::Wsl { distro: b }) => same_text(a.as_str(), b.as_str()),
            _ => false,
        }
    }
}

impl vstd::std_specs::cmp::PartialEqSpecImpl for EnvironmentId {
    open spec fn obeys_eq_spec() -> bool {
        true
    }

    open spec fn eq_spec(&self, other: &EnvironmentId) -> bool {
        id_view(*self) == id_view(*other)
    }
}

/// The name shown for an environment; `host` names the native system.
pub open spec fn display_text(id: EnvironmentId, host: Seq<char>) -> Seq<char> {
    match id {
        EnvironmentId::Native => host,
        EnvironmentId::Wsl { distro } => "WSL: "@ + distro@,
    }
}

impl EnvironmentId {
    /// A copy of this identity.
    pub fn duplicate(&self) -> (r: EnvironmentId)
        ensures
            r == *self,
    {
        match self {
            EnvironmentId::Native => EnvironmentId::Native,
            EnvironmentId::Wsl { distro } => EnvironmentId::Wsl { distro: distro.clone() },
        }
    }

    /// The name shown for this environment; `host` is the name of the
    /// native operating system (`macOS`, `Windows`, `Linux`).
    pub fn display_name(&self, host: &str) -> (r: String)
        ensures
            r@ == display_text(*self, host@),
    {
        match self {
            EnvironmentId::Native => host.to_string(),
            EnvironmentId::Wsl { distro } => {
                let mut out = chars_of("WSL: ");
                push_str(&mut out, distro.as_str());
                string_of(&out)
            },
        }
    }
}

/// An environment that can be offered to the user.
#[derive(Debug, Clone)]
pub struct Environment {
    pub id: EnvironmentId,
    pub name: String,
    pub enabled: bool,
}

impl Environment {
    pub fn native(host: &str) -> (r: Environment)
        ensures
            r.id is Native,
            r.name@ == host@,
            r.enabled,
    {
        Environment { id: EnvironmentId::Native, name: host.to_string(), enabled: true }
    }

    pub fn wsl(distro: String, host: &str) -> (r: Environment)
        ensures
            id_view(r.id) == Some(distro@),
            r.name@ == "WSL: "@ + distro@,
            r.enabled,
    {
        let id = EnvironmentId::Wsl { distro };
        let name = id.display_name(host);
        Environment { id, name, enabled: true }
    }
}

/// A WSL distribution as `wsl --list` reports it.
#[derive(Debug, Clone)]
pub struct WslDistro {
    pub name: String,
    pub is_default: bool,
    pub version: u8,
    pub fnm_path: Option<String>,
    pub is_running: bool,
}

/// Failures of WSL calls.
#[derive(Debug)]
pub enum WslError {
    NotAvailable,
    CommandFailed { stderr: String },
    IoError(String),
}

/// What is known about one environment.
#[derive(Debug)]
pub struct EnvironmentState {
    pub id: EnvironmentId,
    pub name: String,
    pub installed_versions: Vec<InstalledVersion>,
    pub version_groups: Vec<VersionGroup>,
    pub default_version: Option<NodeVersion>,
    pub fnm_version: Option<String>,
    pub loading: bool,
    pub error: Option<String>,
    pub available: bool,
}

/// An environment whose versions must be (re)loaded when it is selected:
/// it is loading, or it has neither versions nor an error.
pub open spec fn needs_load_spec(e: EnvironmentState) -> bool {
    e.available && (e.loading || (e.installed_versions@.len() == 0 && e.error is None))
}

/// The expansion flag that a group of `major` keeps from `old` groups;
/// a new major starts expanded.
pub open spec fn kept_expansion(old: Seq<VersionGroup>, major: u32) -> bool
    decreases old.len(),
{
    if old.len() == 0 {
        true
    } else if old[0].major == major {
        old[0].is_expanded
    } else {
        kept_expansion(old.drop_first(), major)
    }
}

fn expansion_of(old: &Vec<VersionGroup>, major: u32) -> (r: bool)
    ensures
        r == kept_expansion(old@, major),
{
    let mut i: usize = 0;
    assert(old@.skip(0) =~= old@);
    while i < old.len()
        invariant
            i <= old@.len(),
            kept_expansion(old@, major) == kept_expansion(old@.skip(i as int), major),
        decreases old@.len() - i,
    {
        assert(old@.skip(i as int)[0] == old@[i as int]);
        if old[i].major == major {
            return old[i].is_expanded;
        }
        assert(old@.skip(i as int).drop_first() =~= old@.skip(i + 1));
        i = i + 1;
    }
    true
}

/// `groups` are the groups of `versions` rebuilt after `old`: majors
/// newest first, each group's versions newest first and exactly those of
/// its major, every major of `versions` present, and each group keeping
/// the expansion its major had.
pub open spec fn groups_rebuilt(old: Seq<VersionGroup>, groups: Seq<VersionGroup>, versions: Seq<InstalledVersion>) -> bool {
    &&& forall|i: int, j: int| 0 <= i < j < groups.len() ==> (#[trigger] groups[i]).major > (#[trigger] groups[j]).major
    &&& forall|i: int| 0 <= i < groups.len() ==> {
        &&& newest_first((#[trigger] groups[i]).versions@)
        &&& groups[i].versions@.to_multiset() == versions.filter(of_major(groups[i].major)).to_multiset()
        &&& groups[i].is_expanded == kept_expansion(old, groups[i].major)
    }
    &&& groups.map_values(|g: VersionGroup| g.major).to_set() == crate::version::majors_of(versions)
}

impl EnvironmentState {
    /// An available environment, not yet loaded.
    pub fn new(id: EnvironmentId, host: &str, fnm_version: Option<String>) -> (r: EnvironmentState)
        ensures
            r.id == id,
            r.name@ == display_text(id, host@),
            r.installed_versions@.len() == 0,
            r.version_groups@.len() == 0,
            r.default_version is None,
            r.fnm_version == fnm_version,
            r.loading,
            r.error is None,
            r.available,
    {
        let name = id.display_name(host);
        EnvironmentState {
            id,
            name,
            installed_versions: Vec::new(),
            version_groups: Vec::new(),
            default_version: None,
            fnm_version,
            loading: true,
            error: None,
            available: true,
        }
    }

    /// An environment that cannot be used, with the reason shown to the user.
    pub fn unavailable(id: EnvironmentId, host: &str, reason: &str) -> (r: EnvironmentState)
        ensures
            r.id == id,
            r.name@ == display_text(id, host@),
            r.installed_versions@.len() == 0,
            r.version_groups@.len() == 0,
            r.default_version is None,
            r.fnm_version is None,
            !r.loading,
            r.error is Some && r.error->0@ == reason@,
            !r.available,
            !needs_load_spec(r),
    {
        let name = id.display_name(host);
        EnvironmentState {
            id,
            name,
            installed_versions: Vec::new(),
            version_groups: Vec::new(),
            default_version: None,
            fnm_version: None,
            loading: false,
            error: Some(reason.to_string()),
            available: false,
        }
    }

    /// Whether selecting this environment must start a load.
    pub fn needs_load(&self) -> (r: bool)
        ensures
            r == needs_load_spec(*self),
    {
        self.available && (self.loading || (self.installed_versions.len() == 0 && self.error.is_none()))
    }

    /// Replaces the loaded versions after a successful listing: the default
    /// is the first marked one, groups are rebuilt and keep their expansion
    /// by major, and loading and error are cleared.
    pub fn update_versions(&mut self, versions: Vec<InstalledVersion>)
        ensures
            final(self).installed_versions@ == versions@,
            final(self).default_version == default_in(versions@),
            !final(self).loading,
            final(self).error is None,
            final(self).id == old(self).id,
            final(self).name == old(self).name,
            final(self).available == old(self).available,
            final(self).fnm_version == old(self).fnm_version,
            groups_rebuilt(old(self).version_groups@, final(self).version_groups@, versions@),
    {
        self.default_version = crate::backend::default_from_installed(&versions);
        let mut copies: Vec<InstalledVersion> = Vec::new();
        let mut k: usize = 0;
        while k < versions.len()
            invariant
                k <= versions@.len(),
                copies@ == versions@.take(k as int),
            decreases versions@.len() - k,
        {
            copies.push(versions[k].duplicate());
            k = k + 1;
            assert(copies@ =~= versions@.take(k as int));
        }
        assert(versions@.take(versions@.len() as int) =~= versions@);
        let mut groups = VersionGroup::from_versions(copies);
        let ghost fresh = groups@;
        let mut i: usize = 0;
        while i < groups.len()
            invariant
                i <= groups@.len(),
                groups@.len() == fresh.len(),
                forall|j: int| 0 <= j < groups@.len() ==> (#[trigger] groups@[j]).major == fresh[j].major
                    && groups@[j].versions == fresh[j].versions,
                forall|j: int| i <= j < groups@.len() ==> (#[trigger] groups@[j]).is_expanded == fresh[j].is_expanded,
                forall|j: int| 0 <= j < i ==> (#[trigger] groups@[j]).is_expanded == kept_expansion(self.version_groups@, groups@[j].major),
            decreases groups@.len() - i,
        {
            let e = expansion_of(&self.version_groups, groups[i].major);
            let mut grp = groups.remove(i);
            grp.is_expanded = e;
            groups.insert(i, grp);
            i = i + 1;
        }
        assert(groups@.map_values(|g: VersionGroup| g.major) =~= fresh.map_values(|g: VersionGroup| g.major));
        self.version_groups = groups;
        self.installed_versions = versions;
        self.loading = false;
        self.error = None;
    }

    /// Records a failed load; the versions loaded before stay.
    pub fn set_error(&mut self, message: String)
        ensures
            !final(self).loading,
            final(self).error is Some && final(self).error->0@ == message@,
            final(self).installed_versions == old(self).installed_versions,
            final(self).version_groups == old(self).version_groups,
            final(self).default_version == old(self).default_version,
            final(self).id == old(self).id,
            final(self).available == old(self).available,
            final(self).name == old(self).name,
            final(self).fnm_version == old(self).fnm_version,
    {
        self.loading = false;
        self.error = Some(message);
    }
}


/// An environment as startup detection reports it.
#[derive(Debug, Clone)]
pub struct EnvironmentInfo {
    pub id: EnvironmentId,
    pub fnm_version: Option<String>,
    pub available: bool,
    pub unavailable_reason: Option<String>,
}

/// What startup detection found.
#[derive(Debug, Clone)]
pub struct InitResult {
    pub fnm_found: bool,
    pub fnm_path: Option<String>,
    pub fnm_dir: Option<String>,
    pub fnm_version: Option<String>,
    pub environments: Vec<EnvironmentInfo>,
}

/// The reason shown for an unavailable environment.
pub open spec fn reason_text(info: EnvironmentInfo) -> Seq<char> {
    match info.unavailable_reason {
        Some(r) => r@,
        None => "Unavailable"@,
    }
}

/// The registry's environments, one per detected environment and in the
/// same order: available ones wait for their first load, the others carry
/// the reason they cannot be used.
pub fn environments_from_init(infos: &Vec<EnvironmentInfo>, host: &str) -> (r: Vec<EnvironmentState>)
    ensures
        r@.len() == infos@.len(),
        forall|i: int| 0 <= i < r@.len() ==> {
            &&& (#[trigger] r@[i]).id == infos@[i].id
            &&& r@[i].available == infos@[i].available
            &&& r@[i].installed_versions@.len() == 0
            &&& (infos@[i].available ==> r@[i].loading && r@[i].error is None && r@[i].fnm_version == infos@[i].fnm_version)
            &&& (!infos@[i].available ==> !r@[i].loading && r@[i].error is Some && r@[i].error->0@ == reason_text(infos@[i]))
        },
{
    let mut out: Vec<EnvironmentState> = Vec::new();
    let mut i: usize = 0;
    while i < infos.len()
        invariant
            i <= infos@.len(),
            out@.len() == i,
            forall|k: int| 0 <= k < i ==> {
                &&& (#[trigger] out@[k]).id == infos@[k].id
                &&& out@[k].available == infos@[k].available
                &&& out@[k].installed_versions@.len() == 0
                &&& (infos@[k].available ==> out@[k].loading && out@[k].error is None && out@[k].fnm_version == infos@[k].fnm_version)
                &&& (!infos@[k].available ==> !out@[k].loading && out@[k].error is Some && out@[k].error->0@ == reason_text(infos@[k]))
            },
        decreases infos@.len() - i,
    {
        let info = &infos[i];
        let id = info.id.duplicate();
        let env = if info.available {
            let fv = match &info.fnm_version {
                Some(v) => Some(v.clone()),
                None => None,
            };
            EnvironmentState::new(id, host, fv)
        } else {
            match &info.unavailable_reason {
                Some(r) => EnvironmentState::unavailable(id, host, r.as_str()),
                None => EnvironmentState::unavailable(id, host, "Unavailable"),
            }
        };
        let ghost before = out@;
        out.push(env);
        assert forall|k: int| 0 <= k < i + 1 implies (#[trigger] out@[k]).id == infos@[k].id by {
            if k < i {
                assert(out@[k] == before[k]);
            }
        }
        i = i + 1;
    }
    out
}


/// Number of leading `c` characters of `s`.
pub open spec fn lead_run(s: Seq<char>, c: char) -> nat
    decreases s.len(),
{
    if s.len() > 0 && s[0] == c {
        1 + lead_run(s.drop_first(), c)
    } else {
        0
    }
}

/// Holds of every character but NUL.
pub open spec fn not_nul() -> spec_fn(char) -> bool {
    |c: char| c != '\0'
}

/// Name, default mark, WSL version and running state that one line of
/// `wsl --list --verbose` gives.
pub open spec fn wsl_line(line: Seq<char>, running: Seq<Seq<char>>) -> Option<(Seq<char>, bool, u8, bool)> {
    let t = trim(line).filter(not_nul());
    let u = trim(t.skip(lead_run(t, '*') as int));
    let ws = words(u);
    if t.len() == 0 || ws.len() == 0 {
        None
    } else {
        let version: u8 = if ws.len() >= 3 && u32_of(ws[2]) is Some && u32_of(ws[2])->0 <= 255 {
            u32_of(ws[2])->0 as u8
        } else {
            2
        };
        Some((ws[0], t[0] == '*', version, running.contains(ws[0])))
    }
}

pub open spec fn wsl_entries(lines: Seq<Seq<char>>, running: Seq<Seq<char>>) -> Seq<(Seq<char>, bool, u8, bool)>
    decreases lines.len(),
{
    if lines.len() == 0 {
        Seq::empty()
    } else {
        let p = wsl_entries(lines.drop_last(), running);
        match wsl_line(lines.last(), running) {
            Some(e) => p.push(e),
            None => p,
        }
    }
}

pub open spec fn distro_view(d: WslDistro) -> (Seq<char>, bool, u8, bool) {
    (d.name@, d.is_default, d.version, d.is_running)
}

pub open spec fn string_texts(v: Seq<String>) -> Seq<Seq<char>> {
    v.map_values(|s: String| s@)
}

/// Counting a leading run of `c` that ends at `i`.
pub proof fn lemma_lead_run(s: Seq<char>, c: char, i: int)
    requires
        0 <= i <= s.len(),
        forall|j: int| 0 <= j < i ==> #[trigger] s[j] == c,
        i == s.len() || s[i] != c,
    ensures
        lead_run(s, c) == i,
    decreases i,
{
    if i > 0 {
        lemma_lead_run(s.drop_first(), c, i - 1);
    }
}

fn contains_name(names: &Vec<String>, name: &Vec<char>, a: usize, b: usize) -> (r: bool)
    requires
        a <= b <= name@.len(),
    ensures
        r == string_texts(names@).contains(name@.subrange(a as int, b as int)),
{
    let mut w: Vec<char> = Vec::new();
    push_range(&mut w, name, a, b);
    let ws = string_of(&w);
    let mut i: usize = 0;
    while i < names.len()
        invariant
            i <= names@.len(),
            ws@ == name@.subrange(a as int, b as int),
            forall|k: int| 0 <= k < i ==> (#[trigger] string_texts(names@)[k]) != ws@,
        decreases names@.len() - i,
    {
        if same_text(names[i].as_str(), ws.as_str()) {
            assert(string_texts(names@)[i as int] == ws@);
            return true;
        }
        i = i + 1;
    }
    false
}

fn wsl_distro_line(cs: &Vec<char>, lo: usize, hi: usize, running: &Vec<String>) -> (r: Option<WslDistro>)
    requires
        lo <= hi <= cs@.len(),
    ensures
        match r {
            Some(d) => wsl_line(cs@.subrange(lo as int, hi as int), string_texts(running@)) == Some(distro_view(d)) && d.fnm_path is None,
            None => wsl_line(cs@.subrange(lo as int, hi as int), string_texts(running@)) is None,
        },
{
    let ghost line = cs@.subrange(lo as int, hi as int);
    let (a, b) = trim_range(cs, lo, hi);
    let mut t: Vec<char> = Vec::new();
    let mut i = a;
    let ghost tr = cs@.subrange(a as int, b as int);
    assert(tr.take(0).filter(not_nul()) =~= Seq::<char>::empty());
    while i < b
        invariant
            a <= i <= b <= cs@.len(),
            tr == cs@.subrange(a as int, b as int),
            t@ == tr.take(i - a).filter(not_nul()),
        decreases b - i,
    {
        assert(tr.take(i + 1 - a) =~= tr.take(i - a).push(cs@[i as int]));
        proof {
            tr.take(i - a).lemma_filter_push(cs@[i as int], not_nul());
        }
        if cs[i] != '\0' {
            t.push(cs[i]);
        }
        i = i + 1;
    }
    assert(tr.take(b - a) =~= tr);
    if t.len() == 0 {
        return None;
    }
    let is_default = t[0] == '*';
    let mut s: usize = 0;
    while s < t.len() && t[s] == '*'
        invariant
            s <= t@.len(),
            forall|j: int| 0 <= j < s ==> #[trigger] t@[j] == '*',
        decreases t@.len() - s,
    {
        s = s + 1;
    }
    proof {
        lemma_lead_run(t@, '*', s as int);
    }
    assert(t@.skip(s as int) =~= t@.subrange(s as int, t@.len() as int));
    let (ua, ub) = trim_range(&t, s, t.len());
    let ws = word_ranges(&t, ua, ub);
    let ghost u = trim(t@.skip(s as int));
    assert(pieces(t@, ws@) == words(u));
    if ws.len() == 0 {
        return None;
    }
    let (n0, n1) = ws[0];
    assert(words(u)[0] == t@.subrange(n0 as int, n1 as int));
    let mut version: u8 = 2;
    if ws.len() >= 3 {
        let (v0, v1) = ws[2];
        assert(words(u)[2] == t@.subrange(v0 as int, v1 as int));
        match parse_u32(&t, v0, v1) {
            Some(n) => {
                if n <= 255 {
                    version = n as u8;
                }
            },
            None => {},
        }
    }
    let is_running = contains_name(running, &t, n0, n1);
    let mut name: Vec<char> = Vec::new();
    push_range(&mut name, &t, n0, n1);
    Some(WslDistro { name: string_of(&name), is_default, version, fnm_path: None, is_running })
}

/// Reads `wsl --list --verbose`: the header line is skipped, then one
/// distribution per line that names one, in order.
pub fn parse_wsl_list(output: &str, running_distros: &Vec<String>) -> (r: Vec<WslDistro>)
    ensures
        r@.map_values(|d: WslDistro| distro_view(d)) == wsl_entries(split(output@, '\n').drop_first(), string_texts(running_distros@)),
        forall|k: int| 0 <= k < r@.len() ==> (#[trigger] r@[k]).fnm_path is None,
{
    let cs = chars_of(output);
    assert(cs@.subrange(0, cs@.len() as int) =~= output@);
    let lines = split_ranges(&cs, 0, cs.len(), '\n');
    let ghost all = split(output@, '\n');
    let ghost lv = all.drop_first();
    proof {
        crate::text::lemma_split_nonempty(output@, '\n');
    }
    let ghost rv = string_texts(running_distros@);
    let mut out: Vec<WslDistro> = Vec::new();
    let mut k: usize = 1;
    assert(lv.take(0) =~= Seq::<Seq<char>>::empty());
    while k < lines.len()
        invariant
            1 <= k <= lines@.len(),
            pieces(cs@, lines@) == all,
            lv == all.drop_first(),
            rv == string_texts(running_distros@),
            forall|i: int| 0 <= i < lines@.len() ==> (#[trigger] lines@[i]).0 <= lines@[i].1 <= cs@.len(),
            out@.map_values(|d: WslDistro| distro_view(d)) == wsl_entries(lv.take(k - 1), rv),
            forall|i: int| 0 <= i < out@.len() ==> (#[trigger] out@[i]).fnm_path is None,
        decreases lines@.len() - k,
    {
        let (lo, hi) = lines[k];
        assert(lv[k - 1] == cs@.subrange(lo as int, hi as int));
        assert(lv.take(k as int).drop_last() =~= lv.take(k - 1));
        let ghost before = out@;
        match wsl_distro_line(&cs, lo, hi, running_distros) {
            Some(d) => {
                out.push(d);
                assert(out@.map_values(|d: WslDistro| distro_view(d)) =~= before.map_values(|d: WslDistro| distro_view(d)).push(distro_view(d)));
            },
            None => {},
        }
        k = k + 1;
    }
    assert(lv.take(lines@.len() - 1) =~= lv);
    out
}


/// The reason a WSL distribution cannot be used, or `None` when it can:
/// it must be running and have fnm.
pub open spec fn distro_unavailable_reason(d: WslDistro) -> Option<Seq<char>> {
    if !d.is_running {
        Some("Not running"@)
    } else if d.fnm_path is None {
        Some("fnm not installed"@)
    } else {
        None
    }
}

/// The environments that startup detection reports: the host first, then
/// each WSL distribution in the order listed; `fnm_versions[i]` is what fnm
/// reported inside distribution `i`.
pub fn detected_environments(
    native_fnm_version: Option<String>,
    distros: &Vec<WslDistro>,
    fnm_versions: &Vec<Option<String>>,
) -> (r: Vec<EnvironmentInfo>)
    requires
        fnm_versions@.len() == distros@.len(),
    ensures
        r@.len() == distros@.len() + 1,
        r@[0].id is Native && r@[0].available && r@[0].fnm_version == native_fnm_version && r@[0].unavailable_reason is None,
        forall|i: int| 0 <= i < distros@.len() ==> {
            let e = #[trigger] r@[i + 1];
            let d = distros@[i];
            &&& id_view(e.id) == Some(d.name@)
            &&& match distro_unavailable_reason(d) {
                Some(reason) => !e.available && e.fnm_version is None && e.unavailable_reason is Some
                    && e.unavailable_reason->0@ == reason,
                None => e.available && e.fnm_version == fnm_versions@[i] && e.unavailable_reason is None,
            }
        },
{
    let mut out: Vec<EnvironmentInfo> = Vec::new();
    out.push(EnvironmentInfo {
        id: EnvironmentId::Native,
        fnm_version: native_fnm_version,
        available: true,
        unavailable_reason: None,
    });
    let mut i: usize = 0;
    while i < distros.len()
        invariant
            i <= distros@.len(),
            fnm_versions@.len() == distros@.len(),
            out@.len() == i + 1,
            out@[0].id is Native && out@[0].available && out@[0].fnm_version == native_fnm_version && out@[0].unavailable_reason is None,
            forall|k: int| 0 <= k < i ==> {
                let e = #[trigger] out@[k + 1];
                let d = distros@[k];
                &&& id_view(e.id) == Some(d.name@)
                &&& match distro_unavailable_reason(d) {
                    Some(reason) => !e.available && e.fnm_version is None && e.unavailable_reason is Some
                        && e.unavailable_reason->0@ == reason,
                    None => e.available && e.fnm_version == fnm_versions@[k] && e.unavailable_reason is None,
                }
            },
        decreases distros@.len() - i,
    {
        let d = &distros[i];
        let id = EnvironmentId::Wsl { distro: d.name.clone() };
        let info = if !d.is_running {
            EnvironmentInfo { id, fnm_version: None, available: false, unavailable_reason: Some("Not running".to_string()) }
        } else if d.fnm_path.is_none() {
            EnvironmentInfo { id, fnm_version: None, available: false, unavailable_reason: Some("fnm not installed".to_string()) }
        } else {
            let v = match &fnm_versions[i] {
                Some(v) => Some(v.clone()),
                None => None,
            };
            EnvironmentInfo { id, fnm_version: v, available: true, unavailable_reason: None }
        };
        let ghost before = out@;
        out.push(info);
        assert forall|k: int| 0 <= k < i + 1 implies {
            let e = #[trigger] out@[k + 1];
            let d = distros@[k];
            &&& id_view(e.id) == Some(d.name@)
            &&& match distro_unavailable_reason(d) {
                Some(reason) => !e.available && e.fnm_version is None && e.unavailable_reason is Some
                    && e.unavailable_reason->0@ == reason,
                None => e.available && e.fnm_version == fnm_versions@[k] && e.unavailable_reason is None,
            }
        } by {
            if k < i {
                assert(out@[k + 1] == before[k + 1]);
            }
        }
        i = i + 1;
    }
    out
}

} // verus!
