//! Application state around the core: the environment registry with its
//! active selection, notifications, the remote version cache, and the
//! plain records the front end shows.

use vstd::prelude::*;
use crate::environment::{groups_rebuilt, id_view, needs_load_spec, EnvironmentId, EnvironmentState};
use crate::queue::OperationQueue;
use crate::schedule::ReleaseSchedule;
use crate::shell::ShellType;
use crate::version::{InstalledVersion, RemoteVersion};
use crate::text::{all_digits, chars_of, dec_value, equals_range, find_char, first_of, parse_digits, push_range, string_of};

verus! {

/// Which page the main window shows.
#[derive(Debug, Clone, Copy, PartialEq, Eq, Structural)]
pub enum MainViewKind {
    Versions,
    Settings,
    About,
}

/// Steps of first-run setup.
#[derive(Debug, Clone, Copy, PartialEq, Eq, Structural)]
pub enum OnboardingStep {
    Welcome,
    InstallFnm,
    ConfigureShell,
    InstallNode,
    Complete,
}

/// The setup state of one shell during first-run setup.
#[derive(Debug, Clone)]
pub struct ShellConfigStatus {
    pub shell_type: ShellType,
    pub shell_name: String,
    pub configured: bool,
    pub config_path: Option<String>,
    pub configuring: bool,
    pub error: Option<String>,
}

/// First-run setup.
#[derive(Debug)]
pub struct OnboardingState {
    pub step: OnboardingStep,
    pub fnm_installing: bool,
    pub install_error: Option<String>,
    pub detected_shells: Vec<ShellConfigStatus>,
}

impl OnboardingState {
    pub fn new() -> (r: OnboardingState)
        ensures
            r.step == OnboardingStep::Welcome,
            !r.fnm_installing,
            r.install_error is None,
            r.detected_shells@.len() == 0,
    {
        OnboardingState {
            step: OnboardingStep::Welcome,
            fnm_installing: false,
            install_error: None,
            detected_shells: Vec::new(),
        }
    }
}

/// How a notification reads.
#[derive(Debug, Clone, Copy, PartialEq, Eq, Structural)]
pub enum ToastStatus {
    Info,
    Success,
    Warning,
    Error,
}

/// What undoing a finished operation re-issues.
#[derive(Debug, Clone)]
pub enum UndoAction {
    Reinstall { version: String },
    ResetDefault { version: String },
}

/// A notification shown for a while.
#[derive(Debug, Clone)]
pub struct Toast {
    pub id: usize,
    pub message: String,
    pub status: ToastStatus,
    pub undo_action: Option<UndoAction>,
    /// Creation time, in milliseconds of the caller's clock.
    pub created_at: u64,
}

/// A notification expires once more than this many whole seconds have passed.
pub const TOAST_LIFETIME_SECS: u64 = 5;

impl Toast {
    pub fn success(id: usize, message: String, now: u64) -> (r: Toast)
        ensures
            r.id == id,
            r.message == message,
            r.status == ToastStatus::Success,
            r.undo_action is None,
            r.created_at == now,
    {
        Toast { id, message, status: ToastStatus::Success, undo_action: None, created_at: now }
    }

    pub fn error(id: usize, message: String, now: u64) -> (r: Toast)
        ensures
            r.id == id,
            r.message == message,
            r.status == ToastStatus::Error,
            r.undo_action is None,
            r.created_at == now,
    {
        Toast { id, message, status: ToastStatus::Error, undo_action: None, created_at: now }
    }

    /// The same notification, offering `action` as undo.
    pub fn with_undo(self, action: UndoAction) -> (r: Toast)
        ensures
            r.id == self.id,
            r.message == self.message,
            r.status == self.status,
            r.undo_action == Some(action),
            r.created_at == self.created_at,
    {
        let mut t = self;
        t.undo_action = Some(action);
        t
    }

    /// Whether more than the lifetime, counted in whole seconds, has passed
    /// at `now`.
    pub fn is_expired(&self, now: u64) -> (r: bool)
        ensures
            r == (now >= self.created_at && (now - self.created_at) / 1000 > TOAST_LIFETIME_SECS),
    {
        now >= self.created_at && (now - self.created_at) / 1000 > TOAST_LIFETIME_SECS
    }
}

/// How fresh the remote version list is.
#[derive(Debug, Clone)]
pub enum NetworkStatus {
    Online,
    Fetching,
    Offline(String),
    Stale(String),
}

/// The remote versions last fetched, with the release schedule.
#[derive(Debug)]
pub struct VersionCache {
    pub versions: Vec<RemoteVersion>,
    /// When they were fetched, in milliseconds of the caller's clock.
    pub fetched_at: Option<u64>,
    pub loading: bool,
    pub error: Option<String>,
    pub schedule: Option<ReleaseSchedule>,
    pub schedule_error: Option<String>,
    pub loaded_from_disk: bool,
}

impl VersionCache {
    pub fn new() -> (r: VersionCache)
        ensures
            r.versions@.len() == 0,
            r.fetched_at is None,
            !r.loading,
            r.error is None,
            r.schedule is None,
            r.schedule_error is None,
            !r.loaded_from_disk,
    {
        VersionCache {
            versions: Vec::new(),
            fetched_at: None,
            loading: false,
            error: None,
            schedule: None,
            schedule_error: None,
            loaded_from_disk: false,
        }
    }

    /// Fetching while a fetch runs; after a failure, offline with nothing
    /// cached or stale with the old list; online otherwise.
    pub fn network_status(&self) -> (r: NetworkStatus)
        ensures
            self.loading ==> r is Fetching,
            !self.loading && self.error is None ==> r is Online,
            !self.loading && self.error is Some && self.versions@.len() == 0 ==> (r matches NetworkStatus::Offline(e) && e == self.error->0),
            !self.loading && self.error is Some && self.versions@.len() > 0 ==> (r matches NetworkStatus::Stale(e) && e == self.error->0),
    {
        if self.loading {
            return NetworkStatus::Fetching;
        }
        match &self.error {
            Some(err) => {
                if self.versions.len() == 0 {
                    NetworkStatus::Offline(err.clone())
                } else {
                    NetworkStatus::Stale(err.clone())
                }
            },
            None => NetworkStatus::Online,
        }
    }
}

/// The verification state of one shell in the settings page.
#[derive(Debug, Clone)]
pub enum ShellVerificationStatus {
    Unknown,
    Configured,
    NotConfigured,
    NoConfigFile,
    FunctionalButNotInConfig,
    Error(String),
}

#[derive(Debug, Clone)]
pub struct ShellSetupStatus {
    pub shell_type: ShellType,
    pub shell_name: String,
    pub status: ShellVerificationStatus,
    pub configuring: bool,
}

#[derive(Debug, Clone)]
pub struct SettingsModalState {
    pub shell_statuses: Vec<ShellSetupStatus>,
    pub checking_shells: bool,
    pub log_file_size: Option<u64>,
}

impl SettingsModalState {
    pub fn new() -> (r: SettingsModalState)
        ensures
            r.shell_statuses@.len() == 0,
            !r.checking_shells,
            r.log_file_size is None,
    {
        SettingsModalState { shell_statuses: Vec::new(), checking_shells: false, log_file_size: None }
    }
}

/// A confirmation the user is asked for.
#[derive(Debug, Clone)]
pub enum Modal {
    ConfirmUninstall { version: String, is_default: bool },
    ConfirmBulkUpdateMajors { versions: Vec<(String, String)> },
    ConfirmBulkUninstallEOL { versions: Vec<String> },
    ConfirmBulkUninstallMajor { major: u32, versions: Vec<String> },
    ConfirmBulkUninstallMajorExceptLatest { major: u32, versions: Vec<String>, keeping: String },
}

/// The ordered environments, exactly one of them active, and the queue of
/// operations on the active one.
#[derive(Debug)]
pub struct MainState {
    pub environments: Vec<EnvironmentState>,
    pub active_environment_idx: usize,
    pub operation_queue: OperationQueue,
    pub toasts: Vec<Toast>,
}

impl MainState {
    /// The registry is well formed when the active index points at one of
    /// its environments and the queue is consistent.
    pub open spec fn wf(&self) -> bool {
        &&& self.active_environment_idx < self.environments@.len()
        &&& self.operation_queue.wf()
    }

    /// The registry over `environments`, the first one active.
    pub fn new_with_environments(environments: Vec<EnvironmentState>) -> (r: MainState)
        requires
            environments@.len() > 0,
        ensures
            r.wf(),
            r.environments@ == environments@,
            r.active_environment_idx == 0,
            r.operation_queue@.installs.len() == 0,
            r.operation_queue@.exclusive is None,
            r.operation_queue@.pending.len() == 0,
            r.toasts@.len() == 0,
    {
        MainState {
            environments,
            active_environment_idx: 0,
            operation_queue: OperationQueue::new(),
            toasts: Vec::new(),
        }
    }

    pub fn active_environment(&self) -> (r: &EnvironmentState)
        requires
            self.wf(),
        ensures
            *r == self.environments@[self.active_environment_idx as int],
    {
        &self.environments[self.active_environment_idx]
    }

    /// Makes environment `idx` active. Returns `None` when `idx` is out of
    /// range or already active (nothing changes); otherwise whether the
    /// environment must now be loaded, in which case it is marked loading.
    pub fn select_environment(&mut self, idx: usize) -> (r: Option<bool>)
        requires
            old(self).wf(),
        ensures
            final(self).wf(),
            final(self).operation_queue == old(self).operation_queue,
            final(self).toasts == old(self).toasts,
            final(self).environments@.len() == old(self).environments@.len(),
            (idx >= old(self).environments@.len() || idx == old(self).active_environment_idx) ==> r is None && *final(self) == *old(self),
            (idx < old(self).environments@.len() && idx != old(self).active_environment_idx) ==> {
                &&& final(self).active_environment_idx == idx
                &&& r == Some(needs_load_spec(old(self).environments@[idx as int]))
                &&& forall|j: int| 0 <= j < old(self).environments@.len() && j != idx ==> final(self).environments@[j] == old(self).environments@[j]
                &&& needs_load_spec(old(self).environments@[idx as int]) ==> final(self).environments@[idx as int]
                    == (EnvironmentState { loading: true, ..old(self).environments@[idx as int] })
                &&& !needs_load_spec(old(self).environments@[idx as int]) ==> final(self).environments@[idx as int] == old(self).environments@[idx as int]
            },
    {
        if idx >= self.environments.len() || idx == self.active_environment_idx {
            return None;
        }
        self.active_environment_idx = idx;
        let needs = self.environments[idx].needs_load();
        if needs {
            let mut env = self.environments.remove(idx);
            env.loading = true;
            self.environments.insert(idx, env);
        }
        Some(needs)
    }

    /// Index of the environment with identity `id`.
    pub fn find_environment(&self, id: &EnvironmentId) -> (r: Option<usize>)
        ensures
            match r {
                Some(i) => i < self.environments@.len() && id_view(self.environments@[i as int].id) == id_view(*id)
                    && forall|j: int| 0 <= j < i ==> id_view(#[trigger] self.environments@[j].id) != id_view(*id),
                None => forall|j: int| 0 <= j < self.environments@.len() ==> id_view(#[trigger] self.environments@[j].id) != id_view(*id),
            },
    {
        let mut i: usize = 0;
        while i < self.environments.len()
            invariant
                i <= self.environments@.len(),
                forall|j: int| 0 <= j < i ==> id_view(#[trigger] self.environments@[j].id) != id_view(*id),
            decreases self.environments@.len() - i,
        {
            if self.environments[i].id == *id {
                return Some(i);
            }
            i = i + 1;
        }
        None
    }

    /// Stores a successful listing for environment `id` (the first with
    /// that identity); unknown ids are ignored.
    pub fn environment_loaded(&mut self, id: &EnvironmentId, versions: Vec<InstalledVersion>)
        requires
            old(self).wf(),
        ensures
            final(self).wf(),
            final(self).environments@.len() == old(self).environments@.len(),
            final(self).active_environment_idx == old(self).active_environment_idx,
            final(self).operation_queue == old(self).operation_queue,
            final(self).toasts == old(self).toasts,
            forall|j: int| 0 <= j < old(self).environments@.len() ==> {
                if id_view(old(self).environments@[j].id) == id_view(*id)
                    && forall|k: int| 0 <= k < j ==> id_view(#[trigger] old(self).environments@[k].id) != id_view(*id) {
                    &&& (#[trigger] final(self).environments@[j]).installed_versions@ == versions@
                    &&& final(self).environments@[j].default_version == crate::backend::default_in(versions@)
                    &&& !final(self).environments@[j].loading
                    &&& final(self).environments@[j].error is None
                    &&& final(self).environments@[j].id == old(self).environments@[j].id
                    &&& final(self).environments@[j].name == old(self).environments@[j].name
                    &&& final(self).environments@[j].available == old(self).environments@[j].available
                    &&& groups_rebuilt(old(self).environments@[j].version_groups@, final(self).environments@[j].version_groups@, versions@)
                } else {
                    final(self).environments@[j] == old(self).environments@[j]
                }
            },
    {
        match self.find_environment(id) {
            Some(i) => {
                let mut env = self.environments.remove(i);
                env.update_versions(versions);
                self.environments.insert(i, env);
            },
            None => {},
        }
    }

    /// Records a failed load for environment `id` (the first with that
    /// identity), keeping its old data; unknown ids are ignored.
    pub fn environment_error(&mut self, id: &EnvironmentId, message: String)
        requires
            old(self).wf(),
        ensures
            final(self).wf(),
            final(self).environments@.len() == old(self).environments@.len(),
            final(self).active_environment_idx == old(self).active_environment_idx,
            final(self).operation_queue == old(self).operation_queue,
            final(self).toasts == old(self).toasts,
            forall|j: int| 0 <= j < old(self).environments@.len() ==> {
                if id_view(old(self).environments@[j].id) == id_view(*id)
                    && forall|k: int| 0 <= k < j ==> id_view(#[trigger] old(self).environments@[k].id) != id_view(*id) {
                    &&& (#[trigger] final(self).environments@[j]).installed_versions == old(self).environments@[j].installed_versions
                    &&& final(self).environments@[j].version_groups == old(self).environments@[j].version_groups
                    &&& final(self).environments@[j].default_version == old(self).environments@[j].default_version
                    &&& final(self).environments@[j].name == old(self).environments@[j].name
                    &&& final(self).environments@[j].available == old(self).environments@[j].available
                    &&& final(self).environments@[j].error is Some
                    &&& final(self).environments@[j].error->0@ == message@
                    &&& !final(self).environments@[j].loading
                    &&& final(self).environments@[j].id == old(self).environments@[j].id
                } else {
                    final(self).environments@[j] == old(self).environments@[j]
                }
            },
    {
        match self.find_environment(id) {
            Some(i) => {
                let mut env = self.environments.remove(i);
                env.set_error(message);
                self.environments.insert(i, env);
            },
            None => {},
        }
    }

    pub fn add_toast(&mut self, toast: Toast)
        ensures
            final(self).toasts@ == old(self).toasts@.push(toast),
            final(self).environments == old(self).environments,
            final(self).active_environment_idx == old(self).active_environment_idx,
            final(self).operation_queue == old(self).operation_queue,
    {
        self.toasts.push(toast);
    }

    /// One more than the largest toast id, or 1 when there is none.
    pub fn next_toast_id(&self) -> (r: usize)
        requires
            forall|i: int| 0 <= i < self.toasts@.len() ==> (#[trigger] self.toasts@[i]).id < usize::MAX,
        ensures
            forall|i: int| 0 <= i < self.toasts@.len() ==> (#[trigger] self.toasts@[i]).id < r,
            r == 1 || exists|i: int| 0 <= i < self.toasts@.len() && r == (#[trigger] self.toasts@[i]).id + 1,
    {
        let mut m: usize = 0;
        let mut i: usize = 0;
        while i < self.toasts.len()
            invariant
                i <= self.toasts@.len(),
                forall|k: int| 0 <= k < self.toasts@.len() ==> (#[trigger] self.toasts@[k]).id < usize::MAX,
                forall|k: int| 0 <= k < i ==> (#[trigger] self.toasts@[k]).id <= m,
                m == 0 || exists|k: int| 0 <= k < i && m == (#[trigger] self.toasts@[k]).id,
            decreases self.toasts@.len() - i,
        {
            if self.toasts[i].id > m {
                m = self.toasts[i].id;
            }
            i = i + 1;
        }
        m + 1
    }

    /// Removes the toasts with id `id`.
    pub fn remove_toast(&mut self, id: usize)
        ensures
            final(self).toasts@ == old(self).toasts@.filter(|t: Toast| t.id != id),
            final(self).environments == old(self).environments,
            final(self).active_environment_idx == old(self).active_environment_idx,
            final(self).operation_queue == old(self).operation_queue,
    {
        let ghost orig = self.toasts@;
        let mut rest: Vec<Toast> = Vec::new();
        std::mem::swap(&mut rest, &mut self.toasts);
        let ghost mut k: int = 0;
        assert(orig.take(0).filter(|t: Toast| t.id != id) =~= Seq::<Toast>::empty());
        assert(orig.skip(0) =~= orig);
        while rest.len() > 0
            invariant
                0 <= k,
                rest@.len() + k == orig.len(),
                rest@ == orig.skip(k),
                self.toasts@ == orig.take(k).filter(|t: Toast| t.id != id),
                self.environments == old(self).environments,
                self.active_environment_idx == old(self).active_environment_idx,
                self.operation_queue == old(self).operation_queue,
            decreases rest@.len(),
        {
            let t = rest.remove(0);
            assert(t == orig[k]);
            assert(rest@ =~= orig.skip(k + 1));
            assert(orig.take(k + 1) =~= orig.take(k).push(t));
            proof {
                orig.take(k).lemma_filter_push(t, |t: Toast| t.id != id);
            }
            if t.id != id {
                self.toasts.push(t);
            }
            proof {
                k = k + 1;
            }
        }
        assert(orig.take(orig.len() as int) =~= orig);
    }
}


/// The position of a setup step, from zero.
pub fn step_index(step: &OnboardingStep) -> (r: usize)
    ensures
        r == match *step {
            OnboardingStep::Welcome => 0usize,
            OnboardingStep::InstallFnm => 1,
            OnboardingStep::ConfigureShell => 2,
            OnboardingStep::InstallNode => 3,
            OnboardingStep::Complete => 4,
        },
{
    match step {
        OnboardingStep::Welcome => 0,
        OnboardingStep::InstallFnm => 1,
        OnboardingStep::ConfigureShell => 2,
        OnboardingStep::InstallNode => 3,
        OnboardingStep::Complete => 4,
    }
}

/// A choice made in the tray menu.
#[derive(Debug, Clone)]
pub enum TrayMessage {
    ShowWindow,
    Quit,
    SetDefault { env_index: usize, version: String },
}

/// What `usize::from_str` accepts: an optional `+`, then digits whose value
/// fits.
pub open spec fn usize_of(s: Seq<char>) -> Option<usize> {
    let d = if s.len() > 0 && s[0] == '+' { s.drop_first() } else { s };
    if d.len() > 0 && all_digits(d) && dec_value(d) <= usize::MAX {
        Some(dec_value(d) as usize)
    } else {
        None
    }
}

/// What a tray menu item id asks for: `show_window`, `quit`, or
/// `set:<environment index>:<version>`.
pub open spec fn menu_choice(id: Seq<char>) -> Option<(u8, usize, Seq<char>)> {
    if id == "show_window"@ {
        Some((0u8, 0usize, Seq::empty()))
    } else if id == "quit"@ {
        Some((1u8, 0usize, Seq::empty()))
    } else if id.len() >= 4 && id.take(4) == "set:"@ {
        let rest = id.skip(4);
        let f = first_of(rest, ':');
        if f < rest.len() && usize_of(rest.take(f as int)) is Some {
            Some((2u8, usize_of(rest.take(f as int))->0, rest.skip(f + 1int)))
        } else {
            None
        }
    } else {
        None
    }
}

pub open spec fn tray_view(m: TrayMessage) -> (u8, usize, Seq<char>) {
    match m {
        TrayMessage::ShowWindow => (0u8, 0usize, Seq::empty()),
        TrayMessage::Quit => (1u8, 0usize, Seq::empty()),
        TrayMessage::SetDefault { env_index, version } => (2u8, env_index, version@),
    }
}

/// Reads the id of a chosen tray menu item.
pub fn parse_menu_event(id: &str) -> (r: Option<TrayMessage>)
    ensures
        match r {
            Some(m) => menu_choice(id@) == Some(tray_view(m)),
            None => menu_choice(id@) is None,
        },
{
    let cs = chars_of(id);
    assert(cs@.subrange(0, cs@.len() as int) =~= id@);
    if equals_range(&cs, 0, cs.len(), &chars_of("show_window")) {
        return Some(TrayMessage::ShowWindow);
    }
    if equals_range(&cs, 0, cs.len(), &chars_of("quit")) {
        return Some(TrayMessage::Quit);
    }
    if cs.len() < 4 || !equals_range(&cs, 0, 4, &chars_of("set:")) {
        assert(cs.len() >= 4 ==> id@.take(4) =~= cs@.subrange(0, 4));
        return None;
    }
    assert(id@.take(4) =~= cs@.subrange(0, 4));
    let ghost rest = id@.skip(4);
    assert(rest =~= cs@.subrange(4, cs@.len() as int));
    let f = find_char(&cs, 4, cs.len(), ':');
    if f == cs.len() {
        return None;
    }
    assert(rest.take(f - 4) =~= cs@.subrange(4, f as int));
    let mut a: usize = 4;
    if a < f && cs[a] == '+' {
        a = a + 1;
    }
    let ghost t = rest.take(f - 4);
    assert(cs@.subrange(a as int, f as int) =~= (if t.len() > 0 && t[0] == '+' { t.drop_first() } else { t }));
    if a == f {
        return None;
    }
    let env_index = match parse_digits(&cs, a, f) {
        Some(n) => {
            if n > usize::MAX as u64 {
                return None;
            }
            n as usize
        },
        None => {
            return None;
        },
    };
    let mut v: Vec<char> = Vec::new();
    push_range(&mut v, &cs, f + 1, cs.len());
    assert(v@ =~= rest.skip(f - 4 + 1));
    Some(TrayMessage::SetDefault { env_index, version: string_of(&v) })
}


/// A version entry of the tray menu.
#[derive(Debug, Clone)]
pub struct VersionData {
    pub version: String,
    pub is_default: bool,
}

/// An environment of the tray menu with its installed versions.
#[derive(Debug, Clone)]
pub struct EnvironmentData {
    pub name: String,
    pub versions: Vec<VersionData>,
}

/// What the tray menu lists.
#[derive(Debug, Clone)]
pub struct TrayMenuData {
    pub environments: Vec<EnvironmentData>,
}

fn tray_versions(vs: &Vec<InstalledVersion>) -> (r: Vec<VersionData>)
    ensures
        r@.len() == vs@.len(),
        forall|i: int| 0 <= i < r@.len() ==> (#[trigger] r@[i]).version@ == crate::version::version_string(vs@[i].version)
            && r@[i].is_default == vs@[i].is_default,
{
    let mut out: Vec<VersionData> = Vec::new();
    let mut i: usize = 0;
    while i < vs.len()
        invariant
            i <= vs@.len(),
            out@.len() == i,
            forall|k: int| 0 <= k < i ==> (#[trigger] out@[k]).version@ == crate::version::version_string(vs@[k].version)
                && out@[k].is_default == vs@[k].is_default,
        decreases vs@.len() - i,
    {
        let ghost before = out@;
        out.push(VersionData { version: vs[i].version.to_string(), is_default: vs[i].is_default });
        assert forall|k: int| 0 <= k < i + 1 implies (#[trigger] out@[k]).version@ == crate::version::version_string(vs@[k].version)
            && out@[k].is_default == vs@[k].is_default by {
            if k < i {
                assert(out@[k] == before[k]);
            }
        }
        i = i + 1;
    }
    out
}

impl TrayMenuData {
    /// The menu for `environments`: each one's name and installed versions,
    /// in order.
    pub fn from_environments(environments: &Vec<EnvironmentState>) -> (r: TrayMenuData)
        ensures
            r.environments@.len() == environments@.len(),
            forall|i: int| 0 <= i < environments@.len() ==> {
                let e = #[trigger] r.environments@[i];
                &&& e.name == environments@[i].name
                &&& e.versions@.len() == environments@[i].installed_versions@.len()
                &&& forall|k: int| 0 <= k < e.versions@.len() ==> (#[trigger] e.versions@[k]).version@
                    == crate::version::version_string(environments@[i].installed_versions@[k].version)
                    && e.versions@[k].is_default == environments@[i].installed_versions@[k].is_default
            },
    {
        let mut out: Vec<EnvironmentData> = Vec::new();
        let mut i: usize = 0;
        while i < environments.len()
            invariant
                i <= environments@.len(),
                out@.len() == i,
                forall|j: int| 0 <= j < i ==> {
                    let e = #[trigger] out@[j];
                    &&& e.name == environments@[j].name
                    &&& e.versions@.len() == environments@[j].installed_versions@.len()
                    &&& forall|k: int| 0 <= k < e.versions@.len() ==> (#[trigger] e.versions@[k]).version@
                        == crate::version::version_string(environments@[j].installed_versions@[k].version)
                        && e.versions@[k].is_default == environments@[j].installed_versions@[k].is_default
                },
            decreases environments@.len() - i,
        {
            let env = &environments[i];
            let ghost before = out@;
            out.push(EnvironmentData { name: env.name.clone(), versions: tray_versions(&env.installed_versions) });
            assert forall|j: int| 0 <= j < i implies #[trigger] out@[j] == before[j] by {}
            i = i + 1;
        }
        TrayMenuData { environments: out }
    }
}

} // verus!
