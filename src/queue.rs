//! The operation queue: installs run in parallel, uninstall and set-default
//! run one at a time and never beside an install, and whatever cannot start
//! waits in a FIFO that drains as operations complete.

use std::collections::VecDeque;
use vstd::prelude::*;
use crate::progress::InstallProgress;
use crate::text::{chars_of, same_text, string_of};

verus! {

/// The concurrency class and identity of an operation.
#[derive(Debug, Clone, Copy, PartialEq, Eq, Structural)]
pub enum OpKind {
    Install,
    Uninstall,
    SetDefault,
}

/// A request from the user, before it runs.
#[derive(Debug, Clone)]
pub enum OperationRequest {
    Install { version: String },
    Uninstall { version: String },
    SetDefault { version: String },
}

/// Kind and version text of a request.
pub open spec fn request_view(r: OperationRequest) -> (OpKind, Seq<char>) {
    match r {
        OperationRequest::Install { version } => (OpKind::Install, version@),
        OperationRequest::Uninstall { version } => (OpKind::Uninstall, version@),
        OperationRequest::SetDefault { version } => (OpKind::SetDefault, version@),
    }
}

/// The line that describes a request to the user.
pub open spec fn description_text(k: OpKind, v: Seq<char>) -> Seq<char> {
    match k {
        OpKind::Install => "Install Node "@ + v,
        OpKind::Uninstall => "Uninstall Node "@ + v,
        OpKind::SetDefault => "Set Node "@ + v + " as default"@,
    }
}

impl OperationRequest {
    /// A request of the given kind.
    pub fn of_kind(kind: OpKind, version: String) -> (r: OperationRequest)
        ensures
            request_view(r) == (kind, version@),
    {
        match kind {
            OpKind::Install => OperationRequest::Install { version },
            OpKind::Uninstall => OperationRequest::Uninstall { version },
            OpKind::SetDefault => OperationRequest::SetDefault { version },
        }
    }

    pub fn version(&self) -> (r: &str)
        ensures
            r@ == request_view(*self).1,
    {
        match self {
            OperationRequest::Install { version } => version.as_str(),
            OperationRequest::Uninstall { version } => version.as_str(),
            OperationRequest::SetDefault { version } => version.as_str(),
        }
    }

    /// The version text, taken out of the request.
    pub fn into_version(self) -> (r: String)
        ensures
            r@ == request_view(self).1,
    {
        match self {
            OperationRequest::Install { version } => version,
            OperationRequest::Uninstall { version } => version,
            OperationRequest::SetDefault { version } => version,
        }
    }

    pub fn kind(&self) -> (r: OpKind)
        ensures
            r == request_view(*self).0,
    {
        match self {
            OperationRequest::Install { .. } => OpKind::Install,
            OperationRequest::Uninstall { .. } => OpKind::Uninstall,
            OperationRequest::SetDefault { .. } => OpKind::SetDefault,
        }
    }

    pub fn description(&self) -> (r: String)
        ensures
            r@ == description_text(request_view(*self).0, request_view(*self).1),
    {
        let v = chars_of(self.version());
        let mut out = match self {
            OperationRequest::Install { .. } => chars_of("Install Node "),
            OperationRequest::Uninstall { .. } => chars_of("Uninstall Node "),
            OperationRequest::SetDefault { .. } => chars_of("Set Node "),
        };
        let ghost head = out@;
        let mut i: usize = 0;
        while i < v.len()
            invariant
                i <= v@.len(),
                out@ == head + v@.take(i as int),
            decreases v@.len() - i,
        {
            out.push(v[i]);
            i = i + 1;
            assert(head + v@.take(i as int) =~= (head + v@.take(i - 1)).push(v@[i - 1]));
        }
        assert(v@.take(v@.len() as int) =~= v@);
        match self {
            OperationRequest::SetDefault { .. } => {
                let tail = chars_of(" as default");
                let ghost mid = out@;
                let mut j: usize = 0;
                while j < tail.len()
                    invariant
                        j <= tail@.len(),
                        out@ == mid + tail@.take(j as int),
                    decreases tail@.len() - j,
                {
                    out.push(tail[j]);
                    j = j + 1;
                    assert(mid + tail@.take(j as int) =~= (mid + tail@.take(j - 1)).push(tail@[j - 1]));
                }
                assert(tail@.take(tail@.len() as int) =~= tail@);
            },
            _ => {},
        }
        string_of(&out)
    }
}

/// An operation that is running.
#[derive(Debug, Clone)]
pub enum Operation {
    Install { version: String, progress: InstallProgress },
    Uninstall { version: String },
    SetDefault { version: String },
}

pub open spec fn operation_view(o: Operation) -> (OpKind, Seq<char>) {
    match o {
        Operation::Install { version, .. } => (OpKind::Install, version@),
        Operation::Uninstall { version } => (OpKind::Uninstall, version@),
        Operation::SetDefault { version } => (OpKind::SetDefault, version@),
    }
}

/// A request that waits for its turn.
#[derive(Debug, Clone)]
pub struct QueuedOperation {
    pub id: usize,
    pub request: OperationRequest,
    /// When it was queued, in milliseconds of the caller's clock.
    pub queued_at: u64,
}

/// Id, kind and version of a waiting request.
pub open spec fn queued_view(q: QueuedOperation) -> (usize, OpKind, Seq<char>) {
    (q.id, request_view(q.request).0, request_view(q.request).1)
}

/// What the queue holds, as values.
pub ghost struct QueueModel {
    /// Versions of the installs that run.
    pub installs: Seq<Seq<char>>,
    /// The exclusive operation that runs.
    pub exclusive: Option<(OpKind, Seq<char>)>,
    /// The waiting requests, oldest first.
    pub pending: Seq<(usize, OpKind, Seq<char>)>,
    /// The id that the next queued request gets.
    pub next_id: usize,
}

/// How a request was taken.
#[derive(Debug, Clone, Copy, PartialEq, Eq, Structural)]
pub enum Admission {
    /// It runs now.
    Started,
    /// It waits under this id.
    Queued(usize),
    /// The same request is already running or waiting.
    Ignored,
}

/// Some waiting request concerns version `v`.
pub open spec fn pending_has_version(p: Seq<(usize, OpKind, Seq<char>)>, v: Seq<char>) -> bool {
    exists|i: int| 0 <= i < p.len() && (#[trigger] p[i]).2 == v
}

/// The request `(k, v)` is waiting.
pub open spec fn pending_has_request(p: Seq<(usize, OpKind, Seq<char>)>, k: OpKind, v: Seq<char>) -> bool {
    exists|i: int| 0 <= i < p.len() && (#[trigger] p[i]).1 == k && p[i].2 == v
}

/// `m` with `(k, v)` put at the back of the waiting line.
pub open spec fn enqueue(m: QueueModel, k: OpKind, v: Seq<char>) -> QueueModel {
    QueueModel {
        pending: m.pending.push((m.next_id, k, v)),
        next_id: (m.next_id + 1) as usize,
        ..m
    }
}

/// The admission rules: an install starts unless an exclusive operation
/// runs; an exclusive operation starts only when nothing runs; otherwise the
/// request waits; a request that is already running or waiting is ignored.
pub open spec fn admission(m: QueueModel, k: OpKind, v: Seq<char>) -> (QueueModel, Admission) {
    if k == OpKind::Install {
        if m.installs.contains(v) || pending_has_version(m.pending, v) {
            (m, Admission::Ignored)
        } else if m.exclusive is Some {
            (enqueue(m, k, v), Admission::Queued(m.next_id))
        } else {
            (QueueModel { installs: m.installs.push(v), ..m }, Admission::Started)
        }
    } else {
        if m.exclusive == Some((k, v)) || pending_has_request(m.pending, k, v) {
            (m, Admission::Ignored)
        } else if m.installs.len() > 0 || m.exclusive is Some {
            (enqueue(m, k, v), Admission::Queued(m.next_id))
        } else {
            (QueueModel { exclusive: Some((k, v)), ..m }, Admission::Started)
        }
    }
}

/// Pulls from the front of `pending`: installs that are not yet running are
/// started, and an exclusive request is started only when no install runs
/// and none was just pulled; the first exclusive request that cannot start
/// stops the pull. Gives the installs pulled, the exclusive request started,
/// and what still waits.
pub open spec fn drain_from(
    active: Seq<Seq<char>>,
    started: Seq<Seq<char>>,
    pending: Seq<(usize, OpKind, Seq<char>)>,
) -> (Seq<Seq<char>>, Option<(OpKind, Seq<char>)>, Seq<(usize, OpKind, Seq<char>)>)
    decreases pending.len(),
{
    if pending.len() == 0 {
        (started, None, pending)
    } else if pending[0].1 == OpKind::Install {
        let v = pending[0].2;
        let s2 = if active.contains(v) || started.contains(v) {
            started
        } else {
            started.push(v)
        };
        drain_from(active, s2, pending.drop_first())
    } else if active.len() == 0 && started.len() == 0 {
        (started, Some((pending[0].1, pending[0].2)), pending.drop_first())
    } else {
        (started, None, pending)
    }
}

/// The queue after the drain that follows a completion, and the requests
/// that it started, installs first.
pub open spec fn drain(m: QueueModel) -> (QueueModel, Seq<(OpKind, Seq<char>)>) {
    if m.exclusive is Some {
        (m, Seq::<(OpKind, Seq<char>)>::empty())
    } else {
        let d = drain_from(m.installs, Seq::<Seq<char>>::empty(), m.pending);
        let installs_started = d.0.map_values(|v: Seq<char>| (OpKind::Install, v));
        (
            QueueModel { installs: m.installs + d.0, exclusive: d.1, pending: d.2, next_id: m.next_id },
            match d.1 {
                Some(e) => installs_started.push(e),
                None => installs_started,
            },
        )
    }
}

/// Tracks running and waiting operations.
#[derive(Debug)]
pub struct OperationQueue {
    pub active_installs: Vec<Operation>,
    pub exclusive_op: Option<Operation>,
    pub pending: VecDeque<QueuedOperation>,
    /// The id that the next queued request gets.
    pub next_id: usize,
}

/// The version texts of operations.
pub open spec fn install_versions(ops: Seq<Operation>) -> Seq<Seq<char>> {
    ops.map_values(|o: Operation| operation_view(o).1)
}

impl View for OperationQueue {
    type V = QueueModel;

    open spec fn view(&self) -> QueueModel {
        QueueModel {
            installs: install_versions(self.active_installs@),
            exclusive: match self.exclusive_op {
                Some(o) => Some(operation_view(o)),
                None => None,
            },
            pending: self.pending@.map_values(|q: QueuedOperation| queued_view(q)),
            next_id: self.next_id,
        }
    }
}

/// The consistency of a queue model: at most one of each running version,
/// no install beside the exclusive operation, and waiting ids that grow
/// from front to back and stay below the next id.
pub open spec fn model_wf(m: QueueModel) -> bool {
    &&& m.installs.no_duplicates()
    &&& (m.exclusive is Some ==> m.installs.len() == 0 && (m.exclusive->0).0 != OpKind::Install)
    &&& forall|i: int, j: int| 0 <= i < j < m.pending.len() ==> (#[trigger] m.pending[i]).0 < (#[trigger] m.pending[j]).0
    &&& forall|i: int| 0 <= i < m.pending.len() ==> (#[trigger] m.pending[i]).0 < m.next_id
}

impl OperationQueue {
    /// Every running install is an install, and the model is consistent.
    pub open spec fn wf(&self) -> bool {
        &&& forall|i: int| 0 <= i < self.active_installs@.len() ==> (#[trigger] self.active_installs@[i]) is Install
        &&& model_wf(self@)
    }

    pub fn new() -> (r: OperationQueue)
        ensures
            r.wf(),
            r@.installs.len() == 0,
            r@.exclusive is None,
            r@.pending.len() == 0,
            r@.next_id == 0,
    {
        let r = OperationQueue {
            active_installs: Vec::new(),
            exclusive_op: None,
            pending: VecDeque::new(),
            next_id: 0,
        };
        assert(r@.installs =~= Seq::<Seq<char>>::empty());
        r
    }

    /// Takes the next id for a queued request.
    pub fn next_id(&mut self) -> (r: usize)
        requires
            old(self).wf(),
            old(self)@.next_id < usize::MAX,
        ensures
            final(self).wf(),
            r == old(self)@.next_id,
            final(self)@ == (QueueModel { next_id: (r + 1) as usize, ..old(self)@ }),
            final(self).active_installs == old(self).active_installs,
    {
        let id = self.next_id;
        self.next_id = self.next_id + 1;
        id
    }

    /// An exclusive operation runs, so an install would have to wait.
    pub fn is_busy_for_install(&self) -> (r: bool)
        ensures
            r == (self@.exclusive is Some),
    {
        self.exclusive_op.is_some()
    }

    /// Something runs, so an exclusive operation would have to wait.
    pub fn is_busy_for_exclusive(&self) -> (r: bool)
        ensures
            r == (self@.installs.len() > 0 || self@.exclusive is Some),
    {
        self.active_installs.len() > 0 || self.exclusive_op.is_some()
    }

    pub fn has_pending(&self) -> (r: bool)
        ensures
            r == (self@.pending.len() > 0),
    {
        self.pending.len() > 0
    }

    pub fn queue_count(&self) -> (r: usize)
        ensures
            r == self@.pending.len(),
    {
        self.pending.len()
    }

    /// Some waiting request concerns `version`.
    pub fn has_pending_for_version(&self, version: &str) -> (r: bool)
        ensures
            r == pending_has_version(self@.pending, version@),
    {
        let mut i: usize = 0;
        while i < self.pending.len()
            invariant
                i <= self.pending@.len(),
                forall|j: int| 0 <= j < i ==> (#[trigger] self@.pending[j]).2 != version@,
            decreases self.pending@.len() - i,
        {
            if same_text(self.pending[i].request.version(), version) {
                assert(self@.pending[i as int].2 == version@);
                return true;
            }
            i = i + 1;
        }
        false
    }

    /// Some running operation concerns `version`.
    pub fn is_current_version(&self, version: &str) -> (r: bool)
        ensures
            r == (self@.installs.contains(version@) || (self@.exclusive is Some
                && (self@.exclusive->0).1 == version@)),
    {
        let mut i: usize = 0;
        while i < self.active_installs.len()
            invariant
                i <= self.active_installs@.len(),
                forall|j: int| 0 <= j < i ==> (#[trigger] self@.installs[j]) != version@,
            decreases self.active_installs@.len() - i,
        {
            let same = match &self.active_installs[i] {
                Operation::Install { version: v, .. } => same_text(v.as_str(), version),
                Operation::Uninstall { version: v } => same_text(v.as_str(), version),
                Operation::SetDefault { version: v } => same_text(v.as_str(), version),
            };
            if same {
                assert(self@.installs[i as int] == version@);
                return true;
            }
            i = i + 1;
        }
        match &self.exclusive_op {
            Some(Operation::Install { version: v, .. }) => same_text(v.as_str(), version),
            Some(Operation::Uninstall { version: v }) => same_text(v.as_str(), version),
            Some(Operation::SetDefault { version: v }) => same_text(v.as_str(), version),
            None => false,
        }
    }
}


pub open spec fn install_progress_of(o: Operation) -> Option<InstallProgress> {
    match o {
        Operation::Install { progress, .. } => Some(progress),
        _ => None,
    }
}

impl OperationQueue {
    /// An install of `version` runs.
    pub fn has_active_install(&self, version: &str) -> (r: bool)
        ensures
            r == self@.installs.contains(version@),
    {
        let mut i: usize = 0;
        while i < self.active_installs.len()
            invariant
                i <= self.active_installs@.len(),
                forall|j: int| 0 <= j < i ==> (#[trigger] self@.installs[j]) != version@,
            decreases self.active_installs@.len() - i,
        {
            let same = match &self.active_installs[i] {
                Operation::Install { version: v, .. } => same_text(v.as_str(), version),
                Operation::Uninstall { version: v } => same_text(v.as_str(), version),
                Operation::SetDefault { version: v } => same_text(v.as_str(), version),
            };
            if same {
                assert(self@.installs[i as int] == version@);
                return true;
            }
            i = i + 1;
        }
        false
    }

    /// The request `(kind, version)` waits.
    pub fn has_pending_request(&self, kind: OpKind, version: &str) -> (r: bool)
        ensures
            r == pending_has_request(self@.pending, kind, version@),
    {
        let mut i: usize = 0;
        while i < self.pending.len()
            invariant
                i <= self.pending@.len(),
                forall|j: int| 0 <= j < i ==> !((#[trigger] self@.pending[j]).1 == kind && self@.pending[j].2 == version@),
            decreases self.pending@.len() - i,
        {
            let q = &self.pending[i];
            if q.request.kind() == kind && same_text(q.request.version(), version) {
                assert(self@.pending[i as int].1 == kind && self@.pending[i as int].2 == version@);
                return true;
            }
            i = i + 1;
        }
        false
    }

    /// The exclusive operation that runs is `(kind, version)`.
    fn exclusive_is(&self, kind: OpKind, version: &str) -> (r: bool)
        ensures
            r == (self@.exclusive == Some((kind, version@))),
    {
        match &self.exclusive_op {
            Some(Operation::Install { version: v, .. }) => kind == OpKind::Install && same_text(v.as_str(), version),
            Some(Operation::Uninstall { version: v }) => kind == OpKind::Uninstall && same_text(v.as_str(), version),
            Some(Operation::SetDefault { version: v }) => kind == OpKind::SetDefault && same_text(v.as_str(), version),
            None => false,
        }
    }

    /// Takes a request under the admission rules: it starts, waits under a
    /// fresh id, or is ignored as a repeat.
    pub fn request(&mut self, req: OperationRequest, now: u64) -> (r: Admission)
        requires
            old(self).wf(),
            old(self)@.next_id < usize::MAX,
        ensures
            final(self).wf(),
            (final(self)@, r) == admission(old(self)@, request_view(req).0, request_view(req).1),
    {
        let kind = req.kind();
        let ghost v = request_view(req).1;
        let ghost m = self@;
        if kind == OpKind::Install {
            if self.has_active_install(req.version()) || self.has_pending_for_version(req.version()) {
                return Admission::Ignored;
            }
            if self.exclusive_op.is_some() {
                let id = self.next_id();
                self.pending.push_back(QueuedOperation { id, request: req, queued_at: now });
                assert(self@.pending =~= m.pending.push((m.next_id, kind, v)));
                return Admission::Queued(id);
            }
            let version = req.into_version();
            let ghost before = self.active_installs@;
            self.active_installs.push(Operation::Install { version, progress: InstallProgress::default() });
            assert(self@.installs =~= m.installs.push(v));
            assert forall|i: int| 0 <= i < self.active_installs@.len() implies (#[trigger] self.active_installs@[i]) is Install by {
                if i < before.len() {
                    assert(self.active_installs@[i] == before[i]);
                }
            }
            return Admission::Started;
        }
        if self.exclusive_is(kind, req.version()) || self.has_pending_request(kind, req.version()) {
            return Admission::Ignored;
        }
        if self.active_installs.len() > 0 || self.exclusive_op.is_some() {
            let id = self.next_id();
            self.pending.push_back(QueuedOperation { id, request: req, queued_at: now });
            assert(self@.pending =~= m.pending.push((m.next_id, kind, v)));
            return Admission::Queued(id);
        }
        let version = req.into_version();
        self.exclusive_op = if kind == OpKind::Uninstall {
            Some(Operation::Uninstall { version })
        } else {
            Some(Operation::SetDefault { version })
        };
        Admission::Started
    }

    /// The exclusive operation has finished.
    pub fn complete_exclusive(&mut self)
        requires
            old(self).wf(),
        ensures
            final(self).wf(),
            final(self)@ == (QueueModel { exclusive: None, ..old(self)@ }),
    {
        self.exclusive_op = None;
    }
}


/// The waiting requests without the one of id `id`.
pub open spec fn without_id(p: Seq<(usize, OpKind, Seq<char>)>, id: usize) -> Seq<(usize, OpKind, Seq<char>)> {
    p.filter(id_differs(id))
}

/// Holds of a waiting request whose id is not `id`.
pub open spec fn id_differs(id: usize) -> spec_fn((usize, OpKind, Seq<char>)) -> bool {
    |e: (usize, OpKind, Seq<char>)| e.0 != id
}

/// Holds of a text other than `v`.
pub open spec fn text_differs(v: Seq<char>) -> spec_fn(Seq<char>) -> bool {
    |x: Seq<char>| x != v
}

/// Ids that grow from front to back.
pub open spec fn ids_increasing(p: Seq<(usize, OpKind, Seq<char>)>) -> bool {
    forall|i: int, j: int| 0 <= i < j < p.len() ==> (#[trigger] p[i]).0 < (#[trigger] p[j]).0
}

impl OperationQueue {
    /// Removes the waiting request of id `id`; says whether there was one.
    pub fn cancel_pending(&mut self, id: usize) -> (r: bool)
        requires
            old(self).wf(),
        ensures
            final(self).wf(),
            final(self)@ == (QueueModel { pending: without_id(old(self)@.pending, id), ..old(self)@ }),
            r == exists|i: int| 0 <= i < old(self)@.pending.len() && (#[trigger] old(self)@.pending[i]).0 == id,
    {
        let ghost orig = self@.pending;
        let mut kept: VecDeque<QueuedOperation> = VecDeque::new();
        let mut found = false;
        assert(orig.take(0).filter(id_differs(id)) =~= Seq::<(usize, OpKind, Seq<char>)>::empty());
        assert(orig.skip(0) =~= orig);
        while self.pending.len() > 0
            invariant
                self.active_installs == old(self).active_installs,
                self.exclusive_op == old(self).exclusive_op,
                self.next_id == old(self).next_id,
                orig == old(self)@.pending,
                model_wf(old(self)@),
                self.pending@.len() <= orig.len(),
                self@.pending == orig.skip(orig.len() - self.pending@.len()),
                kept@.map_values(|q: QueuedOperation| queued_view(q)) == orig.take(orig.len() - self.pending@.len()).filter(id_differs(id)),
                ids_increasing(kept@.map_values(|q: QueuedOperation| queued_view(q))),
                forall|a: int, b: int| 0 <= a < kept@.len() && 0 <= b < self.pending@.len() ==> (#[trigger] kept@[a]).id < (#[trigger] self.pending@[b]).id,
                forall|a: int| 0 <= a < kept@.len() ==> (#[trigger] kept@[a]).id < self.next_id,
                found == exists|i: int| 0 <= i < orig.len() - self.pending@.len() && (#[trigger] orig[i]).0 == id,
            decreases self.pending@.len(),
        {
            let ghost k = orig.len() - self.pending@.len();
            let ghost kv = kept@.map_values(|q: QueuedOperation| queued_view(q));
            let ghost rest = self.pending@;
            let ghost pv = self@.pending;
            assert(self@.pending[0] == queued_view(rest[0]));
            assert(orig.skip(k)[0] == orig[k]);
            assert(orig[k] == queued_view(rest[0]));
            let q = self.pending.pop_front().unwrap();
            assert(self.pending@ =~= rest.drop_first());
            assert forall|b: int| 0 <= b < self.pending@.len() implies #[trigger] self@.pending[b] == orig.skip(k + 1)[b] by {
                assert(self.pending@[b] == rest[b + 1]);
                assert(self@.pending[b] == queued_view(rest[b + 1]));
                assert(self@.pending.len() == rest.len() - 1);
                assert(orig.skip(k)[b + 1] == queued_view(rest[b + 1]));
            }
            assert(orig.take(k + 1) =~= orig.take(k).push(orig[k]));
            assert(self@.pending =~= orig.skip(k + 1));
            proof {
                orig.take(k).lemma_filter_push(orig[k], id_differs(id));
            }
            if q.id == id {
                found = true;
            } else {
                let ghost before = kept@;
                kept.push_back(q);
                assert(kept@.map_values(|q: QueuedOperation| queued_view(q)) =~= kv.push(queued_view(q)));
                assert forall|a: int, b: int| 0 <= a < kept@.len() && 0 <= b < self.pending@.len() implies (#[trigger] kept@[a]).id < (#[trigger] self.pending@[b]).id by {
                    assert(self.pending@[b] == rest[b + 1]);
                    assert(pv[b + 1] == queued_view(rest[b + 1]));
                    assert(orig.skip(k)[b + 1] == orig[k + b + 1]);
                    assert(orig[k + b + 1] == queued_view(rest[b + 1]));
                    if a < before.len() {
                        assert(kept@[a] == before[a]);
                    } else {
                        assert(orig[k] == queued_view(q));
                    }
                }
            }
        }
        self.pending = kept;
        assert(orig.take(orig.len() as int) =~= orig);
        found
    }

    /// Removes the running install of `version`.
    pub fn remove_completed_install(&mut self, version: &str)
        requires
            old(self).wf(),
        ensures
            final(self).wf(),
            final(self)@ == (QueueModel {
                installs: old(self)@.installs.filter(text_differs(version@)),
                ..old(self)@
            }),
    {
        let ghost orig = self@.installs;
        let mut rest: Vec<Operation> = Vec::new();
        std::mem::swap(&mut rest, &mut self.active_installs);
        assert(orig.take(0).filter(text_differs(version@)) =~= Seq::<Seq<char>>::empty());
        assert(self@.installs =~= Seq::<Seq<char>>::empty());
        assert(orig.skip(0) =~= orig);
        while rest.len() > 0
            invariant
                self.exclusive_op == old(self).exclusive_op,
                self.pending == old(self).pending,
                self.next_id == old(self).next_id,
                orig == old(self)@.installs,
                old(self).wf(),
                rest@.len() <= orig.len(),
                install_versions(rest@) == orig.skip(orig.len() - rest@.len()),
                forall|i: int| 0 <= i < rest@.len() ==> (#[trigger] rest@[i]) is Install,
                forall|i: int| 0 <= i < self.active_installs@.len() ==> (#[trigger] self.active_installs@[i]) is Install,
                self@.installs == orig.take(orig.len() - rest@.len()).filter(text_differs(version@)),
                self@.installs.no_duplicates(),
                self@.installs.len() <= orig.len() - rest@.len(),
                forall|a: int| 0 <= a < self@.installs.len() ==> orig.take(orig.len() - rest@.len()).contains(#[trigger] self@.installs[a]),
            decreases rest@.len(),
        {
            let ghost k = orig.len() - rest@.len();
            let ghost before = self.active_installs@;
            let ghost rv = rest@;
            assert(install_versions(rv)[0] == operation_view(rv[0]).1);
            assert(orig.skip(k)[0] == orig[k]);
            assert(orig[k] == operation_view(rv[0]).1);
            let op = rest.remove(0);
            assert forall|b: int| 0 <= b < rest@.len() implies #[trigger] install_versions(rest@)[b] == orig.skip(k + 1)[b] by {
                assert(rest@[b] == rv[b + 1]);
                assert(install_versions(rv)[b + 1] == operation_view(rv[b + 1]).1);
                assert(orig.skip(k)[b + 1] == operation_view(rv[b + 1]).1);
            }
            assert(install_versions(rest@) =~= orig.skip(k + 1));
            assert(orig.take(k + 1) =~= orig.take(k).push(orig[k]));
            proof {
                orig.take(k).lemma_filter_push(orig[k], text_differs(version@));
            }
            let keep = match &op {
                Operation::Install { version: v, .. } => !same_text(v.as_str(), version),
                Operation::Uninstall { version: v } => !same_text(v.as_str(), version),
                Operation::SetDefault { version: v } => !same_text(v.as_str(), version),
            };
            if keep {
                self.active_installs.push(op);
                assert(self@.installs =~= orig.take(k).filter(text_differs(version@)).push(orig[k]));
                assert forall|a: int| 0 <= a < self@.installs.len() implies orig.take(k + 1).contains(#[trigger] self@.installs[a]) by {
                    if a < before.len() {
                        assert(orig.take(k).contains(self@.installs[a]));
                        let w = choose|w: int| 0 <= w < k && orig.take(k)[w] == self@.installs[a];
                        assert(orig.take(k + 1)[w] == self@.installs[a]);
                    } else {
                        assert(orig.take(k + 1)[k] == orig[k]);
                    }
                }
                assert forall|a: int, b: int| 0 <= a < b < self@.installs.len() implies self@.installs[a] != self@.installs[b] by {
                    if b == self@.installs.len() - 1 {
                        assert(orig.take(k).contains(self@.installs[a]));
                        let w = choose|w: int| 0 <= w < k && orig.take(k)[w] == self@.installs[a];
                        assert(orig[w] != orig[k]);
                    }
                }
                assert forall|i: int| 0 <= i < self.active_installs@.len() implies (#[trigger] self.active_installs@[i]) is Install by {
                    if i < before.len() {
                        assert(self.active_installs@[i] == before[i]);
                    }
                }
            }
        }
        assert(orig.take(orig.len() as int) =~= orig);
    }

    /// Records the latest progress of the running install of `version`.
    pub fn update_install_progress(&mut self, version: &str, progress: InstallProgress)
        requires
            old(self).wf(),
        ensures
            final(self).wf(),
            final(self)@ == old(self)@,
            forall|i: int| 0 <= i < old(self)@.installs.len() ==> (if old(self)@.installs[i] == version@ {
                install_progress_of(#[trigger] final(self).active_installs@[i]) == Some(progress)
            } else {
                final(self).active_installs@[i] == old(self).active_installs@[i]
            }),
    {
        let mut i: usize = 0;
        while i < self.active_installs.len()
            invariant
                self == old(self),
                self.wf(),
                i <= self.active_installs@.len(),
                forall|j: int| 0 <= j < i ==> (#[trigger] self@.installs[j]) != version@,
            decreases self.active_installs@.len() - i,
        {
            let found = match &self.active_installs[i] {
                Operation::Install { version: v, .. } => same_text(v.as_str(), version),
                _ => false,
            };
            if found {
                let v = match &self.active_installs[i] {
                    Operation::Install { version: v, .. } => v.clone(),
                    Operation::Uninstall { version: v } => v.clone(),
                    Operation::SetDefault { version: v } => v.clone(),
                };
                let ghost before = self.active_installs@;
                assert(self@.installs[i as int] == version@);
                self.active_installs.set(i, Operation::Install { version: v, progress });
                assert(self@.installs =~= old(self)@.installs);
                assert forall|j: int| 0 <= j < self.active_installs@.len() implies (#[trigger] self.active_installs@[j]) is Install by {
                    if j != i {
                        assert(self.active_installs@[j] == before[j]);
                        assert(before[j] is Install);
                    }
                }
                assert forall|j: int| 0 <= j < old(self)@.installs.len() && j != i implies old(self)@.installs[j] != version@ by {
                    assert(old(self)@.installs[i as int] == version@);
                    assert(old(self)@.installs.no_duplicates());
                }
                return;
            }
            i = i + 1;
        }
    }
}


/// Kinds and versions of requests.
pub open spec fn request_views(rs: Seq<OperationRequest>) -> Seq<(OpKind, Seq<char>)> {
    rs.map_values(|q: OperationRequest| request_view(q))
}

/// Texts of strings.
pub open spec fn texts(vs: Seq<String>) -> Seq<Seq<char>> {
    vs.map_values(|v: String| v@)
}

/// Whether `v` is among `vs`.
fn contains_text(vs: &Vec<String>, v: &str) -> (r: bool)
    ensures
        r == texts(vs@).contains(v@),
{
    let mut i: usize = 0;
    while i < vs.len()
        invariant
            i <= vs@.len(),
            forall|j: int| 0 <= j < i ==> (#[trigger] texts(vs@)[j]) != v@,
        decreases vs@.len() - i,
    {
        if same_text(vs[i].as_str(), v) {
            assert(texts(vs@)[i as int] == v@);
            return true;
        }
        i = i + 1;
    }
    false
}

impl OperationQueue {
    /// After a completion: starts what the drain rules allow from the front
    /// of the waiting line, and gives the requests started, installs first.
    pub fn process_next(&mut self) -> (r: Vec<OperationRequest>)
        requires
            old(self).wf(),
        ensures
            final(self).wf(),
            (final(self)@, request_views(r@)) == drain(old(self)@),
    {
        if self.exclusive_op.is_some() {
            let r: Vec<OperationRequest> = Vec::new();
            assert(request_views(r@) =~= Seq::<(OpKind, Seq<char>)>::empty());
            return r;
        }
        let ghost m = self@;
        let ghost e = Seq::<Seq<char>>::empty();
        let mut started: Vec<String> = Vec::new();
        let mut excl: Option<OperationRequest> = None;
        let mut done = false;
        assert(texts(started@) =~= e);
        while !done && self.pending.len() > 0
            invariant
                self.active_installs == old(self).active_installs,
                self.exclusive_op is None,
                self.next_id == old(self).next_id,
                m == old(self)@,
                old(self).wf(),
                ids_increasing(self@.pending),
                forall|i: int| 0 <= i < self@.pending.len() ==> (#[trigger] self@.pending[i]).0 < self.next_id,
                !done ==> excl is None && drain_from(m.installs, e, m.pending) == drain_from(m.installs, texts(started@), self@.pending),
                done ==> drain_from(m.installs, e, m.pending) == (
                    texts(started@),
                    match excl {
                        Some(q) => Some(request_view(q)),
                        None => None,
                    },
                    self@.pending,
                ),
                excl is Some ==> m.installs.len() == 0 && started@.len() == 0 && request_view(excl->0).0 != OpKind::Install,
                texts(started@).no_duplicates(),
                forall|i: int| 0 <= i < started@.len() ==> !m.installs.contains(#[trigger] texts(started@)[i]),
            decreases self.pending@.len(), (if done { 0int } else { 1int }),
        {
            let ghost pv = self@.pending;
            let ghost sv = texts(started@);
            let kind = self.pending[0].request.kind();
            assert(pv[0] == queued_view(self.pending@[0]));
            if kind == OpKind::Install {
                let q = self.pending.pop_front().unwrap();
                assert(self@.pending =~= pv.drop_first());
                let v = q.request.into_version();
                if !self.has_active_install(v.as_str()) && !contains_text(&started, v.as_str()) {
                    started.push(v);
                    assert(texts(started@) =~= sv.push(pv[0].2));
                    assert forall|a: int, b: int| 0 <= a < b < texts(started@).len() implies texts(started@)[a] != texts(started@)[b] by {
                        if b == texts(started@).len() - 1 {
                            assert(sv[a] == texts(started@)[a]);
                        } else {
                            assert(sv[a] == texts(started@)[a]);
                            assert(sv[b] == texts(started@)[b]);
                        }
                    }
                    assert forall|i: int| 0 <= i < started@.len() implies !m.installs.contains(#[trigger] texts(started@)[i]) by {
                        if i < sv.len() {
                            assert(sv[i] == texts(started@)[i]);
                        }
                    }
                }
            } else {
                if self.active_installs.len() == 0 && started.len() == 0 {
                    let q = self.pending.pop_front().unwrap();
                    assert(self@.pending =~= pv.drop_first());
                    excl = Some(q.request);
                }
                done = true;
            }
        }
        let ghost sv = texts(started@);
        proof {
            if !done {
                assert(self@.pending.len() == 0);
            }
        }
        assert(drain_from(m.installs, e, m.pending) == (
            sv,
            match excl {
                Some(q) => Some(request_view(q)),
                None => None,
            },
            self@.pending,
        ));
        let ghost pq = self.pending;
        let mut result: Vec<OperationRequest> = Vec::new();
        let mut idx: usize = 0;
        assert(m.installs + sv.take(0) =~= m.installs);
        while idx < started.len()
            invariant
                idx <= started@.len(),
                sv == texts(started@),
                self.exclusive_op is None,
                self.next_id == old(self).next_id,
                self.pending == pq,
                self@.installs == m.installs + sv.take(idx as int),
                request_views(result@) == sv.take(idx as int).map_values(|v: Seq<char>| (OpKind::Install, v)),
                forall|i: int| 0 <= i < self.active_installs@.len() ==> (#[trigger] self.active_installs@[i]) is Install,
            decreases started@.len() - idx,
        {
            let ghost before = self.active_installs@;
            let ghost rb = result@;
            let v = started[idx].clone();
            let w = started[idx].clone();
            assert(sv[idx as int] == started@[idx as int]@);
            self.active_installs.push(Operation::Install { version: v, progress: InstallProgress::default() });
            result.push(OperationRequest::Install { version: w });
            assert(self.active_installs@ == before.push(self.active_installs@[before.len() as int]));
            assert(install_versions(self.active_installs@) =~= install_versions(before).push(sv[idx as int]));
            assert(request_views(result@) =~= request_views(rb).push((OpKind::Install, sv[idx as int])));
            idx = idx + 1;
            assert(sv.take(idx as int) =~= sv.take(idx - 1).push(sv[idx - 1]));
            assert(self@.installs =~= m.installs + sv.take(idx as int));
            assert(request_views(result@) =~= sv.take(idx as int).map_values(|v: Seq<char>| (OpKind::Install, v)));
            assert forall|i: int| 0 <= i < self.active_installs@.len() implies (#[trigger] self.active_installs@[i]) is Install by {
                if i < before.len() {
                    assert(self.active_installs@[i] == before[i]);
                }
            }
        }
        assert(sv.take(sv.len() as int) =~= sv);
        match excl {
            Some(req) => {
                let ghost rb = result@;
                let ghost rv = request_view(req);
                let kind = req.kind();
                let w = req.version().to_string();
                let version = req.into_version();
                self.exclusive_op = if kind == OpKind::Uninstall {
                    Some(Operation::Uninstall { version })
                } else {
                    Some(Operation::SetDefault { version })
                };
                result.push(OperationRequest::of_kind(kind, w));
                assert(request_views(result@) =~= request_views(rb).push(rv));
            },
            None => {},
        }
        proof {
            let d = drain_from(m.installs, e, m.pending);
            assert(d.0 == sv);
            assert forall|a: int, b: int| 0 <= a < b < self@.installs.len() implies self@.installs[a] != self@.installs[b] by {
                if b >= m.installs.len() && a < m.installs.len() {
                    assert(sv[b - m.installs.len()] == self@.installs[b]);
                    assert(m.installs.contains(self@.installs[a]));
                } else if a >= m.installs.len() {
                    assert(sv[a - m.installs.len()] == self@.installs[a]);
                    assert(sv[b - m.installs.len()] == self@.installs[b]);
                }
            }
        }
        result
    }
}


/// Installs never block installs: a second install request starts after a
/// first one for another version exactly when it would have started
/// without it; with no exclusive operation running, two fresh installs of
/// different versions both start at once.
pub proof fn lemma_installs_run_in_parallel(m: QueueModel, a: Seq<char>, b: Seq<char>)
    requires
        a != b,
    ensures
        (admission(admission(m, OpKind::Install, a).0, OpKind::Install, b).1 is Started)
            == (admission(m, OpKind::Install, b).1 is Started),
        m.exclusive is None && !m.installs.contains(a) && !m.installs.contains(b)
            && !pending_has_version(m.pending, a) && !pending_has_version(m.pending, b) ==> {
            &&& admission(m, OpKind::Install, a).1 == Admission::Started
            &&& admission(admission(m, OpKind::Install, a).0, OpKind::Install, b).1 == Admission::Started
            &&& admission(admission(m, OpKind::Install, a).0, OpKind::Install, b).0.installs
                == m.installs.push(a).push(b)
        },
{
    let m1 = admission(m, OpKind::Install, a).0;
    assert(m.installs.push(a).contains(b) == m.installs.contains(b)) by {
        if m.installs.push(a).contains(b) {
            let k = choose|k: int| 0 <= k < m.installs.push(a).len() && m.installs.push(a)[k] == b;
            assert(m.installs[k] == b);
        }
        if m.installs.contains(b) {
            let k = choose|k: int| 0 <= k < m.installs.len() && m.installs[k] == b;
            assert(m.installs.push(a)[k] == b);
        }
    }
    let q = m.pending.push((m.next_id, OpKind::Install, a));
    assert(pending_has_version(q, b) == pending_has_version(m.pending, b)) by {
        if pending_has_version(q, b) {
            let k = choose|k: int| 0 <= k < q.len() && (#[trigger] q[k]).2 == b;
            assert(m.pending[k] == q[k]);
        }
        if pending_has_version(m.pending, b) {
            let k = choose|k: int| 0 <= k < m.pending.len() && (#[trigger] m.pending[k]).2 == b;
            assert(q[k] == m.pending[k]);
        }
    }
}

/// An exclusive request made while an install runs waits; when that install
/// completes, the drain starts it with no further request.
pub proof fn lemma_exclusive_waits_for_install(m: QueueModel, v: Seq<char>, k: OpKind, w: Seq<char>)
    requires
        model_wf(m),
        k != OpKind::Install,
        m.installs == seq![v],
        m.exclusive is None,
        m.pending.len() == 0,
    ensures
        admission(m, k, w).1 == Admission::Queued(m.next_id),
        admission(m, k, w).0.exclusive is None,
        ({
            let m1 = admission(m, k, w).0;
            let m2 = QueueModel { installs: m1.installs.filter(text_differs(v)), ..m1 };
            &&& drain(m2).0.exclusive == Some((k, w))
            &&& drain(m2).0.installs.len() == 0
            &&& drain(m2).0.pending.len() == 0
            &&& drain(m2).1 == seq![(k, w)]
        }),
{
    let m1 = admission(m, k, w).0;
    assert(!pending_has_request(m.pending, k, w));
    assert(seq![v] == Seq::<Seq<char>>::empty().push(v));
    Seq::<Seq<char>>::empty().lemma_filter_push(v, text_differs(v));
    assert(Seq::<Seq<char>>::empty().filter(text_differs(v)) =~= Seq::<Seq<char>>::empty());
    let p = m1.pending;
    assert(p.len() == 1);
    assert(p.drop_first() =~= Seq::<(usize, OpKind, Seq<char>)>::empty());
    let e = Seq::<Seq<char>>::empty();
    assert(drain_from(e, e, p) == (e, Some((k, w)), p.drop_first()));
    let m2 = QueueModel { installs: m1.installs.filter(text_differs(v)), ..m1 };
    assert(m2.installs =~= e);
    assert(e + e =~= e);
    assert(e.map_values(|x: Seq<char>| (OpKind::Install, x)) =~= Seq::<(OpKind, Seq<char>)>::empty());
    assert(Seq::<(OpKind, Seq<char>)>::empty().push((k, w)) =~= seq![(k, w)]);
}

proof fn lemma_filter_keeps_all(p: Seq<(usize, OpKind, Seq<char>)>, id: usize)
    requires
        forall|i: int| 0 <= i < p.len() ==> (#[trigger] p[i]).0 != id,
    ensures
        without_id(p, id) == p,
    decreases p.len(),
{
    if p.len() > 0 {
        let q = p.drop_last();
        lemma_filter_keeps_all(q, id);
        assert(q.push(p.last()) =~= p);
        q.lemma_filter_push(p.last(), id_differs(id));
    }
}

/// Cancelling the waiting request of id `id` removes exactly that entry and
/// keeps the others in order; when no entry has that id nothing changes.
pub proof fn lemma_cancel_removes_exactly(p: Seq<(usize, OpKind, Seq<char>)>, id: usize)
    requires
        ids_increasing(p),
    ensures
        forall|i: int| 0 <= i < p.len() && (#[trigger] p[i]).0 == id ==> without_id(p, id) == p.remove(i),
        (forall|i: int| 0 <= i < p.len() ==> (#[trigger] p[i]).0 != id) ==> without_id(p, id) == p,
    decreases p.len(),
{
    if forall|i: int| 0 <= i < p.len() ==> (#[trigger] p[i]).0 != id {
        lemma_filter_keeps_all(p, id);
    }
    assert forall|i: int| 0 <= i < p.len() && (#[trigger] p[i]).0 == id implies without_id(p, id) == p.remove(i) by {
        let q = p.drop_last();
        assert(q.push(p.last()) =~= p);
        q.lemma_filter_push(p.last(), id_differs(id));
        if i == p.len() - 1 {
            assert forall|j: int| 0 <= j < q.len() implies (#[trigger] q[j]).0 != id by {
                assert(p[j].0 < p[i].0);
            }
            lemma_filter_keeps_all(q, id);
            assert(p.remove(i) =~= q);
        } else {
            assert(p.last().0 != id) by {
                assert(p[i].0 < p[p.len() - 1].0);
            }
            assert(ids_increasing(q));
            lemma_cancel_removes_exactly(q, id);
            assert(q[i].0 == id);
            assert(p.remove(i) =~= q.remove(i).push(p.last()));
        }
    }
}


impl OperationQueue {
    /// The install of `version` has finished: it leaves the running
    /// installs and the waiting line drains; gives what was started.
    pub fn finish_install(&mut self, version: &str) -> (r: Vec<OperationRequest>)
        requires
            old(self).wf(),
        ensures
            final(self).wf(),
            (final(self)@, request_views(r@)) == drain(QueueModel {
                installs: old(self)@.installs.filter(text_differs(version@)),
                ..old(self)@
            }),
    {
        self.remove_completed_install(version);
        self.process_next()
    }

    /// The exclusive operation has finished and the waiting line drains;
    /// gives what was started.
    pub fn finish_exclusive(&mut self) -> (r: Vec<OperationRequest>)
        requires
            old(self).wf(),
        ensures
            final(self).wf(),
            (final(self)@, request_views(r@)) == drain(QueueModel { exclusive: None, ..old(self)@ }),
    {
        self.complete_exclusive();
        self.process_next()
    }
}

} // verus!
