//! The document actor's lifecycle: loading its document from storage,
//! saving its changes, checking whether it may be announced to each peer,
//! and stopping once its writes are done. The sync protocol with peers is
//! not held here.

use vstd::prelude::*;

use crate::doc_actor_result::{doc_tasks_view, DocActorResult, DocumentError, DocumentIoTask, DocumentIoTaskView};
use crate::hub::RunState;
use crate::ids::{document_id_text, DocumentId, PeerId};
use crate::io::{lemma_task_id_eq, IoResult, IoTask, IoTaskId, StorageResult, StorageTask, StorageTaskView};
use crate::load::{entries_view, load_after_result, Load, LoadComplete, LoadStateView};
use crate::harness::empty_document;
use crate::messages::{
    initial_connections_view, Broadcast, DocMessageView, DocToHubMsgPayload, DocumentActorId, DocumentStatus,
    HubToDocMsgPayload, SpawnArgs,
};
use crate::network::{lemma_connection_id_eq, ConnectionId};
use crate::on_disk_state::{
    doc_heads_of, doc_new_changes, has_task, insert_all, keys_view, on_disk_wf, save_recorded, snapshot_if_due, OnDiskState,
    OnDiskView,
};
use crate::storage_key::StorageKey;
use crate::timestamp::UnixTimestamp;

verus! {

/// Whether the document may be announced to a peer.
#[derive(Debug, Clone, Copy, PartialEq, Eq, Structural)]
pub enum AnnouncePolicy {
    /// Not asked yet.
    Unknown,
    /// Asked; the answer has not come.
    Loading,
    /// The document may be announced.
    Announce,
    /// The document may not be announced.
    DontAnnounce,
}

/// What the actor knows of one peer connection.
#[derive(Debug)]
pub struct PeerDocConnection {
    pub peer_id: PeerId,
    pub connection_id: ConnectionId,
    pub announce_policy: AnnouncePolicy,
}

/// The result of a document I/O task.
#[derive(Debug)]
pub enum DocumentIoResult {
    /// The answer of the storage.
    Storage(StorageResult),
    /// Whether the document may be announced to the peer asked about.
    CheckAnnouncePolicy(bool),
}

/// An input for the actor.
#[derive(Debug)]
pub enum ActorInput {
    /// Stop once the writes are done.
    Terminate,
    /// An I/O task finished.
    IoComplete(IoResult<DocumentIoResult>),
    /// A peer connection opened.
    NewConnection { connection_id: ConnectionId, peer_id: PeerId },
    /// A peer connection closed.
    ConnectionClosed { connection_id: ConnectionId },
    /// Someone asked for the document: load it if it is not loading.
    Request,
    /// Nothing new; take a step.
    Tick,
}

/// The abstract value of a [`DocumentActor`].
pub struct DocumentActorView {
    pub document_id: Seq<u8>,
    pub actor_id: u64,
    pub local_peer_id: Seq<char>,
    pub load: LoadStateView,
    pub disk: OnDiskView,
    /// Connection, peer, announce policy.
    pub peers: Seq<(u64, Seq<char>, AnnouncePolicy)>,
    /// Policy check task, connection.
    pub policy_tasks: Seq<(u64, u64)>,
    pub run_state: RunState,
    /// The document the actor holds.
    pub document: automerge::Automerge,
    /// Whether the document is ready.
    pub ready: bool,
}

/// A document actor.
#[derive(Debug)]
pub struct DocumentActor {
    document_id: DocumentId,
    id: DocumentActorId,
    local_peer_id: PeerId,
    document: automerge::Automerge,
    load_state: Load,
    on_disk_state: OnDiskState,
    peer_connections: Vec<PeerDocConnection>,
    check_policy_tasks: Vec<(IoTaskId, ConnectionId)>,
    run_state: RunState,
    ready: bool,
}

/// The view of the peer connections.
pub open spec fn peers_view(v: Seq<PeerDocConnection>) -> Seq<(u64, Seq<char>, AnnouncePolicy)> {
    v.map_values(|p: PeerDocConnection| (p.connection_id.value(), p.peer_id@, p.announce_policy))
}

/// The view of the policy check tasks.
pub open spec fn policy_tasks_view(v: Seq<(IoTaskId, ConnectionId)>) -> Seq<(u64, u64)> {
    v.map_values(|e: (IoTaskId, ConnectionId)| (e.0.value(), e.1.value()))
}

impl View for DocumentActor {
    type V = DocumentActorView;

    closed spec fn view(&self) -> DocumentActorView {
        DocumentActorView {
            document_id: self.document_id@,
            actor_id: self.id.value(),
            local_peer_id: self.local_peer_id@,
            load: self.load_state.state(),
            disk: self.on_disk_state@,
            peers: peers_view(self.peer_connections@),
            policy_tasks: policy_tasks_view(self.check_policy_tasks@),
            run_state: self.run_state,
            document: self.document,
            ready: self.ready,
        }
    }
}

/// There is a peer on this connection.
pub open spec fn has_peer(peers: Seq<(u64, Seq<char>, AnnouncePolicy)>, c: u64) -> bool {
    exists|i: int| 0 <= i < peers.len() && #[trigger] peers[i].0 == c
}

/// An announce policy question under task `t` is awaited.
pub open spec fn has_policy_task(tasks: Seq<(u64, u64)>, t: u64) -> bool {
    exists|i: int| 0 <= i < tasks.len() && #[trigger] tasks[i].0 == t
}

/// The load awaits the task with this number.
pub open spec fn load_awaits(l: LoadStateView, t: u64) -> bool {
    l is WaitingForResults && (l->snapshot_task_id == t || l->incremental_task_id == t)
}

/// The actor's state is consistent: what is on disk is well formed, a
/// finished load has been taken in, and each connection has one peer.
pub open spec fn actor_wf(v: DocumentActorView) -> bool {
    &&& on_disk_wf(v.disk)
    &&& !(v.load is Complete)
    &&& forall|i: int, j: int| 0 <= i < j < v.peers.len() ==> #[trigger] v.peers[i].0 != #[trigger] v.peers[j].0
}

/// The inputs the actor takes in state `v`: a new connection must be new,
/// and a storage result the load waits for must be a range load.
pub open spec fn input_allowed(v: DocumentActorView, input: ActorInput) -> bool {
    match input {
        ActorInput::NewConnection { connection_id, .. } => !has_peer(v.peers, connection_id.value()),
        ActorInput::IoComplete(r) => match r.payload {
            DocumentIoResult::Storage(sr) => load_awaits(v.load, r.task_id.value()) ==> sr is LoadRange,
            _ => true,
        },
        _ => true,
    }
}

/// The peers with every unknown announce policy being asked about.
pub open spec fn asked(peers: Seq<(u64, Seq<char>, AnnouncePolicy)>) -> Seq<(u64, Seq<char>, AnnouncePolicy)> {
    peers.map_values(|p: (u64, Seq<char>, AnnouncePolicy)| if p.2 == AnnouncePolicy::Unknown {
        (p.0, p.1, AnnouncePolicy::Loading)
    } else {
        p
    })
}

/// The peers whose announce policy is unknown, in order: their connection
/// and peer.
pub open spec fn questions(peers: Seq<(u64, Seq<char>, AnnouncePolicy)>) -> Seq<(u64, Seq<char>)>
    decreases peers.len(),
{
    if peers.len() == 0 {
        Seq::empty()
    } else {
        questions(peers.drop_last()) + if peers.last().2 == AnnouncePolicy::Unknown {
            seq![(peers.last().0, peers.last().1)]
        } else {
            Seq::empty()
        }
    }
}

/// From `p0`/`t0` to `p1`/`t1`, one announce policy question was asked per
/// entry of `q`, in order: a task asking about the peer, and a policy task
/// under the same ID for its connection.
pub open spec fn asked_about(
    q: Seq<(u64, Seq<char>)>,
    p0: Seq<(u64, u64)>,
    p1: Seq<(u64, u64)>,
    t0: Seq<(u64, DocumentIoTaskView)>,
    t1: Seq<(u64, DocumentIoTaskView)>,
) -> bool {
    &&& p1.len() == p0.len() + q.len()
    &&& t1.len() == t0.len() + q.len()
    &&& p0.is_prefix_of(p1)
    &&& t0.is_prefix_of(t1)
    &&& forall|k: int| 0 <= k < q.len() ==> {
        &&& #[trigger] t1[t0.len() + k] == (t1[t0.len() + k].0, DocumentIoTaskView::CheckAnnouncePolicy { peer_id: q[k].1 })
        &&& p1[p0.len() + k] == (t1[t0.len() + k].0, q[k].0)
    }
}

proof fn lemma_asked_about_shift(
    q: Seq<(u64, Seq<char>)>,
    nv: Seq<(u64, u64)>,
    p0: Seq<(u64, u64)>,
    t0: Seq<(u64, DocumentIoTaskView)>,
    t1: Seq<(u64, DocumentIoTaskView)>,
)
    requires
        asked_about(q, Seq::empty(), nv, t0, t1),
    ensures
        asked_about(q, p0, p0 + nv, t0, t1),
{
    assert(p0 =~= (p0 + nv).subrange(0, p0.len() as int));
    assert forall|k: int| 0 <= k < q.len() implies {
        &&& #[trigger] t1[t0.len() + k] == (t1[t0.len() + k].0, DocumentIoTaskView::CheckAnnouncePolicy { peer_id: q[k].1 })
        &&& (p0 + nv)[p0.len() + k] == (t1[t0.len() + k].0, q[k].0)
    } by {
        assert(nv[0 + k] == (t1[t0.len() + k].0, q[k].0));
        assert((p0 + nv)[p0.len() + k] == nv[k]);
    }
}

/// The announce policy for an answer.
pub open spec fn policy_for(answer: bool) -> AnnouncePolicy {
    if answer { AnnouncePolicy::Announce } else { AnnouncePolicy::DontAnnounce }
}

/// The position of the first announce policy question under task `t`.
pub open spec fn policy_task_pos(tasks: Seq<(u64, u64)>, t: u64) -> int {
    choose|i: int| 0 <= i < tasks.len() && #[trigger] tasks[i].0 == t && forall|j: int| 0 <= j < i ==> tasks[j].0 != t
}

/// The peers with the policy of connection `c` set to `p`.
pub open spec fn peers_with_policy(peers: Seq<(u64, Seq<char>, AnnouncePolicy)>, c: u64, p: AnnouncePolicy) -> Seq<(u64, Seq<char>, AnnouncePolicy)> {
    peers.map_values(|e: (u64, Seq<char>, AnnouncePolicy)| if e.0 == c { (e.0, e.1, p) } else { e })
}

/// The position of the peer on connection `c`.
pub open spec fn peer_pos(peers: Seq<(u64, Seq<char>, AnnouncePolicy)>, c: u64) -> int {
    choose|i: int| 0 <= i < peers.len() && #[trigger] peers[i].0 == c
}

/// The peers without the one on connection `c`.
pub open spec fn peers_without(peers: Seq<(u64, Seq<char>, AnnouncePolicy)>, c: u64) -> Seq<(u64, Seq<char>, AnnouncePolicy)> {
    if has_peer(peers, c) { peers.remove(peer_pos(peers, c)) } else { peers }
}

/// The keys of a list of entries.
pub open spec fn keys_of(e: Seq<(Seq<Seq<char>>, Seq<u8>)>) -> Seq<Seq<Seq<char>>> {
    e.map_values(|x: (Seq<Seq<char>>, Seq<u8>)| x.0)
}

/// The entries a range load gave.
pub open spec fn load_values(sr: StorageResult) -> Seq<(Seq<Seq<char>>, Seq<u8>)> {
    match sr {
        StorageResult::LoadRange { values } => entries_view(values@),
        _ => Seq::empty(),
    }
}

/// A write or delete result for a write or delete that is under way.
pub open spec fn disk_accepts(d: OnDiskView, t: u64, sr: StorageResult) -> bool {
    match sr {
        StorageResult::Put => has_task(d.running_puts, t),
        StorageResult::Delete => has_task(d.running_deletes, t),
        _ => false,
    }
}

/// The error an I/O result brings: one that nothing awaits.
pub open spec fn io_error(v: DocumentActorView, t: IoTaskId, p: DocumentIoResult) -> Option<DocumentError> {
    match p {
        DocumentIoResult::Storage(sr) => if load_awaits(v.load, t.value()) || disk_accepts(v.disk, t.value(), sr) {
            None
        } else {
            Some(DocumentError::UnexpectedStorageResult(t))
        },
        DocumentIoResult::CheckAnnouncePolicy(_) => if has_policy_task(v.policy_tasks, t.value()) {
            None
        } else {
            Some(DocumentError::UnexpectedPolicyCompletion(t))
        },
    }
}

/// The error an input brings.
pub open spec fn input_error(v: DocumentActorView, input: ActorInput) -> Option<DocumentError> {
    match input {
        ActorInput::IoComplete(r) => io_error(v, r.task_id, r.payload),
        _ => None,
    }
}

/// The load after an I/O result: a result it awaits is taken in, and a load
/// that has both its results is done.
pub open spec fn load_after_io(l: LoadStateView, t: u64, p: DocumentIoResult) -> LoadStateView {
    match p {
        DocumentIoResult::Storage(sr) => if load_awaits(l, t) {
            let l1 = load_after_result(l, t, load_values(sr));
            if l1 is Complete { LoadStateView::Idle } else { l1 }
        } else {
            l
        },
        _ => l,
    }
}

/// The keys a load that an I/O result completes read: those of the
/// snapshots, then those of the incremental changes.
pub open spec fn loaded_keys(l: LoadStateView, t: u64, p: DocumentIoResult) -> Seq<Seq<Seq<char>>> {
    match p {
        DocumentIoResult::Storage(sr) => if load_awaits(l, t) {
            match load_after_result(l, t, load_values(sr)) {
                LoadStateView::Complete { snapshots, incrementals } => keys_of(snapshots) + keys_of(incrementals),
                _ => Seq::empty(),
            }
        } else {
            Seq::empty()
        },
        _ => Seq::empty(),
    }
}

/// The peers after an input, before the actor takes its step.
pub open spec fn peers_after_input(v: DocumentActorView, input: ActorInput) -> Seq<(u64, Seq<char>, AnnouncePolicy)> {
    match input {
        ActorInput::NewConnection { connection_id, peer_id } => v.peers.push(
            (connection_id.value(), peer_id@, AnnouncePolicy::Unknown),
        ),
        ActorInput::ConnectionClosed { connection_id } => peers_without(v.peers, connection_id.value()),
        ActorInput::IoComplete(r) => match r.payload {
            DocumentIoResult::CheckAnnouncePolicy(answer) => if has_policy_task(v.policy_tasks, r.task_id.value()) {
                let c = v.policy_tasks[policy_task_pos(v.policy_tasks, r.task_id.value())].1;
                peers_with_policy(v.peers, c, policy_for(answer))
            } else {
                v.peers
            },
            _ => v.peers,
        },
        _ => v.peers,
    }
}

/// The announce policy questions awaited after an input, before the actor
/// takes its step: an answer takes its question out.
pub open spec fn policy_tasks_after_input(v: DocumentActorView, input: ActorInput) -> Seq<(u64, u64)> {
    match input {
        ActorInput::IoComplete(r) => match r.payload {
            DocumentIoResult::CheckAnnouncePolicy(_) => v.policy_tasks.remove(policy_task_pos(v.policy_tasks, r.task_id.value())),
            _ => v.policy_tasks,
        },
        _ => v.policy_tasks,
    }
}

/// The load after an input, before the actor takes its step.
pub open spec fn load_after_input(v: DocumentActorView, input: ActorInput) -> LoadStateView {
    match input {
        ActorInput::Request => if v.load is Idle { LoadStateView::Initial } else { v.load },
        ActorInput::IoComplete(r) => load_after_io(v.load, r.task_id.value(), r.payload),
        _ => v.load,
    }
}

/// The keys a load that the input completes read.
pub open spec fn keys_loaded_by(v: DocumentActorView, input: ActorInput) -> Seq<Seq<Seq<char>>> {
    match input {
        ActorInput::IoComplete(r) => loaded_keys(v.load, r.task_id.value(), r.payload),
        _ => Seq::empty(),
    }
}

/// The run state after an input, before the actor takes its step.
pub open spec fn run_state_after_input(v: DocumentActorView, input: ActorInput) -> RunState {
    if input is Terminate && v.run_state == RunState::Running { RunState::Stopping } else { v.run_state }
}

/// The two range loads a starting load asks for end the task list `t`, and
/// the load waits for them.
pub open spec fn load_started(t: Seq<(u64, DocumentIoTaskView)>, l: LoadStateView, doc: Seq<u8>) -> bool {
    &&& t.len() >= 2
    &&& l matches LoadStateView::WaitingForResults { snapshot_task_id, incremental_task_id, snapshots, incrementals }
        && snapshots is None && incrementals is None
        && t[t.len() - 2] == (snapshot_task_id, DocumentIoTaskView::Storage(
            StorageTaskView::LoadRange { prefix: seq![document_id_text(doc), "snapshot"@] },
        ))
        && t[t.len() - 1] == (incremental_task_id, DocumentIoTaskView::Storage(
            StorageTaskView::LoadRange { prefix: seq![document_id_text(doc), "incremental"@] },
        ))
}

/// The document's new changes were saved: between task lists `t0` and
/// `t1` lie the tasks of `OnDiskState::record_save` for the changes, heads
/// and (when compacting) whole-document bytes that automerge gives for
/// `doc`, taking what is on disk from `d0` to `d1`.
pub open spec fn saved(
    d0: OnDiskView,
    d1: OnDiskView,
    t0: Seq<(u64, DocumentIoTaskView)>,
    t1: Seq<(u64, DocumentIoTaskView)>,
    doc_id: Seq<u8>,
    doc: automerge::Automerge,
) -> bool {
    exists|ta: Seq<(u64, DocumentIoTaskView)>, tb: Seq<(u64, DocumentIoTaskView)>| {
        &&& t0.is_prefix_of(ta)
        &&& ta.is_prefix_of(tb)
        &&& tb.is_prefix_of(t1)
        &&& #[trigger] save_recorded(
            d0,
            ta,
            d1,
            tb,
            doc_id,
            doc_new_changes(doc, d0),
            doc_heads_of(doc),
            snapshot_if_due(doc, d0, doc_new_changes(doc, d0).len()),
        )
    }
}

/// A step of a running actor from `v0` to `v1`, with the tasks going from
/// `t0` to `t1`: every peer whose policy is unknown is asked about, the new
/// changes are saved, and a starting load asks for its two range loads.
pub open spec fn running_step(
    v0: DocumentActorView,
    v1: DocumentActorView,
    t0: Seq<(u64, DocumentIoTaskView)>,
    t1: Seq<(u64, DocumentIoTaskView)>,
) -> bool {
    &&& v1.document_id == v0.document_id
    &&& v1.actor_id == v0.actor_id
    &&& v1.local_peer_id == v0.local_peer_id
    &&& v1.run_state == RunState::Running
    &&& v1.document == v0.document
    &&& v1.ready == v0.ready
    &&& v1.peers == asked(v0.peers)
    &&& v0.policy_tasks.is_prefix_of(v1.policy_tasks)
    &&& t0.is_prefix_of(t1)
    &&& v1.disk.on_disk == v0.disk.on_disk
    &&& v1.disk.deletions.len() == 0
    &&& v1.disk.last_saved_heads is Some
    &&& exists|tq: Seq<(u64, DocumentIoTaskView)>| {
        &&& #[trigger] asked_about(questions(v0.peers), v0.policy_tasks, v1.policy_tasks, t0, tq)
        &&& tq.is_prefix_of(t1)
        &&& saved(v0.disk, v1.disk, tq, t1, v0.document_id, v0.document)
    }
    &&& v0.load is Initial ==> load_started(t1, v1.load, v0.document_id)
    &&& !(v0.load is Initial) ==> v1.load == v0.load
}

/// The storage tasks as document tasks.
pub open spec fn storage_tasks_view(v: Seq<IoTask<StorageTask>>) -> Seq<(u64, DocumentIoTaskView)> {
    v.map_values(|t: IoTask<StorageTask>| (t.task_id.value(), DocumentIoTaskView::Storage(t.action@)))
}

impl DocumentActor {
    /// The actor's state is consistent, and its load is of its document.
    pub closed spec fn wf(&self) -> bool {
        actor_wf(self@) && self.load_state.doc() == self.document_id@
    }

    /// Where the peer on connection `c` is.
    fn find_peer(&self, c: ConnectionId) -> (r: Option<usize>)
        ensures
            match r {
                Some(i) => i < self@.peers.len() && self@.peers[i as int].0 == c.value(),
                None => !has_peer(self@.peers, c.value()),
            },
    {
        let mut i: usize = 0;
        while i < self.peer_connections.len()
            invariant
                i <= self.peer_connections@.len(),
                forall|j: int| 0 <= j < i ==> (#[trigger] self@.peers[j]).0 != c.value(),
            decreases self.peer_connections@.len() - i,
        {
            proof {
                lemma_connection_id_eq(self.peer_connections@[i as int].connection_id, c);
            }
            if self.peer_connections[i].connection_id == c {
                return Some(i);
            }
            i = i + 1;
        }
        None
    }

    /// Takes out the first policy check with task `t`, and returns its
    /// connection.
    fn take_policy_task(&mut self, t: IoTaskId) -> (r: Option<ConnectionId>)
        ensures
            has_policy_task(old(self)@.policy_tasks, t.value()) ==> {
                let k = policy_task_pos(old(self)@.policy_tasks, t.value());
                &&& r matches Some(c) && c.value() == old(self)@.policy_tasks[k].1
                &&& final(self)@ == (DocumentActorView { policy_tasks: old(self)@.policy_tasks.remove(k), ..old(self)@ })
            },
            !has_policy_task(old(self)@.policy_tasks, t.value()) ==> r is None && final(self)@ == old(self)@,
            old(self).wf() ==> final(self).wf(),
    {
        let ghost v = self@;
        let mut i: usize = 0;
        while i < self.check_policy_tasks.len()
            invariant
                i <= self.check_policy_tasks@.len(),
                v == self@,
                v == old(self)@,
                self.load_state.doc() == old(self).load_state.doc(),
                self.document_id@ == old(self).document_id@,
                forall|j: int| 0 <= j < i ==> (#[trigger] v.policy_tasks[j]).0 != t.value(),
            decreases self.check_policy_tasks@.len() - i,
        {
            proof {
                lemma_task_id_eq(self.check_policy_tasks@[i as int].0, t);
            }
            if self.check_policy_tasks[i].0 == t {
                let (_, c) = self.check_policy_tasks.remove(i);
                proof {
                    assert(v.policy_tasks[i as int].0 == t.value());
                    assert(has_policy_task(v.policy_tasks, t.value()));
                    assert(0 <= i < v.policy_tasks.len() && v.policy_tasks[i as int].0 == t.value()
                        && forall|j: int| 0 <= j < i ==> v.policy_tasks[j].0 != t.value());
                    let k = policy_task_pos(v.policy_tasks, t.value());
                    if k < i {
                        assert(v.policy_tasks[k].0 != t.value());
                    } else if k > i {
                        assert(v.policy_tasks[i as int].0 != t.value());
                    }
                    assert(k == i);
                    assert(self@.policy_tasks =~= v.policy_tasks.remove(i as int));
                }
                return Some(c);
            }
            i = i + 1;
        }
        None
    }

    /// Asks about every peer whose announce policy is unknown.
    fn enqueue_announce_policy_checks(&mut self, out: &mut DocActorResult)
        ensures
            final(self)@ == (DocumentActorView {
                peers: asked(old(self)@.peers),
                policy_tasks: final(self)@.policy_tasks,
                ..old(self)@
            }),
            old(self)@.policy_tasks.is_prefix_of(final(self)@.policy_tasks),
            old(out).tasks().is_prefix_of(final(out).tasks()),
            asked_about(questions(old(self)@.peers), old(self)@.policy_tasks, final(self)@.policy_tasks, old(out).tasks(), final(out).tasks()),
            final(out).outgoing_messages@ == old(out).outgoing_messages@,
            final(out).stopped == old(out).stopped,
            old(self).wf() ==> final(self).wf(),
    {
        let ghost v = self@;
        let ghost t0 = out.tasks();
        let mut peers: Vec<PeerDocConnection> = Vec::new();
        std::mem::swap(&mut peers, &mut self.peer_connections);
        let mut done: Vec<PeerDocConnection> = Vec::new();
        let mut new_tasks: Vec<(IoTaskId, ConnectionId)> = Vec::new();
        let n = peers.len();
        let ghost pv = peers_view(peers@);
        while peers.len() > 0
            invariant
                pv.len() == n,
                done@.len() + peers@.len() == n,
                peers_view(peers@) == pv.skip(done@.len() as int),
                peers_view(done@) == asked(pv.take(done@.len() as int)),
                t0.is_prefix_of(out.tasks()),
                asked_about(questions(pv.take(done@.len() as int)), Seq::empty(), policy_tasks_view(new_tasks@), t0, out.tasks()),
                out.outgoing_messages@ == old(out).outgoing_messages@,
                out.stopped == old(out).stopped,
            decreases peers@.len(),
        {
            let ghost k = done@.len() as int;
            let ghost db = peers_view(done@);
            let ghost ob = out.tasks();
            let ghost pb = peers@;
            let ghost nb = policy_tasks_view(new_tasks@);
            let ghost qb = questions(pv.take(done@.len() as int));
            let p = peers.remove(0);
            proof {
                assert(peers_view(pb)[0] == pv.skip(k)[0]);
                assert forall|x: int| 0 <= x < peers@.len() implies #[trigger] peers_view(peers@)[x] == pv.skip(k + 1)[x] by {
                    assert(peers@[x] == pb[x + 1]);
                    assert(peers_view(pb)[x + 1] == pv.skip(k)[x + 1]);
                }
                assert(peers_view(peers@) =~= pv.skip(k + 1));
                assert(pv[k] == (p.connection_id.value(), p.peer_id@, p.announce_policy));
                assert(pv.take(k + 1) =~= pv.take(k).push(pv[k]));
                assert(pv.take(k + 1).drop_last() =~= pv.take(k));
                assert(pv.take(k + 1).last() == pv[k]);
            }
            let policy = if p.announce_policy == AnnouncePolicy::Unknown {
                let task_id = out.check_announce_policy(p.peer_id.duplicate());
                new_tasks.push((task_id, p.connection_id));
                proof {
                    assert(ob.is_prefix_of(out.tasks())) by {
                        assert(ob =~= out.tasks().subrange(0, ob.len() as int));
                    }
                    assert forall|x: int| 0 <= x < t0.len() implies #[trigger] out.tasks()[x] == t0[x] by {
                        assert(t0[x] == ob.subrange(0, t0.len() as int)[x]);
                        assert(ob[x] == out.tasks().subrange(0, ob.len() as int)[x]);
                    }
                    assert(t0 =~= out.tasks().subrange(0, t0.len() as int));
                    let q1 = questions(pv.take(k + 1));
                    assert(q1 =~= qb.push((pv[k].0, pv[k].1)));
                    assert(policy_tasks_view(new_tasks@) =~= nb.push((task_id.value(), p.connection_id.value())));
                    assert(out.tasks() =~= ob.push((task_id.value(), DocumentIoTaskView::CheckAnnouncePolicy { peer_id: p.peer_id@ })));
                    assert forall|j: int| 0 <= j < q1.len() implies {
                        &&& #[trigger] out.tasks()[t0.len() + j] == (out.tasks()[t0.len() + j].0, DocumentIoTaskView::CheckAnnouncePolicy { peer_id: q1[j].1 })
                        &&& policy_tasks_view(new_tasks@)[0 + j] == (out.tasks()[t0.len() + j].0, q1[j].0)
                    } by {
                        if j < qb.len() {
                            assert(out.tasks()[t0.len() + j] == ob[t0.len() + j]);
                            assert(ob[t0.len() + j] == (ob[t0.len() + j].0, DocumentIoTaskView::CheckAnnouncePolicy { peer_id: qb[j].1 }));
                            assert(nb[0 + j] == (ob[t0.len() + j].0, qb[j].0));
                        }
                    }
                    assert(asked_about(q1, Seq::empty(), policy_tasks_view(new_tasks@), t0, out.tasks()));
                }
                AnnouncePolicy::Loading
            } else {
                proof {
                    assert(questions(pv.take(k + 1)) =~= qb);
                }
                p.announce_policy
            };
            done.push(PeerDocConnection { peer_id: p.peer_id, connection_id: p.connection_id, announce_policy: policy });
            proof {
                assert(peers_view(done@) =~= db.push(if pv[k].2 == AnnouncePolicy::Unknown {
                    (pv[k].0, pv[k].1, AnnouncePolicy::Loading)
                } else {
                    pv[k]
                }));
                assert(peers_view(done@) =~= asked(pv.take(k + 1)));
            }
        }
        proof {
            assert(pv.take(n as int) =~= pv);
        }
        self.peer_connections = done;
        let ghost q0 = self@.policy_tasks;
        let ghost nv = policy_tasks_view(new_tasks@);
        self.check_policy_tasks.append(&mut new_tasks);
        proof {
            assert(self@.policy_tasks =~= q0 + nv);
            assert(q0 =~= self@.policy_tasks.subrange(0, q0.len() as int));
            lemma_asked_about_shift(questions(pv), nv, q0, t0, out.tasks());
        }
    }
}


impl DocumentActor {
    /// Adds a peer on a new connection; its announce policy is unknown.
    fn add_connection(&mut self, connection_id: ConnectionId, peer_id: PeerId)
        requires
            old(self).wf(),
            !has_peer(old(self)@.peers, connection_id.value()),
        ensures
            final(self).wf(),
            final(self)@ == (DocumentActorView {
                peers: old(self)@.peers.push((connection_id.value(), peer_id@, AnnouncePolicy::Unknown)),
                ..old(self)@
            }),
    {
        let ghost p0 = self@.peers;
        self.peer_connections.push(PeerDocConnection { peer_id, connection_id, announce_policy: AnnouncePolicy::Unknown });
        proof {
            assert(self@.peers =~= p0.push((connection_id.value(), peer_id@, AnnouncePolicy::Unknown)));
            assert forall|i: int, j: int| 0 <= i < j < self@.peers.len() implies #[trigger] self@.peers[i].0
                != #[trigger] self@.peers[j].0 by {
                if j == p0.len() {
                    assert(p0[i].0 == self@.peers[i].0);
                }
            }
        }
    }

    /// Removes the peer on a connection, if there is one.
    fn remove_connection(&mut self, connection_id: ConnectionId)
        requires
            old(self).wf(),
        ensures
            final(self).wf(),
            final(self)@ == (DocumentActorView { peers: peers_without(old(self)@.peers, connection_id.value()), ..old(self)@ }),
    {
        let ghost p0 = self@.peers;
        match self.find_peer(connection_id) {
            Some(i) => {
                proof {
                    let k = peer_pos(p0, connection_id.value());
                    assert(has_peer(p0, connection_id.value()));
                    assert(p0[k].0 == connection_id.value());
                    if k != i {
                        if k < i {
                            assert(p0[k].0 != p0[i as int].0);
                        } else {
                            assert(p0[i as int].0 != p0[k].0);
                        }
                    }
                }
                let _ = self.peer_connections.remove(i);
                proof {
                    assert(self@.peers =~= p0.remove(i as int));
                    assert forall|a: int, b: int| 0 <= a < b < self@.peers.len() implies #[trigger] self@.peers[a].0
                        != #[trigger] self@.peers[b].0 by {
                        let a0 = if a < i { a } else { a + 1 };
                        let b0 = if b < i { b } else { b + 1 };
                        assert(self@.peers[a] == p0[a0]);
                        assert(self@.peers[b] == p0[b0]);
                    }
                }
            },
            None => {},
        }
    }

    /// Sets the announce policy of the peer on a connection, if there is one.
    fn set_policy(&mut self, connection_id: ConnectionId, policy: AnnouncePolicy)
        requires
            old(self).wf(),
        ensures
            final(self).wf(),
            final(self)@ == (DocumentActorView {
                peers: peers_with_policy(old(self)@.peers, connection_id.value(), policy),
                ..old(self)@
            }),
    {
        let ghost p0 = self@.peers;
        match self.find_peer(connection_id) {
            Some(i) => {
                let mut p = self.peer_connections.remove(i);
                p.announce_policy = policy;
                self.peer_connections.insert(i, p);
                proof {
                    assert forall|j: int| 0 <= j < p0.len() implies #[trigger] self@.peers[j]
                        == peers_with_policy(p0, connection_id.value(), policy)[j] by {
                        if j != i {
                            if j < i {
                                assert(p0[j].0 != p0[i as int].0);
                            } else {
                                assert(p0[i as int].0 != p0[j].0);
                            }
                        }
                    }
                    assert(self@.peers =~= peers_with_policy(p0, connection_id.value(), policy));
                }
            },
            None => {
                proof {
                    assert forall|j: int| 0 <= j < p0.len() implies #[trigger] p0[j]
                        == peers_with_policy(p0, connection_id.value(), policy)[j] by {
                        assert(p0[j].0 != connection_id.value());
                    }
                    assert(p0 =~= peers_with_policy(p0, connection_id.value(), policy));
                }
            },
        }
    }
}

impl DocumentActor {
    /// Takes an I/O result: a range load for the load, a write or delete for
    /// what is on disk, an announce policy answer for the peer it was asked
    /// about. A load that then has both results is taken in: its keys are
    /// on disk.
    fn handle_io_result(&mut self, io_result: IoResult<DocumentIoResult>) -> (r: Result<(), DocumentError>)
        requires
            old(self).wf(),
            input_allowed(old(self)@, ActorInput::IoComplete(io_result)),
        ensures
            final(self).wf(),
            io_error(old(self)@, io_result.task_id, io_result.payload) matches Some(e) ==> r == Err::<(), DocumentError>(e)
                && final(self)@ == old(self)@,
            io_error(old(self)@, io_result.task_id, io_result.payload) is None ==> {
                &&& r is Ok
                &&& final(self)@.document_id == old(self)@.document_id
                &&& final(self)@.actor_id == old(self)@.actor_id
                &&& final(self)@.local_peer_id == old(self)@.local_peer_id
                &&& final(self)@.run_state == old(self)@.run_state
                &&& final(self)@.document == old(self)@.document
                &&& final(self)@.ready == old(self)@.ready
                &&& final(self)@.peers == peers_after_input(old(self)@, ActorInput::IoComplete(io_result))
                &&& final(self)@.load == load_after_io(old(self)@.load, io_result.task_id.value(), io_result.payload)
                &&& load_awaits(old(self)@.load, io_result.task_id.value()) && io_result.payload is Storage
                    ==> final(self)@.disk == (OnDiskView {
                        on_disk: insert_all(
                            old(self)@.disk.on_disk,
                            loaded_keys(old(self)@.load, io_result.task_id.value(), io_result.payload),
                        ),
                        ..old(self)@.disk
                    })
                &&& io_result.payload is CheckAnnouncePolicy ==> final(self)@.disk == old(self)@.disk
                &&& io_result.payload is CheckAnnouncePolicy ==> final(self)@.policy_tasks == old(self)@.policy_tasks.remove(
                    policy_task_pos(old(self)@.policy_tasks, io_result.task_id.value()),
                )
                &&& io_result.payload is Storage ==> final(self)@.policy_tasks == old(self)@.policy_tasks
            },
    {
        let ghost v0 = self@;
        let ghost payload = io_result.payload;
        let task_id = io_result.task_id;
        match io_result.payload {
            DocumentIoResult::Storage(storage_result) => {
                if self.load_state.has_task(task_id) {
                    self.load_state.handle_result(task_id, storage_result);
                } else if self.on_disk_state.has_task(task_id) {
                    match self.on_disk_state.task_complete(task_id, storage_result) {
                        Err(e) => {
                            return Err(e);
                        },
                        Ok(()) => {},
                    }
                } else {
                    return Err(DocumentError::UnexpectedStorageResult(task_id));
                }
            },
            DocumentIoResult::CheckAnnouncePolicy(should_announce) => {
                match self.take_policy_task(task_id) {
                    None => {
                        return Err(DocumentError::UnexpectedPolicyCompletion(task_id));
                    },
                    Some(conn_id) => {
                        let policy = if should_announce {
                            AnnouncePolicy::Announce
                        } else {
                            AnnouncePolicy::DontAnnounce
                        };
                        proof {
                            assert forall|i: int, j: int| 0 <= i < j < self@.peers.len() implies #[trigger] self@.peers[i].0
                                != #[trigger] self@.peers[j].0 by {
                                assert(self@.peers == v0.peers);
                            }
                        }
                        self.set_policy(conn_id, policy);
                    },
                }
            },
        }
        let ghost v1 = self@;
        match self.load_state.take_complete() {
            Some(c) => {
                let mut keys: Vec<StorageKey> = Vec::new();
                push_keys(&c.snapshots, &mut keys);
                push_keys(&c.incrementals, &mut keys);
                proof {
                    assert(keys_view(Seq::<StorageKey>::empty()) =~= Seq::<Seq<Seq<char>>>::empty());
                    assert(keys_view(keys@) =~= loaded_keys(v0.load, task_id.value(), payload));
                }
                self.on_disk_state.add_keys(keys);
            },
            None => {
                proof {
                    if load_awaits(v0.load, task_id.value()) && payload is Storage {
                        assert(loaded_keys(v0.load, task_id.value(), payload) =~= Seq::<Seq<Seq<char>>>::empty());
                        assert(insert_all(v0.disk.on_disk, Seq::empty()) == v0.disk.on_disk);
                    }
                }
            },
        }
        Ok(())
    }
}

impl DocumentActor {
    /// Queues the storage tasks as document tasks.
    fn queue_storage_tasks(out: &mut DocActorResult, tasks: Vec<IoTask<StorageTask>>)
        ensures
            final(out).tasks() == old(out).tasks() + storage_tasks_view(tasks@),
            final(out).outgoing_messages@ == old(out).outgoing_messages@,
            final(out).ephemeral_messages@ == old(out).ephemeral_messages@,
            final(out).change_events@ == old(out).change_events@,
            final(out).stopped == old(out).stopped,
    {
        let ghost t0 = out.tasks();
        let ghost sv = storage_tasks_view(tasks@);
        let mut rest = tasks;
        let ghost n = rest@.len();
        while rest.len() > 0
            invariant
                sv.len() == n,
                rest@.len() <= n,
                storage_tasks_view(rest@) == sv.skip(n - rest@.len()),
                out.tasks() == t0 + sv.take(n - rest@.len()),
                out.outgoing_messages@ == old(out).outgoing_messages@,
                out.ephemeral_messages@ == old(out).ephemeral_messages@,
                out.change_events@ == old(out).change_events@,
                out.stopped == old(out).stopped,
            decreases rest@.len(),
        {
            let ghost k = n - rest@.len();
            let ghost before = out.tasks();
            let ghost rb = rest@;
            let t = rest.remove(0);
            out.io_tasks.push(IoTask { task_id: t.task_id, action: DocumentIoTask::Storage(t.action) });
            proof {
                assert(storage_tasks_view(rb)[0] == sv.skip(k)[0]);
                assert(sv[k] == (t.task_id.value(), DocumentIoTaskView::Storage(t.action@)));
                assert(out.tasks() =~= before.push(sv[k]));
                assert(sv.take(k + 1) =~= sv.take(k).push(sv[k]));
                assert forall|x: int| 0 <= x < rest@.len() implies #[trigger] storage_tasks_view(rest@)[x] == sv.skip(k + 1)[x] by {
                    assert(rest@[x] == rb[x + 1]);
                    assert(storage_tasks_view(rb)[x + 1] == sv.skip(k)[x + 1]);
                }
                assert(storage_tasks_view(rest@) =~= sv.skip(k + 1));
            }
        }
        proof {
            assert(sv.take(n as int) =~= sv);
        }
    }

    /// Takes a step: a stopped actor refuses; a stopping actor stops once
    /// its writes are done, and tells the hub; a running actor asks about
    /// peers whose announce policy is unknown, saves its new changes, and
    /// lets its load ask for what it needs.
    fn step(&mut self, out: &mut DocActorResult) -> (r: Result<(), DocumentError>)
        requires
            old(self).wf(),
        ensures
            final(self).wf(),
            old(self)@.run_state == RunState::Stopped ==> r == Err::<(), DocumentError>(DocumentError::ActorStopped)
                && final(self)@ == old(self)@ && *final(out) == *old(out),
            old(self)@.run_state == RunState::Stopping ==> {
                let flushed = old(self)@.disk.running_puts.len() == 0;
                &&& r is Ok
                &&& final(self)@ == (DocumentActorView {
                    run_state: if flushed { RunState::Stopped } else { RunState::Stopping },
                    ..old(self)@
                })
                &&& final(out).io_tasks@ == old(out).io_tasks@
                &&& final(out).outgoing_messages@ == if flushed {
                    old(out).outgoing_messages@.push(DocToHubMsgPayload::Terminated)
                } else {
                    old(out).outgoing_messages@
                }
                &&& final(out).stopped == (flushed || old(out).stopped)
            },
            old(self)@.run_state == RunState::Running ==> {
                &&& r is Ok
                &&& running_step(old(self)@, final(self)@, old(out).tasks(), final(out).tasks())
                &&& final(out).outgoing_messages@ == old(out).outgoing_messages@
                &&& final(out).stopped == old(out).stopped
            },
    {
        if self.run_state == RunState::Stopped {
            return Err(DocumentError::ActorStopped);
        }
        if self.run_state == RunState::Stopping {
            if self.on_disk_state.is_flushed() {
                self.run_state = RunState::Stopped;
                out.send_message(DocToHubMsgPayload::Terminated);
                out.stopped = true;
            }
            return Ok(());
        }
        let ghost v0 = self@;
        let ghost t0 = out.tasks();
        self.enqueue_announce_policy_checks(out);
        let ghost t1 = out.tasks();
        proof {
            assert(self@.disk == v0.disk);
            assert(self@.document == v0.document);
        }
        self.on_disk_state.save_new_changes(out, &self.document_id, &self.document);
        let ghost t2 = out.tasks();
        let ghost d2 = self@.disk;
        let ghost l0 = self.load_state.state();
        let load_tasks = self.load_state.step();
        let ghost lt = load_tasks@;
        DocumentActor::queue_storage_tasks(out, load_tasks);
        proof {
            assert(t0.is_prefix_of(out.tasks())) by {
                assert forall|i: int| 0 <= i < t0.len() implies #[trigger] out.tasks()[i] == t0[i] by {
                    assert(t1[i] == t0[i]);
                    assert(t2[i] == t1[i]);
                    assert(out.tasks()[i] == t2[i]);
                }
            }
            let t3 = out.tasks();
            assert(t0.is_prefix_of(t1));
            assert(t2.is_prefix_of(t3)) by {
                assert forall|i: int| 0 <= i < t2.len() implies #[trigger] t3[i] == t2[i] by {
                    assert(t3[i] == t2[i]);
                }
            }
            assert(self@.disk == d2);
            assert(save_recorded(v0.disk, t1, d2, t2, v0.document_id, doc_new_changes(v0.document, v0.disk), doc_heads_of(v0.document),
                snapshot_if_due(v0.document, v0.disk, doc_new_changes(v0.document, v0.disk).len())));
            assert(saved(v0.disk, self@.disk, t1, t3, v0.document_id, v0.document)) by {
                assert(t1.is_prefix_of(t1)) by {
                    assert(t1 =~= t1.subrange(0, t1.len() as int));
                }
            }
            assert(t1.is_prefix_of(t3)) by {
                assert forall|i: int| 0 <= i < t1.len() implies #[trigger] t3[i] == t1[i] by {
                    assert(t2[i] == t1[i]);
                }
            }
            assert(asked_about(questions(v0.peers), v0.policy_tasks, self@.policy_tasks, t0, t1));
            if l0 is Initial {
                assert(t3.len() == t2.len() + 2);
                assert(t3[t3.len() - 2] == storage_tasks_view(lt)[0]);
                assert(t3[t3.len() - 1] == storage_tasks_view(lt)[1]);
            }
            assert(self@.peers == asked(v0.peers));
            assert forall|i: int, j: int| 0 <= i < j < self@.peers.len() implies #[trigger] self@.peers[i].0
                != #[trigger] self@.peers[j].0 by {
                assert(self@.peers[i].0 == v0.peers[i].0);
                assert(self@.peers[j].0 == v0.peers[j].0);
            }
        }
        Ok(())
    }
}

/// The input is the result of a write or delete: its effect on what is on
/// disk is `OnDiskState::task_complete`'s.
pub open spec fn input_for_disk(v: DocumentActorView, input: ActorInput) -> bool {
    input matches ActorInput::IoComplete(r) && r.payload is Storage && !load_awaits(v.load, r.task_id.value())
}

/// What handling `input` in state `v0` does: the actor goes to `v1`, and
/// the result's tasks, messages and stop flag go from `t0`, `m0`, `s0` to
/// `t1`, `m1`, `s1`.
pub open spec fn input_handled(
    v0: DocumentActorView,
    input: ActorInput,
    v1: DocumentActorView,
    t0: Seq<(u64, DocumentIoTaskView)>,
    m0: Seq<DocToHubMsgPayload>,
    s0: bool,
    t1: Seq<(u64, DocumentIoTaskView)>,
    m1: Seq<DocToHubMsgPayload>,
    s1: bool,
    r: Result<(), DocumentError>,
) -> bool {
    let rs = run_state_after_input(v0, input);
    let l = load_after_input(v0, input);
    let peers = peers_after_input(v0, input);
    &&& input_error(v0, input) matches Some(e) ==> r == Err::<(), DocumentError>(e) && v1 == v0 && t1 == t0 && m1 == m0 && s1 == s0
    &&& input_error(v0, input) is None ==> {
        &&& v1.document_id == v0.document_id
        &&& v1.actor_id == v0.actor_id
        &&& v1.local_peer_id == v0.local_peer_id
        &&& v1.document == v0.document
        &&& v1.ready == v0.ready
        &&& !input_for_disk(v0, input) ==> v1.disk.on_disk == insert_all(v0.disk.on_disk, keys_loaded_by(v0, input))
        &&& rs == RunState::Stopped ==> {
            &&& r == Err::<(), DocumentError>(DocumentError::ActorStopped)
            &&& v1.run_state == RunState::Stopped
            &&& v1.peers == peers
            &&& v1.load == l
            &&& t1 == t0 && m1 == m0 && s1 == s0
        }
        &&& rs != RunState::Running && !input_for_disk(v0, input) ==> v1.disk
            == (OnDiskView { on_disk: insert_all(v0.disk.on_disk, keys_loaded_by(v0, input)), ..v0.disk })
        &&& rs == RunState::Stopping ==> {
            &&& r is Ok
            &&& v1.run_state != RunState::Running
            &&& (v1.run_state == RunState::Stopped <==> v1.disk.running_puts.len() == 0)
            &&& v1.run_state == RunState::Stopped ==> s1 && m1 == m0.push(DocToHubMsgPayload::Terminated)
            &&& v1.run_state == RunState::Stopping ==> s1 == s0 && m1 == m0
            &&& t1 == t0
            &&& v1.peers == peers
            &&& v1.load == l
        }
        &&& rs == RunState::Running ==> {
            &&& r is Ok
            &&& v1.run_state == RunState::Running
            &&& v1.peers == asked(peers)
            &&& t0.is_prefix_of(t1)
            &&& l is Initial ==> load_started(t1, v1.load, v0.document_id)
            &&& !(l is Initial) ==> v1.load == l
            &&& v1.disk.deletions.len() == 0
            &&& v1.disk.last_saved_heads is Some
            &&& exists|tq: Seq<(u64, DocumentIoTaskView)>| {
                &&& #[trigger] asked_about(questions(peers), policy_tasks_after_input(v0, input), v1.policy_tasks, t0, tq)
                &&& tq.is_prefix_of(t1)
                &&& !input_for_disk(v0, input) ==> saved(
                    OnDiskView { on_disk: insert_all(v0.disk.on_disk, keys_loaded_by(v0, input)), ..v0.disk },
                    v1.disk,
                    tq,
                    t1,
                    v0.document_id,
                    v0.document,
                )
            }
            &&& m1 == m0
            &&& s1 == s0
        }
    }
}

impl DocumentActor {
    /// Handles an input, then takes a step.
    ///
    /// `Terminate` makes a running actor stop once its writes are done: it
    /// is then stopped at once if none is under way, and tells the hub. An
    /// I/O result that nothing awaits is refused with
    /// `UnexpectedStorageResult` or `UnexpectedPolicyCompletion`, and
    /// changes nothing. A load that an I/O result completes puts the keys
    /// it read on disk. A stopped actor takes the input and then refuses the
    /// step with `ActorStopped`.
    pub fn handle_input(&mut self, _now: UnixTimestamp, input: ActorInput, out: &mut DocActorResult) -> (r: Result<(), DocumentError>)
        requires
            old(self).wf(),
            input_allowed(old(self)@, input),
        ensures
            final(self).wf(),
            input_handled(
                old(self)@,
                input,
                final(self)@,
                old(out).tasks(),
                old(out).outgoing_messages@,
                old(out).stopped,
                final(out).tasks(),
                final(out).outgoing_messages@,
                final(out).stopped,
                r,
            ),
    {
        match input {
            ActorInput::Terminate => {
                if self.run_state == RunState::Running {
                    self.run_state = RunState::Stopping;
                }
                assert(self@.peers == old(self)@.peers);
            },
            ActorInput::NewConnection { connection_id, peer_id } => {
                self.add_connection(connection_id, peer_id);
            },
            ActorInput::ConnectionClosed { connection_id } => {
                self.remove_connection(connection_id);
            },
            ActorInput::Request => {
                self.load_state.begin();
                assert(self@.peers == old(self)@.peers);
            },
            ActorInput::IoComplete(io_result) => {
                match self.handle_io_result(io_result) {
                    Err(e) => {
                        return Err(e);
                    },
                    Ok(()) => {},
                }
            },
            ActorInput::Tick => {},
        }
        proof {
            assert(insert_all(old(self)@.disk.on_disk, Seq::empty()) == old(self)@.disk.on_disk);
        }
        let ghost vm = self@;
        let ghost tm = out.tasks();
        let r = self.step(out);
        proof {
            assert(vm.peers == peers_after_input(old(self)@, input));
            assert(vm.policy_tasks == policy_tasks_after_input(old(self)@, input));
            if !input_for_disk(old(self)@, input) {
                assert(vm.disk == (OnDiskView {
                    on_disk: insert_all(old(self)@.disk.on_disk, keys_loaded_by(old(self)@, input)),
                    ..old(self)@.disk
                }));
            }
            if vm.run_state == RunState::Running {
                let tq = choose|tq: Seq<(u64, DocumentIoTaskView)>| {
                    &&& #[trigger] asked_about(questions(vm.peers), vm.policy_tasks, self@.policy_tasks, tm, tq)
                    &&& tq.is_prefix_of(out.tasks())
                    &&& saved(vm.disk, self@.disk, tq, out.tasks(), vm.document_id, vm.document)
                };
                assert(asked_about(
                    questions(peers_after_input(old(self)@, input)),
                    policy_tasks_after_input(old(self)@, input),
                    self@.policy_tasks,
                    tm,
                    tq,
                ));
            }
        }
        r
    }
}

/// Stopping takes the writes under way into account: a running actor told
/// to terminate while a write is under way keeps quiet and waits; an I/O
/// result that something awaits and that leaves no write under way then
/// stops it, and it tells the hub it terminated; after that, every input is
/// refused with `ActorStopped`.
pub proof fn lemma_stop_after_last_write(
    v0: DocumentActorView,
    v1: DocumentActorView,
    v2: DocumentActorView,
    io: IoResult<DocumentIoResult>,
    later: ActorInput,
    v3: DocumentActorView,
    t: Seq<Seq<(u64, DocumentIoTaskView)>>,
    m: Seq<Seq<DocToHubMsgPayload>>,
    s: Seq<bool>,
    r1: Result<(), DocumentError>,
    r2: Result<(), DocumentError>,
    r3: Result<(), DocumentError>,
)
    requires
        t.len() == 6 && m.len() == 6 && s.len() == 6,
        v0.run_state == RunState::Running,
        v0.disk.running_puts.len() > 0,
        input_handled(v0, ActorInput::Terminate, v1, t[0], m[0], s[0], t[1], m[1], s[1], r1),
        input_handled(v1, ActorInput::IoComplete(io), v2, t[2], m[2], s[2], t[3], m[3], s[3], r2),
        io_error(v1, io.task_id, io.payload) is None,
        v2.disk.running_puts.len() == 0,
        input_handled(v2, later, v3, t[4], m[4], s[4], t[5], m[5], s[5], r3),
        input_error(v2, later) is None,
    ensures
        r1 is Ok && v1.run_state == RunState::Stopping && m[1] == m[0] && s[1] == s[0],
        r2 is Ok && v2.run_state == RunState::Stopped && s[3] && m[3] == m[2].push(DocToHubMsgPayload::Terminated),
        r3 == Err::<(), DocumentError>(DocumentError::ActorStopped),
{
}

/// The peers of a list of initial connections, their announce policies
/// unknown.
pub open spec fn initial_peers(v: Seq<(u64, Seq<char>, Option<DocMessageView>)>) -> Seq<(u64, Seq<char>, AnnouncePolicy)> {
    v.map_values(|e: (u64, Seq<char>, Option<DocMessageView>)| (e.0, e.1, AnnouncePolicy::Unknown))
}

/// The input a message from the hub brings.
pub open spec fn input_of(m: HubToDocMsgPayload) -> ActorInput {
    match m {
        HubToDocMsgPayload::Terminate => ActorInput::Terminate,
        HubToDocMsgPayload::NewConnection { connection_id, peer_id } => ActorInput::NewConnection { connection_id, peer_id },
        HubToDocMsgPayload::ConnectionClosed { connection_id } => ActorInput::ConnectionClosed { connection_id },
        _ => ActorInput::Request,
    }
}

/// The tasks of a result, none for an error.
pub open spec fn result_tasks(r: Result<DocActorResult, DocumentError>) -> Seq<(u64, DocumentIoTaskView)> {
    match r {
        Ok(o) => o.tasks(),
        Err(_) => Seq::empty(),
    }
}

/// The messages of a result, none for an error.
pub open spec fn result_messages(r: Result<DocActorResult, DocumentError>) -> Seq<DocToHubMsgPayload> {
    match r {
        Ok(o) => o.outgoing_messages@,
        Err(_) => Seq::empty(),
    }
}

/// The stop flag of a result, unset for an error.
pub open spec fn result_stopped(r: Result<DocActorResult, DocumentError>) -> bool {
    match r {
        Ok(o) => o.stopped,
        Err(_) => false,
    }
}

/// Whether a result is an error, and which.
pub open spec fn result_unit(r: Result<DocActorResult, DocumentError>) -> Result<(), DocumentError> {
    match r {
        Ok(_) => Ok(()),
        Err(e) => Err(e),
    }
}

impl DocumentActor {
    /// A running actor for a document. With initial content the document is
    /// ready at once, and the hub is told so; either way a load of what
    /// storage holds starts. The peers of the initial connections are added,
    /// and asked about. The sync messages that came with them are for the
    /// sync protocol, which this crate does not hold.
    pub fn new(_now: UnixTimestamp, args: SpawnArgs) -> (r: (DocumentActor, DocActorResult))
        requires
            forall|i: int, j: int| 0 <= i < j < args.initial_connections@.len()
                ==> #[trigger] args.initial_connections@[i].0.value() != #[trigger] args.initial_connections@[j].0.value(),
        ensures
            r.0.wf(),
            r.0@.document_id == args.document_id@,
            r.0@.actor_id == args.actor_id.value(),
            r.0@.local_peer_id == args.local_peer_id@,
            r.0@.run_state == RunState::Running,
            r.0@.ready == args.initial_content is Some,
            args.initial_content matches Some(d) ==> r.0@.document == d,
            r.0@.peers == asked(initial_peers(initial_connections_view(args.initial_connections@))),
            r.0@.disk.on_disk.len() == 0,
            r.0@.disk.last_saved_heads is Some,
            load_started(r.1.tasks(), r.0@.load, args.document_id@),
            r.1.outgoing_messages@ == if args.initial_content is Some {
                seq![DocToHubMsgPayload::DocumentStatusChanged { new_status: DocumentStatus::Ready }]
            } else {
                Seq::<DocToHubMsgPayload>::empty()
            },
            !r.1.stopped,
    {
        let ghost iv = initial_peers(initial_connections_view(args.initial_connections@));
        let ghost has_content = args.initial_content is Some;
        let SpawnArgs { actor_id, local_peer_id, document_id, initial_content, initial_connections } = args;
        let mut out = DocActorResult::new();
        let (document, ready) = match initial_content {
            Some(doc) => {
                out.send_message(DocToHubMsgPayload::DocumentStatusChanged { new_status: DocumentStatus::Ready });
                (doc, true)
            },
            None => (empty_document(), false),
        };
        let mut load_state = Load::new(document_id.duplicate());
        load_state.begin();
        let mut actor = DocumentActor {
            document_id,
            id: actor_id,
            local_peer_id,
            document,
            load_state,
            on_disk_state: OnDiskState::new(),
            peer_connections: Vec::new(),
            check_policy_tasks: Vec::new(),
            run_state: RunState::Running,
            ready,
        };
        let ghost v0 = actor@;
        proof {
            assert(actor@.peers =~= iv.take(0));
        }
        let mut rest = initial_connections;
        let ghost n = rest@.len();
        while rest.len() > 0
            invariant
                actor.wf(),
                iv.len() == n,
                rest@.len() <= n,
                initial_peers(initial_connections_view(rest@)) == iv.skip(n - rest@.len()),
                forall|i: int, j: int| 0 <= i < j < iv.len() ==> #[trigger] iv[i].0 != #[trigger] iv[j].0,
                actor@ == (DocumentActorView { peers: iv.take(n - rest@.len()), ..v0 }),
            decreases rest@.len(),
        {
            let ghost k = n - rest@.len();
            let ghost rb = rest@;
            let (connection_id, peer_id, _message) = rest.remove(0);
            proof {
                assert(initial_peers(initial_connections_view(rb))[0] == iv.skip(k)[0]);
                assert(iv[k] == (connection_id.value(), peer_id@, AnnouncePolicy::Unknown));
                if has_peer(actor@.peers, connection_id.value()) {
                    let i = choose|i: int| 0 <= i < actor@.peers.len() && #[trigger] actor@.peers[i].0 == connection_id.value();
                    assert(actor@.peers[i] == iv.take(k)[i]);
                    assert(iv.take(k)[i] == iv[i]);
                    assert(iv[i].0 != iv[k].0);
                }
                assert forall|x: int| 0 <= x < rest@.len() implies #[trigger] initial_peers(initial_connections_view(rest@))[x]
                    == iv.skip(k + 1)[x] by {
                    assert(rest@[x] == rb[x + 1]);
                    assert(initial_peers(initial_connections_view(rb))[x + 1] == iv.skip(k)[x + 1]);
                }
                assert(initial_peers(initial_connections_view(rest@)) =~= iv.skip(k + 1));
                assert(iv.take(k + 1) =~= iv.take(k).push(iv[k]));
            }
            actor.add_connection(connection_id, peer_id);
        }
        proof {
            assert(iv.take(n as int) =~= iv);
        }
        let _ = actor.step(&mut out);
        (actor, out)
    }

    /// Handles an I/O result, as `handle_input` says, in a fresh result. A
    /// stopped actor refuses it with `ActorStopped`.
    pub fn handle_io_complete(&mut self, now: UnixTimestamp, io_result: IoResult<DocumentIoResult>) -> (r: Result<DocActorResult, DocumentError>)
        requires
            old(self).wf(),
            input_allowed(old(self)@, ActorInput::IoComplete(io_result)),
        ensures
            final(self).wf(),
            old(self)@.run_state == RunState::Stopped ==> r == Err::<DocActorResult, DocumentError>(DocumentError::ActorStopped)
                && final(self)@ == old(self)@,
            old(self)@.run_state != RunState::Stopped ==> input_handled(
                old(self)@,
                ActorInput::IoComplete(io_result),
                final(self)@,
                Seq::empty(),
                Seq::empty(),
                false,
                result_tasks(r),
                result_messages(r),
                result_stopped(r),
                result_unit(r),
            ),
    {
        if self.run_state == RunState::Stopped {
            return Err(DocumentError::ActorStopped);
        }
        let mut out = DocActorResult::new();
        proof {
            assert(out.tasks() =~= Seq::empty());
            assert(out.outgoing_messages@ =~= Seq::empty());
        }
        match self.handle_input(now, ActorInput::IoComplete(io_result), &mut out) {
            Ok(()) => Ok(out),
            Err(e) => Err(e),
        }
    }

    /// Handles a message from the hub, as `handle_input` says, in a fresh
    /// result; `RequestAgain` asks for the document. A stopped actor refuses
    /// it with `ActorStopped`. Sync messages from peers are for the sync
    /// protocol, which this crate does not hold.
    pub fn handle_message(&mut self, now: UnixTimestamp, message: HubToDocMsgPayload) -> (r: Result<DocActorResult, DocumentError>)
        requires
            old(self).wf(),
            !(message is HandleDocMessage),
            input_allowed(old(self)@, input_of(message)),
        ensures
            final(self).wf(),
            old(self)@.run_state == RunState::Stopped ==> r == Err::<DocActorResult, DocumentError>(DocumentError::ActorStopped)
                && final(self)@ == old(self)@,
            old(self)@.run_state != RunState::Stopped ==> input_handled(
                old(self)@,
                input_of(message),
                final(self)@,
                Seq::empty(),
                Seq::empty(),
                false,
                result_tasks(r),
                result_messages(r),
                result_stopped(r),
                result_unit(r),
            ),
    {
        if self.run_state == RunState::Stopped {
            return Err(DocumentError::ActorStopped);
        }
        let input = match message {
            HubToDocMsgPayload::Terminate => ActorInput::Terminate,
            HubToDocMsgPayload::NewConnection { connection_id, peer_id } => ActorInput::NewConnection { connection_id, peer_id },
            HubToDocMsgPayload::ConnectionClosed { connection_id } => ActorInput::ConnectionClosed { connection_id },
            _ => ActorInput::Request,
        };
        let mut out = DocActorResult::new();
        proof {
            assert(out.tasks() =~= Seq::empty());
            assert(out.outgoing_messages@ =~= Seq::empty());
        }
        match self.handle_input(now, input, &mut out) {
            Ok(()) => Ok(out),
            Err(e) => Err(e),
        }
    }

    /// Whether the document is ready: it came with the actor. Loading it
    /// from storage or from peers is the sync protocol's, which this crate
    /// does not hold.
    pub fn is_document_ready(&self) -> (r: bool)
        ensures
            r == self@.ready,
    {
        self.ready
    }

    /// Whether the actor has stopped.
    pub fn is_stopped(&self) -> (r: bool)
        ensures
            r == (self@.run_state == RunState::Stopped),
    {
        self.run_state == RunState::Stopped
    }

    /// The document the actor runs.
    pub fn document_id(&self) -> (r: &DocumentId)
        ensures
            r@ == self@.document_id,
    {
        &self.document_id
    }

    /// Sends a new ephemeral message of our own to every peer.
    pub fn broadcast(&self, _now: UnixTimestamp, msg: Vec<u8>) -> (r: DocActorResult)
        ensures
            r.tasks().len() == 0,
            !r.stopped,
            r.outgoing_messages@.len() == 1,
            r.outgoing_messages@[0] matches DocToHubMsgPayload::Broadcast { connections, msg: Broadcast::New { msg: m } }
                && m@ == msg@ && connections@.map_values(|c: ConnectionId| c.value())
                == self@.peers.map_values(|p: (u64, Seq<char>, AnnouncePolicy)| p.0),
    {
        let ghost pv = self@.peers;
        let mut connections: Vec<ConnectionId> = Vec::new();
        let mut i: usize = 0;
        while i < self.peer_connections.len()
            invariant
                i <= self.peer_connections@.len(),
                pv == self@.peers,
                connections@.len() == i,
                connections@.map_values(|c: ConnectionId| c.value())
                    == pv.take(i as int).map_values(|p: (u64, Seq<char>, AnnouncePolicy)| p.0),
            decreases self.peer_connections@.len() - i,
        {
            let ghost before = connections@;
            connections.push(self.peer_connections[i].connection_id);
            proof {
                assert(pv[i as int].0 == self.peer_connections@[i as int].connection_id.value());
                assert(connections@ =~= before.push(self.peer_connections@[i as int].connection_id));
                assert(pv.take(i + 1) =~= pv.take(i as int).push(pv[i as int]));
                assert forall|x: int| 0 <= x < i + 1 implies #[trigger] connections@[x].value() == pv.take(i + 1)[x].0 by {
                    if x < i {
                        assert(connections@[x] == before[x]);
                        assert(before.map_values(|c: ConnectionId| c.value())[x] == before[x].value());
                        assert(pv.take(i as int).map_values(|p: (u64, Seq<char>, AnnouncePolicy)| p.0)[x] == pv.take(i as int)[x].0);
                    }
                }
                assert(connections@.map_values(|c: ConnectionId| c.value())
                    =~= pv.take(i + 1).map_values(|p: (u64, Seq<char>, AnnouncePolicy)| p.0));
            }
            i = i + 1;
        }
        proof {
            assert(pv.take(pv.len() as int) =~= pv);
        }
        let mut out = DocActorResult::new();
        let ghost mv = msg@;
        out.send_message(DocToHubMsgPayload::Broadcast { connections, msg: Broadcast::New { msg } });
        out
    }
}

/// Appends the keys of a list of entries.
fn push_keys(entries: &Vec<(StorageKey, Vec<u8>)>, keys: &mut Vec<StorageKey>)
    ensures
        keys_view(final(keys)@) == keys_view(old(keys)@) + keys_of(entries_view(entries@)),
{
    let ghost k0 = keys_view(keys@);
    let ghost ev = keys_of(entries_view(entries@));
    let mut i: usize = 0;
    while i < entries.len()
        invariant
            i <= entries@.len(),
            ev == keys_of(entries_view(entries@)),
            keys_view(keys@) == k0 + ev.take(i as int),
        decreases entries@.len() - i,
    {
        let ghost before = keys_view(keys@);
        keys.push(entries[i].0.duplicate());
        proof {
            assert(ev[i as int] == entries@[i as int].0@);
            assert(keys_view(keys@) =~= before.push(ev[i as int]));
            assert(ev.take(i + 1) =~= ev.take(i as int).push(ev[i as int]));
        }
        i = i + 1;
    }
    proof {
        assert(ev.take(entries@.len() as int) =~= ev);
    }
}

} // verus!
