//! The hub: the connections of a peer, the document actors it runs, and the
//! commands it is working on.

use vstd::prelude::*;
use vstd::string::StringExecFns;

use crate::connection::{
    connection_after_receive, receive_events_view, results_after_reply, spec_receive, ReceiveEvent, ReceiveEventView,
    protocol_version, phase_subs, phase_wf, phase_with_subs, spec_info, subs_has, subs_set, Connection, ConnectionView, PhaseView,
};
use crate::network::{empty_doc_state, PeerDocState, PeerDocStateView};
use crate::ephemera::{next_count, record_seen, seen, EphemeralSession, EphemeralSessionView};
use crate::hub_results::{
    CommandId, CommandResult, CommandResultView, HubIoAction, HubIoActionView, HubIoResult, HubResults, HubResultsView,
};
use crate::ids::{DocumentId, PeerId, StorageId};
use crate::io::IoResult;
use crate::messages::spec_wire_from_sync;
use crate::messages::{
    lemma_actor_id_eq, opt_doc_message_view, EphemeralMessageView, Broadcast, DocMessage, EphemeralMessage, DocMessageView, DocToHubMsgPayload, DocumentActorId,
    DocumentStatus, HubToDocMsgPayload, HubToDocMsgView, SpawnArgs, SpawnArgsView, wire_from_sync,
};
use crate::network::{
    lemma_connection_id_eq, ConnDirection, ConnectionEvent, ConnectionEventView, PeerInfo, ConnectionId, ConnectionInfo, ConnectionInfoView, PeerMetadata,
};
use crate::ids::DOCUMENT_ID_LEN;
use crate::wire_decode::{decode_error_text, spec_decode};
use crate::timestamp::UnixTimestamp;
use crate::wire_protocol::{spec_encode, PeerMetadataView, WireMessage, WireMessageView};

verus! {

/// Whether the hub is running, stopping, or stopped.
#[derive(Debug, Clone, Copy, PartialEq, Eq, Structural)]
pub enum RunState {
    Running,
    /// Waiting for the document actors to stop.
    Stopping,
    Stopped,
}

/// What the hub knows of a document actor.
#[derive(Debug)]
pub struct ActorInfo {
    pub actor_id: DocumentActorId,
    pub document_id: DocumentId,
    pub status: DocumentStatus,
}

/// A command for the hub.
#[derive(Debug)]
pub enum Command {
    /// Open a connection in the given direction.
    CreateConnection { direction: ConnDirection },
    /// Bytes arrived on a connection.
    Receive { connection_id: ConnectionId, msg: Vec<u8> },
    /// An actor reports that it is ready.
    ActorReady { document_id: DocumentId },
    /// Create a new document with this content.
    CreateDocument { content: automerge::Automerge },
    /// Find a document, in storage or at the peers.
    FindDocument { document_id: DocumentId },
}

/// An input for the hub.
#[derive(Debug)]
pub enum HubInput {
    /// Stop the hub.
    Stop,
    /// Run a command.
    Command { command_id: CommandId, command: Command },
    /// Nothing new; run the periodic checks.
    Tick,
    /// A message from a document actor.
    ActorMessage { actor_id: DocumentActorId, message: DocToHubMsgPayload },
    /// A connection was lost outside the hub.
    ConnectionLost { connection_id: ConnectionId },
}

/// An event for the hub: an input, or the result of I/O it asked for.
#[derive(Debug)]
pub enum HubEvent {
    IoComplete(IoResult<HubIoResult>),
    Input(HubInput),
}

/// A command event and the ID under which its result will come.
#[derive(Debug)]
pub struct DispatchedCommand {
    pub command_id: CommandId,
    pub event: HubEvent,
}

impl HubEvent {
    /// A command event with a fresh ID.
    pub fn command(command: Command) -> (r: DispatchedCommand)
        ensures
            r.event matches HubEvent::Input(HubInput::Command { command_id, command: c })
                && command_id == r.command_id && c == command,
    {
        let command_id = CommandId::new();
        DispatchedCommand { command_id, event: HubEvent::Input(HubInput::Command { command_id, command }) }
    }

    /// A command to open a connection.
    pub fn create_connection(direction: ConnDirection) -> (r: DispatchedCommand)
        ensures
            r.event matches HubEvent::Input(HubInput::Command { command_id, command: Command::CreateConnection { direction: d } })
                && command_id == r.command_id && d == direction,
    {
        HubEvent::command(Command::CreateConnection { direction })
    }

    /// A command to create a document with this content.
    pub fn create_document(content: automerge::Automerge) -> (r: DispatchedCommand)
        ensures
            r.event matches HubEvent::Input(HubInput::Command { command_id, command: Command::CreateDocument { .. } })
                && command_id == r.command_id,
    {
        HubEvent::command(Command::CreateDocument { content })
    }

    /// A command to find a document.
    pub fn find_document(document_id: DocumentId) -> (r: DispatchedCommand)
        ensures
            r.event matches HubEvent::Input(HubInput::Command { command_id, command: Command::FindDocument { document_id: d } })
                && command_id == r.command_id && d@ == document_id@,
    {
        let ghost dv = document_id@;
        HubEvent::command(Command::FindDocument { document_id })
    }

    /// A command for bytes that arrived on a connection.
    pub fn receive(connection_id: ConnectionId, msg: Vec<u8>) -> (r: DispatchedCommand)
        ensures
            r.event matches HubEvent::Input(HubInput::Command { command_id, command: Command::Receive { connection_id: c, msg: m } })
                && command_id == r.command_id && c == connection_id && m@ == msg@,
    {
        let ghost mv = msg@;
        HubEvent::command(Command::Receive { connection_id, msg })
    }

    /// The stop event.
    pub fn stop() -> (r: HubEvent)
        ensures
            r matches HubEvent::Input(HubInput::Stop),
    {
        HubEvent::Input(HubInput::Stop)
    }

    /// The tick event.
    pub fn tick() -> (r: HubEvent)
        ensures
            r matches HubEvent::Input(HubInput::Tick),
    {
        HubEvent::Input(HubInput::Tick)
    }

    /// A message from a document actor.
    pub fn actor_message(actor_id: DocumentActorId, message: DocToHubMsgPayload) -> (r: HubEvent)
        ensures
            r matches HubEvent::Input(HubInput::ActorMessage { actor_id: a, message: m }) && a == actor_id && m == message,
    {
        HubEvent::Input(HubInput::ActorMessage { actor_id, message })
    }

    /// The result of a network I/O action.
    pub fn io_complete(result: IoResult<HubIoResult>) -> (r: HubEvent)
        ensures
            r matches HubEvent::IoComplete(x) && x == result,
    {
        HubEvent::IoComplete(result)
    }

    /// A connection was lost outside the hub.
    pub fn connection_lost(connection_id: ConnectionId) -> (r: HubEvent)
        ensures
            r matches HubEvent::Input(HubInput::ConnectionLost { connection_id: c }) && c == connection_id,
    {
        HubEvent::Input(HubInput::ConnectionLost { connection_id })
    }
}

/// Commands waiting for a document actor.
#[derive(Debug)]
pub struct PendingCommands {
    finds: Vec<(DocumentId, CommandId)>,
    creates: Vec<(DocumentActorId, CommandId)>,
    completed: Vec<(CommandId, CommandResult)>,
}

/// The abstract value of [`PendingCommands`].
pub struct PendingView {
    /// Find commands per document.
    pub finds: Seq<(Seq<u8>, u64)>,
    /// Create commands per actor.
    pub creates: Seq<(u64, u64)>,
    /// Finished commands not yet handed out.
    pub completed: Seq<(u64, CommandResultView)>,
}

impl View for PendingCommands {
    type V = PendingView;

    closed spec fn view(&self) -> PendingView {
        PendingView {
            finds: self.finds@.map_values(|e: (DocumentId, CommandId)| (e.0@, e.1.value())),
            creates: self.creates@.map_values(|e: (DocumentActorId, CommandId)| (e.0.value(), e.1.value())),
            completed: self.completed@.map_values(|e: (CommandId, CommandResult)| (e.0.value(), e.1@)),
        }
    }
}

/// The entries of `v` whose document is not `d`.
pub open spec fn finds_without(v: Seq<(Seq<u8>, u64)>, d: Seq<u8>) -> Seq<(Seq<u8>, u64)> {
    v.filter(|e: (Seq<u8>, u64)| e.0 != d)
}

/// The commands of `v` that wait for document `d`, in order.
pub open spec fn finds_for(v: Seq<(Seq<u8>, u64)>, d: Seq<u8>) -> Seq<(Seq<u8>, u64)> {
    v.filter(|e: (Seq<u8>, u64)| e.0 == d)
}

/// The entries of `v` whose actor is not `a`.
pub open spec fn creates_without(v: Seq<(u64, u64)>, a: u64) -> Seq<(u64, u64)> {
    v.filter(|e: (u64, u64)| e.0 != a)
}

/// The commands of `v` that wait for actor `a`, in order.
pub open spec fn creates_for(v: Seq<(u64, u64)>, a: u64) -> Seq<(u64, u64)> {
    v.filter(|e: (u64, u64)| e.0 == a)
}

/// The results of find commands: whether the document was found, and by
/// which actor.
pub open spec fn find_results(v: Seq<(Seq<u8>, u64)>, found: bool, actor: u64) -> Seq<(u64, CommandResultView)> {
    v.map_values(|e: (Seq<u8>, u64)| (e.1, CommandResultView::FindDocument { found, actor_id: actor }))
}

/// The results of create commands: the new document and its actor.
pub open spec fn create_results(v: Seq<(u64, u64)>, d: Seq<u8>, actor: u64) -> Seq<(u64, CommandResultView)> {
    v.map_values(|e: (u64, u64)| (e.1, CommandResultView::CreateDocument { document_id: d, actor_id: actor }))
}

proof fn lemma_creates_push(s: Seq<(u64, u64)>, x: (u64, u64), a: u64)
    ensures
        creates_for(s.push(x), a) == if x.0 == a { creates_for(s, a).push(x) } else { creates_for(s, a) },
        creates_without(s.push(x), a) == if x.0 != a { creates_without(s, a).push(x) } else { creates_without(s, a) },
{
    reveal_with_fuel(Seq::<(u64, u64)>::filter, 1);
    assert(s.push(x).drop_last() =~= s);
}

proof fn lemma_finds_push(s: Seq<(Seq<u8>, u64)>, x: (Seq<u8>, u64), d: Seq<u8>)
    ensures
        finds_for(s.push(x), d) == if x.0 == d { finds_for(s, d).push(x) } else { finds_for(s, d) },
        finds_without(s.push(x), d) == if x.0 != d { finds_without(s, d).push(x) } else { finds_without(s, d) },
{
    reveal_with_fuel(Seq::<(Seq<u8>, u64)>::filter, 1);
    assert(s.push(x).drop_last() =~= s);
}

proof fn lemma_creates_split(s: Seq<(u64, u64)>, a: u64)
    ensures
        forall|k: int| 0 <= k < creates_for(s, a).len() ==> (#[trigger] creates_for(s, a)[k]).0 == a && s.contains(creates_for(s, a)[k]),
    decreases s.len(),
{
    if s.len() == 0 {
        reveal_with_fuel(Seq::<(u64, u64)>::filter, 1);
    } else {
        let init = s.drop_last();
        let x = s.last();
        lemma_creates_split(init, a);
        lemma_creates_push(init, x, a);
        assert(init.push(x) =~= s);
        let f0 = creates_for(init, a);
        let f1 = creates_for(s, a);
        assert forall|k: int| 0 <= k < f1.len() implies (#[trigger] f1[k]).0 == a && s.contains(f1[k]) by {
            if k < f0.len() {
                assert(f1[k] == f0[k]);
                let i = choose|i: int| 0 <= i < init.len() && init[i] == f0[k];
                assert(s[i] == init[i]);
            } else {
                assert(f1[k] == x);
                assert(s[s.len() - 1] == x);
            }
        }
    }
}

proof fn lemma_finds_split(s: Seq<(Seq<u8>, u64)>, d: Seq<u8>)
    ensures
        forall|k: int| 0 <= k < finds_for(s, d).len() ==> (#[trigger] finds_for(s, d)[k]).0 == d && s.contains(finds_for(s, d)[k]),
        forall|j: int| 0 <= j < s.len() && (#[trigger] s[j]).0 == d ==> finds_for(s, d).contains(s[j]),
        forall|k: int| 0 <= k < finds_without(s, d).len() ==> (#[trigger] finds_without(s, d)[k]).0 != d,
    decreases s.len(),
{
    if s.len() == 0 {
        reveal_with_fuel(Seq::<(Seq<u8>, u64)>::filter, 1);
    } else {
        let init = s.drop_last();
        let x = s.last();
        lemma_finds_split(init, d);
        lemma_finds_push(init, x, d);
        assert(init.push(x) =~= s);
        let f0 = finds_for(init, d);
        let f1 = finds_for(s, d);
        assert forall|k: int| 0 <= k < f1.len() implies (#[trigger] f1[k]).0 == d && s.contains(f1[k]) by {
            if k < f0.len() {
                assert(f1[k] == f0[k]);
                let i = choose|i: int| 0 <= i < init.len() && init[i] == f0[k];
                assert(s[i] == init[i]);
            } else {
                assert(f1[k] == x);
                assert(s[s.len() - 1] == x);
            }
        }
        assert forall|j: int| 0 <= j < s.len() && (#[trigger] s[j]).0 == d implies f1.contains(s[j]) by {
            if j < init.len() {
                assert(s[j] == init[j]);
                let k = choose|k: int| 0 <= k < f0.len() && f0[k] == init[j];
                assert(f1[k] == f0[k]);
            } else {
                assert(f1[f1.len() - 1] == x);
            }
        }
        let w0 = finds_without(init, d);
        let w1 = finds_without(s, d);
        assert forall|k: int| 0 <= k < w1.len() implies (#[trigger] w1[k]).0 != d by {
            if k < w0.len() {
                assert(w1[k] == w0[k]);
            }
        }
    }
}

impl PendingCommands {
    /// No commands waiting.
    pub fn new() -> (r: PendingCommands)
        ensures
            r@.finds.len() == 0,
            r@.creates.len() == 0,
            r@.completed.len() == 0,
    {
        PendingCommands { finds: Vec::new(), creates: Vec::new(), completed: Vec::new() }
    }

    /// A find command now waits for document `d`.
    pub fn add_pending_find_command(&mut self, d: DocumentId, c: CommandId)
        ensures
            final(self)@ == (PendingView { finds: old(self)@.finds.push((d@, c.value())), ..old(self)@ }),
    {
        let ghost before = self@;
        let ghost dv = d@;
        self.finds.push((d, c));
        proof {
            assert(self@.finds =~= before.finds.push((dv, c.value())));
            assert(self@.creates =~= before.creates);
            assert(self@.completed =~= before.completed);
        }
    }

    /// A create command now waits for actor `a`.
    pub fn add_pending_create_command(&mut self, a: DocumentActorId, c: CommandId)
        ensures
            final(self)@ == (PendingView { creates: old(self)@.creates.push((a.value(), c.value())), ..old(self)@ }),
    {
        let ghost before = self@;
        self.creates.push((a, c));
        proof {
            assert(self@.creates =~= before.creates.push((a.value(), c.value())));
            assert(self@.finds =~= before.finds);
            assert(self@.completed =~= before.completed);
        }
    }

    /// Whether a create command waits for actor `a`.
    pub fn has_pending_create(&self, a: DocumentActorId) -> (r: bool)
        ensures
            r == exists|i: int| 0 <= i < self@.creates.len() && #[trigger] self@.creates[i].0 == a.value(),
    {
        let ghost v = self@.creates;
        let mut i: usize = 0;
        while i < self.creates.len()
            invariant
                i <= self.creates@.len(),
                v == self@.creates,
                forall|j: int| 0 <= j < i ==> v[j].0 != a.value(),
            decreases self.creates@.len() - i,
        {
            proof {
                assert(v[i as int] == (self.creates@[i as int].0.value(), self.creates@[i as int].1.value()));
                lemma_actor_id_eq(self.creates@[i as int].0, a);
            }
            if self.creates[i].0 == a {
                proof {
                    assert(v[i as int].0 == a.value());
                }
                return true;
            }
            i = i + 1;
        }
        false
    }

    /// Completes every create command waiting for actor `a`: the document
    /// `d` was created.
    pub fn resolve_pending_create(&mut self, a: DocumentActorId, d: &DocumentId)
        ensures
            final(self)@ == (PendingView {
                creates: creates_without(old(self)@.creates, a.value()),
                completed: old(self)@.completed + create_results(creates_for(old(self)@.creates, a.value()), d@, a.value()),
                ..old(self)@
            }),
    {
        let ghost before = self@;
        let mut kept: Vec<(DocumentActorId, CommandId)> = Vec::new();
        let mut i: usize = 0;
        while i < self.creates.len()
            invariant
                i <= self.creates@.len(),
                before.creates == self@.creates,
                before.finds == self@.finds,
                kept@.map_values(|e: (DocumentActorId, CommandId)| (e.0.value(), e.1.value()))
                    == creates_without(before.creates.take(i as int), a.value()),
                self@.completed == before.completed + create_results(creates_for(before.creates.take(i as int), a.value()), d@, a.value()),
            decreases self.creates@.len() - i,
        {
            let (actor, cmd) = self.creates[i];
            let ghost prefix = before.creates.take(i as int);
            proof {
                assert(before.creates[i as int] == (actor.value(), cmd.value()));
                lemma_actor_id_eq(actor, a);
                assert(before.creates.take(i + 1) =~= prefix.push(before.creates[i as int]));
            }
            if actor == a {
                let ghost c0 = self@.completed;
                self.completed.push((cmd, CommandResult::CreateDocument { document_id: d.duplicate(), actor_id: a }));
                proof {
                    lemma_creates_push(prefix, before.creates[i as int], a.value());
                    assert(self@.completed =~= c0.push((cmd.value(), CommandResultView::CreateDocument { document_id: d@, actor_id: a.value() })));
                    assert(create_results(creates_for(before.creates.take(i + 1), a.value()), d@, a.value())
                        =~= create_results(creates_for(prefix, a.value()), d@, a.value()).push((cmd.value(), CommandResultView::CreateDocument { document_id: d@, actor_id: a.value() })));
                }
            } else {
                let ghost k0 = kept@;
                kept.push((actor, cmd));
                proof {
                    lemma_creates_push(prefix, before.creates[i as int], a.value());
                    assert(kept@.map_values(|e: (DocumentActorId, CommandId)| (e.0.value(), e.1.value()))
                        =~= k0.map_values(|e: (DocumentActorId, CommandId)| (e.0.value(), e.1.value())).push((actor.value(), cmd.value())));
                }
            }
            i = i + 1;
        }
        self.creates = kept;
        proof {
            assert(before.creates.take(before.creates.len() as int) =~= before.creates);
        }
    }

    /// Completes every find command waiting for document `d`: found or not,
    /// by actor `a`.
    pub fn resolve_pending_find(&mut self, d: &DocumentId, a: DocumentActorId, found: bool)
        ensures
            final(self)@ == (PendingView {
                finds: finds_without(old(self)@.finds, d@),
                completed: old(self)@.completed + find_results(finds_for(old(self)@.finds, d@), found, a.value()),
                ..old(self)@
            }),
    {
        let ghost before = self@;
        let mut kept: Vec<(DocumentId, CommandId)> = Vec::new();
        let mut i: usize = 0;
        while i < self.finds.len()
            invariant
                i <= self.finds@.len(),
                before.finds == self@.finds,
                before.creates == self@.creates,
                kept@.map_values(|e: (DocumentId, CommandId)| (e.0@, e.1.value()))
                    == finds_without(before.finds.take(i as int), d@),
                self@.completed == before.completed + find_results(finds_for(before.finds.take(i as int), d@), found, a.value()),
            decreases self.finds@.len() - i,
        {
            let ghost prefix = before.finds.take(i as int);
            proof {
                assert(before.finds.take(i + 1) =~= prefix.push(before.finds[i as int]));
            }
            let cmd = self.finds[i].1;
            proof {
                assert(before.finds[i as int] == (self.finds@[i as int].0@, cmd.value()));
            }
            if self.finds[i].0.same_as(d) {
                let ghost c0 = self@.completed;
                self.completed.push((cmd, CommandResult::FindDocument { found, actor_id: a }));
                proof {
                    lemma_finds_push(prefix, before.finds[i as int], d@);
                    assert(self@.completed =~= c0.push((cmd.value(), CommandResultView::FindDocument { found, actor_id: a.value() })));
                    assert(find_results(finds_for(before.finds.take(i + 1), d@), found, a.value())
                        =~= find_results(finds_for(prefix, d@), found, a.value()).push((cmd.value(), CommandResultView::FindDocument { found, actor_id: a.value() })));
                }
            } else {
                let ghost k0 = kept@;
                let entry = (self.finds[i].0.duplicate(), cmd);
                kept.push(entry);
                proof {
                    lemma_finds_push(prefix, before.finds[i as int], d@);
                    assert(kept@.map_values(|e: (DocumentId, CommandId)| (e.0@, e.1.value()))
                        =~= k0.map_values(|e: (DocumentId, CommandId)| (e.0@, e.1.value())).push(before.finds[i as int]));
                }
            }
            i = i + 1;
        }
        self.finds = kept;
        proof {
            assert(before.finds.take(before.finds.len() as int) =~= before.finds);
        }
    }

    /// Hands out the finished commands.
    pub fn pop_completed_commands(&mut self) -> (r: Vec<(CommandId, CommandResult)>)
        ensures
            r@.map_values(|e: (CommandId, CommandResult)| (e.0.value(), e.1@)) == old(self)@.completed,
            final(self)@ == (PendingView { completed: Seq::empty(), ..old(self)@ }),
    {
        let mut out: Vec<(CommandId, CommandResult)> = Vec::new();
        std::mem::swap(&mut out, &mut self.completed);
        proof {
            assert(self@.completed =~= Seq::empty());
        }
        out
    }
}


/// The hub's state: our peer and storage, our connections, our document
/// actors, and the commands waiting for them.
#[derive(Debug)]
pub struct Hub {
    storage_id: StorageId,
    peer_id: PeerId,
    actors: Vec<ActorInfo>,
    connections: Vec<Connection>,
    document_to_actor: Vec<(DocumentId, DocumentActorId)>,
    pending: PendingCommands,
    ephemeral_session: EphemeralSession,
    run_state: RunState,
}

/// The abstract value of the [`Hub`].
pub struct HubView {
    pub storage_id: Seq<char>,
    pub peer_id: Seq<char>,
    /// Actor, document, status.
    pub actors: Seq<(u64, Seq<u8>, DocumentStatus)>,
    pub conns: Seq<ConnectionView>,
    /// Document, actor.
    pub docs: Seq<(Seq<u8>, u64)>,
    pub pending: PendingView,
    pub session: EphemeralSessionView,
    pub run_state: RunState,
}

/// The view of a list of connections.
pub open spec fn conns_view(cs: Seq<Connection>) -> Seq<ConnectionView> {
    cs.map_values(|c: Connection| c@)
}

/// The view of the actor list.
pub open spec fn actors_view(v: Seq<ActorInfo>) -> Seq<(u64, Seq<u8>, DocumentStatus)> {
    v.map_values(|a: ActorInfo| (a.actor_id.value(), a.document_id@, a.status))
}

/// The view of the document-to-actor list.
pub open spec fn docs_view(v: Seq<(DocumentId, DocumentActorId)>) -> Seq<(Seq<u8>, u64)> {
    v.map_values(|e: (DocumentId, DocumentActorId)| (e.0@, e.1.value()))
}

impl View for Hub {
    type V = HubView;

    closed spec fn view(&self) -> HubView {
        HubView {
            storage_id: self.storage_id@,
            peer_id: self.peer_id@,
            actors: actors_view(self.actors@),
            conns: conns_view(self.connections@),
            docs: docs_view(self.document_to_actor@),
            pending: self.pending@,
            session: self.ephemeral_session@,
            run_state: self.run_state,
        }
    }
}

/// Connection IDs are distinct, and each connection keeps each subscribed
/// document once.
pub open spec fn conns_wf(cs: Seq<ConnectionView>) -> bool {
    &&& forall|i: int, j: int| 0 <= i < j < cs.len() ==> #[trigger] cs[i].id != #[trigger] cs[j].id
    &&& forall|i: int| 0 <= i < cs.len() ==> phase_wf(#[trigger] cs[i].phase)
}

/// Actor IDs are distinct.
pub open spec fn actors_wf(v: Seq<(u64, Seq<u8>, DocumentStatus)>) -> bool {
    forall|i: int, j: int| 0 <= i < j < v.len() ==> #[trigger] v[i].0 != #[trigger] v[j].0
}

/// Each document has one entry.
pub open spec fn docs_wf(v: Seq<(Seq<u8>, u64)>) -> bool {
    forall|i: int, j: int| 0 <= i < j < v.len() ==> #[trigger] v[i].0 != #[trigger] v[j].0
}

/// The hub's lists have distinct keys.
pub open spec fn hub_wf(h: HubView) -> bool {
    &&& conns_wf(h.conns)
    &&& actors_wf(h.actors)
    &&& docs_wf(h.docs)
}

/// There is a connection with this ID.
pub open spec fn has_conn(cs: Seq<ConnectionView>, id: u64) -> bool {
    exists|i: int| 0 <= i < cs.len() && #[trigger] cs[i].id == id
}

/// The hub has connection `c`, and its handshake is not done: the peer
/// has not answered yet.
pub open spec fn handshaking(cs: Seq<ConnectionView>, c: u64) -> bool {
    exists|i: int| 0 <= i < cs.len() && #[trigger] cs[i].id == c && !(cs[i].phase is Established) && !(cs[i].phase is Closed)
}

proof fn lemma_put_handshaking(cs: Seq<ConnectionView>, x: ConnectionView)
    requires
        !(x.phase is Established),
        !(x.phase is Closed),
    ensures
        handshaking(conns_put(cs, x), x.id),
{
    if has_conn(cs, x.id) {
        let p = conn_pos(cs, x.id);
        assert(conns_put(cs, x)[p] == x);
    } else {
        assert(conns_put(cs, x)[cs.len() as int] == x);
    }
}

/// The position of the connection with this ID.
pub open spec fn conn_pos(cs: Seq<ConnectionView>, id: u64) -> int {
    choose|i: int| 0 <= i < cs.len() && #[trigger] cs[i].id == id
}

/// The established connections, with their peers, in order.
pub open spec fn established_of(cs: Seq<ConnectionView>) -> Seq<(u64, Seq<char>)>
    decreases cs.len(),
{
    if cs.len() == 0 {
        Seq::empty()
    } else {
        let rest = established_of(cs.drop_last());
        match cs.last().phase {
            PhaseView::Established { remote_peer_id, .. } => rest.push((cs.last().id, remote_peer_id)),
            _ => rest,
        }
    }
}

/// Some established connection is with this peer.
pub open spec fn connected_to(cs: Seq<ConnectionView>, p: Seq<char>) -> bool {
    exists|i: int| 0 <= i < cs.len() && (#[trigger] cs[i]).phase is Established && cs[i].phase->remote_peer_id == p
}

/// There is an actor with this ID.
pub open spec fn has_actor(v: Seq<(u64, Seq<u8>, DocumentStatus)>, a: u64) -> bool {
    exists|i: int| 0 <= i < v.len() && #[trigger] v[i].0 == a
}

/// The position of the actor with this ID.
pub open spec fn actor_pos(v: Seq<(u64, Seq<u8>, DocumentStatus)>, a: u64) -> int {
    choose|i: int| 0 <= i < v.len() && #[trigger] v[i].0 == a
}

/// There is an entry for this document.
pub open spec fn has_doc(v: Seq<(Seq<u8>, u64)>, d: Seq<u8>) -> bool {
    exists|i: int| 0 <= i < v.len() && #[trigger] v[i].0 == d
}

/// The position of the entry for this document.
pub open spec fn doc_pos(v: Seq<(Seq<u8>, u64)>, d: Seq<u8>) -> int {
    choose|i: int| 0 <= i < v.len() && #[trigger] v[i].0 == d
}

/// The actor that runs document `d`, if the hub has both the entry and the
/// actor.
pub open spec fn actor_for_document(h: HubView, d: Seq<u8>) -> Option<(u64, Seq<u8>, DocumentStatus)> {
    if has_doc(h.docs, d) && has_actor(h.actors, h.docs[doc_pos(h.docs, d)].1) {
        Some(h.actors[actor_pos(h.actors, h.docs[doc_pos(h.docs, d)].1)])
    } else {
        None
    }
}

impl Hub {
    /// A running hub with no connections and no actors.
    pub fn new(storage_id: StorageId, peer_id: PeerId, ephemeral_session: EphemeralSession) -> (r: Hub)
        ensures
            r@.storage_id == storage_id@,
            r@.peer_id == peer_id@,
            r@.actors.len() == 0,
            r@.conns.len() == 0,
            r@.docs.len() == 0,
            r@.pending.finds.len() == 0,
            r@.pending.creates.len() == 0,
            r@.pending.completed.len() == 0,
            r@.session == ephemeral_session@,
            r@.run_state == RunState::Running,
            hub_wf(r@),
    {
        Hub {
            storage_id,
            peer_id,
            actors: Vec::new(),
            connections: Vec::new(),
            document_to_actor: Vec::new(),
            pending: PendingCommands::new(),
            ephemeral_session,
            run_state: RunState::Running,
        }
    }

    /// The ID of the storage this hub uses.
    pub fn storage_id(&self) -> (r: StorageId)
        ensures
            r@ == self@.storage_id,
    {
        self.storage_id.duplicate()
    }

    /// Our peer ID.
    pub fn peer_id(&self) -> (r: &PeerId)
        ensures
            r@ == self@.peer_id,
    {
        &self.peer_id
    }

    /// Whether the hub runs, stops, or has stopped.
    pub fn run_state(&self) -> (r: RunState)
        ensures
            r == self@.run_state,
    {
        self.run_state
    }

    /// Whether the hub has stopped.
    pub fn is_stopped(&self) -> (r: bool)
        ensures
            r == (self@.run_state == RunState::Stopped),
    {
        self.run_state == RunState::Stopped
    }

    /// The number of document actors.
    pub fn actor_count(&self) -> (r: usize)
        ensures
            r == self@.actors.len(),
    {
        self.actors.len()
    }

    /// Where the connection with this ID is.
    fn find_connection(&self, id: ConnectionId) -> (r: Option<usize>)
        requires
            conns_wf(self@.conns),
        ensures
            match r {
                Some(i) => i < self@.conns.len() && self@.conns[i as int].id == id.value()
                    && has_conn(self@.conns, id.value()) && conn_pos(self@.conns, id.value()) == i,
                None => !has_conn(self@.conns, id.value()),
            },
    {
        let ghost cs = self@.conns;
        let mut i: usize = 0;
        while i < self.connections.len()
            invariant
                i <= self.connections@.len(),
                cs == conns_view(self.connections@),
                conns_wf(cs),
                forall|j: int| 0 <= j < i ==> cs[j].id != id.value(),
            decreases self.connections@.len() - i,
        {
            let cid = self.connections[i].id();
            proof {
                lemma_connection_id_eq(cid, id);
            }
            if cid == id {
                proof {
                    assert(cs[i as int].id == id.value());
                    let k = conn_pos(cs, id.value());
                    if k < i {
                        assert(cs[k].id != cs[i as int].id);
                    } else if k > i {
                        assert(cs[i as int].id != cs[k].id);
                    }
                }
                return Some(i);
            }
            i = i + 1;
        }
        None
    }

    /// The monitoring information of every connection.
    pub fn connections(&self) -> (r: Vec<ConnectionInfo>)
        ensures
            r@.map_values(|c: ConnectionInfo| c@) == self@.conns.map_values(|c: ConnectionView| spec_info(c)),
    {
        let ghost cs = self@.conns;
        let mut out: Vec<ConnectionInfo> = Vec::new();
        let mut i: usize = 0;
        while i < self.connections.len()
            invariant
                i <= self.connections@.len(),
                cs == conns_view(self.connections@),
                out@.len() == i,
                forall|j: int| 0 <= j < i ==> (#[trigger] out@[j])@ == spec_info(cs[j]),
            decreases self.connections@.len() - i,
        {
            out.push(self.connections[i].info());
            i = i + 1;
        }
        proof {
            assert(out@.map_values(|c: ConnectionInfo| c@) =~= cs.map_values(|c: ConnectionView| spec_info(c)));
        }
        out
    }

    /// The established connections, with their peers.
    pub fn established_peers(&self) -> (r: Vec<(ConnectionId, PeerId)>)
        ensures
            r@.map_values(|e: (ConnectionId, PeerId)| (e.0.value(), e.1@)) == established_of(self@.conns),
    {
        let ghost cs = self@.conns;
        let mut out: Vec<(ConnectionId, PeerId)> = Vec::new();
        let mut i: usize = 0;
        while i < self.connections.len()
            invariant
                i <= self.connections@.len(),
                cs == conns_view(self.connections@),
                out@.map_values(|e: (ConnectionId, PeerId)| (e.0.value(), e.1@)) == established_of(cs.take(i as int)),
            decreases self.connections@.len() - i,
        {
            let ghost before = out@;
            proof {
                assert(cs.take(i + 1).drop_last() =~= cs.take(i as int));
            }
            match self.connections[i].remote_peer_id() {
                Some(p) => {
                    out.push((self.connections[i].id(), p.duplicate()));
                    proof {
                        assert(out@.map_values(|e: (ConnectionId, PeerId)| (e.0.value(), e.1@)) =~= before.map_values(
                            |e: (ConnectionId, PeerId)| (e.0.value(), e.1@),
                        ).push((cs[i as int].id, cs[i as int].phase->remote_peer_id)));
                    }
                },
                None => {},
            }
            i = i + 1;
        }
        proof {
            assert(cs.take(cs.len() as int) =~= cs);
        }
        out
    }

    /// Whether an established connection is with this peer.
    pub fn is_connected_to(&self, peer_id: &PeerId) -> (r: bool)
        ensures
            r == connected_to(self@.conns, peer_id@),
    {
        let ghost cs = self@.conns;
        let mut i: usize = 0;
        while i < self.connections.len()
            invariant
                i <= self.connections@.len(),
                cs == conns_view(self.connections@),
                forall|j: int| 0 <= j < i ==> !((#[trigger] cs[j]).phase is Established && cs[j].phase->remote_peer_id == peer_id@),
            decreases self.connections@.len() - i,
        {
            match self.connections[i].remote_peer_id() {
                Some(p) => {
                    if p.same_as(peer_id) {
                        proof {
                            assert(cs[i as int].phase is Established && cs[i as int].phase->remote_peer_id == peer_id@);
                        }
                        return true;
                    }
                },
                None => {},
            }
            i = i + 1;
        }
        false
    }
}


impl Hub {
    /// Subscribes the connection at `i` to a document.
    fn subscribe_connection(&mut self, i: usize, d: DocumentId)
        requires
            i < old(self)@.conns.len(),
            conns_wf(old(self)@.conns),
        ensures
            final(self)@ == (HubView {
                conns: old(self)@.conns.update(i as int, ConnectionView {
                    phase: phase_with_subs(old(self)@.conns[i as int].phase, subs_set(phase_subs(old(self)@.conns[i as int].phase), d@, empty_doc_state())),
                    ..old(self)@.conns[i as int]
                }),
                ..old(self)@
            }),
            conns_wf(final(self)@.conns),
    {
        let ghost before = self@;
        self.connections[i].add_document(d);
        proof {
            assert(self@.conns =~= before.conns.update(i as int, self.connections@[i as int]@));
        }
    }
}


/// The connections that are not closed, in order.
pub open spec fn open_conns(cs: Seq<ConnectionView>) -> Seq<ConnectionView> {
    cs.filter(|c: ConnectionView| !(c.phase is Closed))
}

/// The IDs of the closed connections, in order.
pub open spec fn closed_ids(cs: Seq<ConnectionView>) -> Seq<u64>
    decreases cs.len(),
{
    if cs.len() == 0 {
        Seq::empty()
    } else if cs.last().phase is Closed {
        closed_ids(cs.drop_last()).push(cs.last().id)
    } else {
        closed_ids(cs.drop_last())
    }
}

/// The information of the changed connections, in order.
pub open spec fn changed_infos(cs: Seq<ConnectionView>) -> Seq<(u64, ConnectionInfoView)>
    decreases cs.len(),
{
    if cs.len() == 0 {
        Seq::empty()
    } else if cs.last().dirty {
        changed_infos(cs.drop_last()).push((cs.last().id, spec_info(cs.last())))
    } else {
        changed_infos(cs.drop_last())
    }
}

proof fn lemma_open_conns_push(s: Seq<ConnectionView>, x: ConnectionView)
    ensures
        open_conns(s.push(x)) == if !(x.phase is Closed) { open_conns(s).push(x) } else { open_conns(s) },
{
    reveal_with_fuel(Seq::<ConnectionView>::filter, 1);
    assert(s.push(x).drop_last() =~= s);
}

proof fn lemma_open_conns_wf(s: Seq<ConnectionView>)
    requires
        conns_wf(s),
    ensures
        conns_wf(open_conns(s)),
        forall|c: ConnectionView| open_conns(s).contains(c) ==> s.contains(c) && !(c.phase is Closed),
    decreases s.len(),
{
    reveal_with_fuel(Seq::<ConnectionView>::filter, 1);
    if s.len() > 0 {
        let init = s.drop_last();
        assert(conns_wf(init)) by {
            assert forall|i: int, j: int| 0 <= i < j < init.len() implies #[trigger] init[i].id != #[trigger] init[j].id by {
                assert(init[i] == s[i] && init[j] == s[j]);
            }
            assert forall|i: int| 0 <= i < init.len() implies phase_wf(#[trigger] init[i].phase) by {
                assert(init[i] == s[i]);
            }
        }
        lemma_open_conns_wf(init);
        let o = open_conns(init);
        if !(s.last().phase is Closed) {
            assert(open_conns(s) == o.push(s.last()));
            assert forall|i: int, j: int| 0 <= i < j < o.push(s.last()).len() implies
                #[trigger] o.push(s.last())[i].id != #[trigger] o.push(s.last())[j].id by {
                if j == o.len() {
                    assert(o.contains(o[i]));
                    assert(init.contains(o[i]));
                    let k = choose|k: int| 0 <= k < init.len() && init[k] == o[i];
                    assert(s[k] == init[k]);
                    assert(s[k].id != s[s.len() - 1].id);
                } else {
                    assert(o.push(s.last())[i] == o[i] && o.push(s.last())[j] == o[j]);
                }
            }
            assert forall|i: int| 0 <= i < o.push(s.last()).len() implies phase_wf(#[trigger] o.push(s.last())[i].phase) by {
                if i < o.len() {
                    assert(o.contains(o[i]));
                    assert(o.push(s.last())[i] == o[i]);
                }
            }
            assert forall|c: ConnectionView| open_conns(s).contains(c) implies s.contains(c) && !(c.phase is Closed) by {
                if c != s.last() {
                    let k = choose|k: int| 0 <= k < o.push(s.last()).len() && o.push(s.last())[k] == c;
                    assert(o[k] == c);
                    assert(o.contains(c));
                    assert(init.contains(c));
                    let m = choose|m: int| 0 <= m < init.len() && init[m] == c;
                    assert(s[m] == c);
                } else {
                    assert(s[s.len() - 1] == c);
                }
            }
        } else {
            assert(open_conns(s) == o);
            assert forall|c: ConnectionView| open_conns(s).contains(c) implies s.contains(c) && !(c.phase is Closed) by {
                assert(init.contains(c));
                let m = choose|m: int| 0 <= m < init.len() && init[m] == c;
                assert(s[m] == c);
            }
        }
    }
}

impl Hub {
    /// Adds a connection; one with the same ID is replaced.
    pub fn add_connection(&mut self, conn: Connection)
        requires
            conns_wf(old(self)@.conns),
            phase_wf(conn@.phase),
        ensures
            final(self)@ == (HubView {
                conns: if has_conn(old(self)@.conns, conn@.id) {
                    old(self)@.conns.update(conn_pos(old(self)@.conns, conn@.id), conn@)
                } else {
                    old(self)@.conns.push(conn@)
                },
                ..old(self)@
            }),
            conns_wf(final(self)@.conns),
    {
        let ghost before = self@;
        let ghost cv = conn@;
        match self.find_connection(conn.id()) {
            Some(i) => {
                self.connections.set(i, conn);
                proof {
                    assert(self@.conns =~= before.conns.update(i as int, cv));
                }
            },
            None => {
                self.connections.push(conn);
                proof {
                    assert(self@.conns =~= before.conns.push(cv));
                }
            },
        }
    }

    /// Removes the connection with this ID, and returns it.
    pub fn remove_connection(&mut self, id: ConnectionId) -> (r: Option<Connection>)
        requires
            conns_wf(old(self)@.conns),
        ensures
            has_conn(old(self)@.conns, id.value()) ==> {
                &&& r matches Some(c) && c@ == old(self)@.conns[conn_pos(old(self)@.conns, id.value())]
                &&& final(self)@ == (HubView {
                    conns: old(self)@.conns.remove(conn_pos(old(self)@.conns, id.value())),
                    ..old(self)@
                })
            },
            !has_conn(old(self)@.conns, id.value()) ==> r is None && final(self)@ == old(self)@,
            conns_wf(final(self)@.conns),
    {
        let ghost before = self@;
        match self.find_connection(id) {
            Some(i) => {
                let c = self.connections.remove(i);
                proof {
                    assert(self@.conns =~= before.conns.remove(i as int));
                    let cs = self@.conns;
                    assert forall|a: int, b: int| 0 <= a < b < cs.len() implies #[trigger] cs[a].id != #[trigger] cs[b].id by {
                        let a0 = if a < i { a } else { a + 1 };
                        let b0 = if b < i { b } else { b + 1 };
                        assert(cs[a] == before.conns[a0] && cs[b] == before.conns[b0]);
                    }
                    assert forall|a: int| 0 <= a < cs.len() implies phase_wf(#[trigger] cs[a].phase) by {
                        let a0 = if a < i { a } else { a + 1 };
                        assert(cs[a] == before.conns[a0]);
                    }
                }
                Some(c)
            },
            None => None,
        }
    }

    /// Removes the closed connections and returns their IDs.
    pub fn pop_closed_connections(&mut self) -> (r: Vec<ConnectionId>)
        requires
            conns_wf(old(self)@.conns),
        ensures
            final(self)@ == (HubView { conns: open_conns(old(self)@.conns), ..old(self)@ }),
            r@.map_values(|c: ConnectionId| c.value()) == closed_ids(old(self)@.conns),
            conns_wf(final(self)@.conns),
    {
        let ghost before = self@;
        let mut all: Vec<Connection> = Vec::new();
        std::mem::swap(&mut all, &mut self.connections);
        let ghost cs = conns_view(all@);
        let total = all.len();
        assert(cs.len() == total);
        let mut kept: Vec<Connection> = Vec::new();
        let mut closed: Vec<ConnectionId> = Vec::new();
        let mut i: usize = 0;
        while all.len() > 0
            invariant
                i <= cs.len(),
                cs.len() <= usize::MAX,
                conns_view(all@) == cs.skip(i as int),
                conns_view(kept@) == open_conns(cs.take(i as int)),
                closed@.map_values(|c: ConnectionId| c.value()) == closed_ids(cs.take(i as int)),
            decreases all@.len(),
        {
            let ghost a0 = all@;
            let c = all.remove(0);
            proof {
                assert(a0.len() > 0);
                assert(conns_view(a0).len() == a0.len());
                assert(i < cs.len());
                assert(conns_view(a0)[0] == c@);
                assert(cs.skip(i as int)[0] == cs[i as int]);
                assert(c@ == cs[i as int]);
                assert forall|k: int| 0 <= k < all@.len() implies #[trigger] conns_view(all@)[k] == cs.skip(i + 1)[k] by {
                    assert(all@[k] == a0[k + 1]);
                    assert(conns_view(a0)[k + 1] == cs.skip(i as int)[k + 1]);
                }
                assert(conns_view(all@) =~= cs.skip(i + 1));
                assert(cs.take(i + 1).drop_last() =~= cs.take(i as int));
                assert(cs.take(i + 1) =~= cs.take(i as int).push(cs[i as int]));
                lemma_open_conns_push(cs.take(i as int), cs[i as int]);
            }
            let ghost k0 = kept@;
            let ghost c0 = closed@;
            if c.is_closed() {
                closed.push(c.id());
                proof {
                    assert(closed@.map_values(|c: ConnectionId| c.value()) =~= c0.map_values(|c: ConnectionId| c.value()).push(cs[i as int].id));
                }
            } else {
                kept.push(c);
                proof {
                    assert(conns_view(kept@) =~= conns_view(k0).push(cs[i as int]));
                }
            }
            i = i + 1;
        }
        proof {
            assert(i == cs.len()) by {
                assert(cs.skip(i as int).len() == 0);
            }
        }
        proof {
            assert(cs.take(cs.len() as int) =~= cs);
            lemma_open_conns_wf(cs);
        }
        self.connections = kept;
        proof {
            assert(self@ == (HubView { conns: open_conns(before.conns), ..before }));
        }
        closed
    }

    /// Takes the information of every connection that changed since it was
    /// last taken.
    pub fn pop_new_connection_info(&mut self) -> (r: Vec<(ConnectionId, ConnectionInfo)>)
        requires
            conns_wf(old(self)@.conns),
        ensures
            r@.map_values(|e: (ConnectionId, ConnectionInfo)| (e.0.value(), e.1@)) == changed_infos(old(self)@.conns),
            final(self)@ == (HubView {
                conns: old(self)@.conns.map_values(|c: ConnectionView| ConnectionView { dirty: false, ..c }),
                ..old(self)@
            }),
            conns_wf(final(self)@.conns),
    {
        let ghost before = self@;
        let ghost cs = before.conns;
        let mut all: Vec<Connection> = Vec::new();
        std::mem::swap(&mut all, &mut self.connections);
        let mut out: Vec<(ConnectionId, ConnectionInfo)> = Vec::new();
        let mut i: usize = 0;
        while i < all.len()
            invariant
                i <= all@.len(),
                all@.len() == cs.len(),
                forall|j: int| 0 <= j < i ==> (#[trigger] all@[j])@ == (ConnectionView { dirty: false, ..cs[j] }),
                forall|j: int| i <= j < cs.len() ==> (#[trigger] all@[j])@ == cs[j],
                out@.map_values(|e: (ConnectionId, ConnectionInfo)| (e.0.value(), e.1@)) == changed_infos(cs.take(i as int)),
            decreases cs.len() - i,
        {
            let ghost o0 = out@;
            let ghost a0 = all@;
            proof {
                assert(cs.take(i + 1).drop_last() =~= cs.take(i as int));
            }
            let id = all[i].id();
            let info = all[i].pop_new_info();
            proof {
                assert(all@ =~= a0.update(i as int, all@[i as int]));
            }
            match info {
                Some(x) => {
                    out.push((id, x));
                    proof {
                        assert(out@.map_values(|e: (ConnectionId, ConnectionInfo)| (e.0.value(), e.1@)) =~= o0.map_values(
                            |e: (ConnectionId, ConnectionInfo)| (e.0.value(), e.1@),
                        ).push((cs[i as int].id, spec_info(cs[i as int]))));
                    }
                },
                None => {},
            }
            i = i + 1;
        }
        self.connections = all;
        proof {
            assert(cs.take(cs.len() as int) =~= cs);
            assert(self@.conns =~= cs.map_values(|c: ConnectionView| ConnectionView { dirty: false, ..c }));
        }
        out
    }
}


/// The actor list with actor `a` running document `d` in status `st`: its
/// entry replaced when there is one, else added at the end.
pub open spec fn actors_set(v: Seq<(u64, Seq<u8>, DocumentStatus)>, a: u64, d: Seq<u8>, st: DocumentStatus) -> Seq<(u64, Seq<u8>, DocumentStatus)> {
    if has_actor(v, a) {
        v.update(actor_pos(v, a), (a, d, st))
    } else {
        v.push((a, d, st))
    }
}

/// The document list with document `d` run by actor `a`: its entry replaced
/// when there is one, else added at the end.
pub open spec fn docs_set(v: Seq<(Seq<u8>, u64)>, d: Seq<u8>, a: u64) -> Seq<(Seq<u8>, u64)> {
    if has_doc(v, d) {
        v.update(doc_pos(v, d), (d, a))
    } else {
        v.push((d, a))
    }
}

/// A connection after the sync state of document `d` was set to `st`.
pub open spec fn conn_with_state(c: ConnectionView, d: Seq<u8>, st: PeerDocStateView) -> ConnectionView {
    if subs_has(phase_subs(c.phase), d) {
        ConnectionView { phase: phase_with_subs(c.phase, subs_set(phase_subs(c.phase), d, st)), dirty: true, ..c }
    } else {
        c
    }
}

/// The connections after the state of document `d` on connection `id` was
/// set to `st`.
pub open spec fn conns_with_state(cs: Seq<ConnectionView>, id: u64, d: Seq<u8>, st: PeerDocStateView) -> Seq<ConnectionView> {
    if has_conn(cs, id) {
        cs.update(conn_pos(cs, id), conn_with_state(cs[conn_pos(cs, id)], d, st))
    } else {
        cs
    }
}

/// The connections after each new state was applied in turn.
pub open spec fn conns_with_states(cs: Seq<ConnectionView>, d: Seq<u8>, states: Seq<(u64, PeerDocStateView)>) -> Seq<ConnectionView>
    decreases states.len(),
{
    if states.len() == 0 {
        cs
    } else {
        conns_with_state(
            conns_with_states(cs, d, states.drop_last()),
            states.last().0,
            d,
            states.last().1,
        )
    }
}

impl Hub {
    /// Where the actor with this ID is.
    fn find_actor(&self, a: DocumentActorId) -> (r: Option<usize>)
        requires
            actors_wf(self@.actors),
        ensures
            match r {
                Some(i) => i < self@.actors.len() && self@.actors[i as int].0 == a.value()
                    && has_actor(self@.actors, a.value()) && actor_pos(self@.actors, a.value()) == i,
                None => !has_actor(self@.actors, a.value()),
            },
    {
        let ghost v = self@.actors;
        let mut i: usize = 0;
        while i < self.actors.len()
            invariant
                i <= self.actors@.len(),
                v == actors_view(self.actors@),
                actors_wf(v),
                forall|j: int| 0 <= j < i ==> v[j].0 != a.value(),
            decreases self.actors@.len() - i,
        {
            proof {
                lemma_actor_id_eq(self.actors@[i as int].actor_id, a);
            }
            if self.actors[i].actor_id == a {
                proof {
                    assert(v[i as int].0 == a.value());
                    let k = actor_pos(v, a.value());
                    if k < i {
                        assert(v[k].0 != v[i as int].0);
                    } else if k > i {
                        assert(v[i as int].0 != v[k].0);
                    }
                }
                return Some(i);
            }
            i = i + 1;
        }
        None
    }

    /// Where the entry of this document is.
    fn find_doc(&self, d: &DocumentId) -> (r: Option<usize>)
        requires
            docs_wf(self@.docs),
        ensures
            match r {
                Some(i) => i < self@.docs.len() && self@.docs[i as int].0 == d@
                    && has_doc(self@.docs, d@) && doc_pos(self@.docs, d@) == i,
                None => !has_doc(self@.docs, d@),
            },
    {
        let ghost v = self@.docs;
        let mut i: usize = 0;
        while i < self.document_to_actor.len()
            invariant
                i <= self.document_to_actor@.len(),
                v == docs_view(self.document_to_actor@),
                docs_wf(v),
                forall|j: int| 0 <= j < i ==> v[j].0 != d@,
            decreases self.document_to_actor@.len() - i,
        {
            if self.document_to_actor[i].0.same_as(d) {
                proof {
                    assert(v[i as int].0 == d@);
                    let k = doc_pos(v, d@);
                    if k < i {
                        assert(v[k].0 != v[i as int].0);
                    } else if k > i {
                        assert(v[i as int].0 != v[k].0);
                    }
                }
                return Some(i);
            }
            i = i + 1;
        }
        None
    }

    /// Registers a new actor for a document, and the document as run by it.
    pub fn add_document_actor(&mut self, actor_id: DocumentActorId, document_id: DocumentId)
        requires
            hub_wf(old(self)@),
        ensures
            final(self)@ == (HubView {
                actors: actors_set(old(self)@.actors, actor_id.value(), document_id@, DocumentStatus::Spawned),
                docs: docs_set(old(self)@.docs, document_id@, actor_id.value()),
                ..old(self)@
            }),
            hub_wf(final(self)@),
    {
        let ghost before = self@;
        let ghost dv = document_id@;
        let info = ActorInfo { actor_id, document_id: document_id.duplicate(), status: DocumentStatus::Spawned };
        match self.find_actor(actor_id) {
            Some(i) => {
                self.actors.set(i, info);
                proof {
                    assert(self@.actors =~= before.actors.update(i as int, (actor_id.value(), dv, DocumentStatus::Spawned)));
                }
            },
            None => {
                self.actors.push(info);
                proof {
                    assert(self@.actors =~= before.actors.push((actor_id.value(), dv, DocumentStatus::Spawned)));
                }
            },
        }
        let ghost mid = self@;
        match self.find_doc(&document_id) {
            Some(i) => {
                self.document_to_actor.set(i, (document_id, actor_id));
                proof {
                    assert(self@.docs =~= mid.docs.update(i as int, (dv, actor_id.value())));
                }
            },
            None => {
                self.document_to_actor.push((document_id, actor_id));
                proof {
                    assert(self@.docs =~= mid.docs.push((dv, actor_id.value())));
                }
            },
        }
        proof {
            let av = self@.actors;
            assert forall|i: int, j: int| 0 <= i < j < av.len() implies #[trigger] av[i].0 != #[trigger] av[j].0 by {
                if j == before.actors.len() {
                    assert(av[i] == before.actors[i]);
                    assert(!has_actor(before.actors, actor_id.value()) ==> before.actors[i].0 != actor_id.value());
                }
            }
            let dl = self@.docs;
            assert forall|i: int, j: int| 0 <= i < j < dl.len() implies #[trigger] dl[i].0 != #[trigger] dl[j].0 by {
                if j == before.docs.len() {
                    assert(dl[i] == before.docs[i]);
                    assert(!has_doc(before.docs, dv) ==> before.docs[i].0 != dv);
                }
            }
        }
    }

    /// The actor that runs a document, and its status.
    pub fn find_actor_for_document(&self, document_id: &DocumentId) -> (r: Option<(DocumentActorId, DocumentStatus)>)
        requires
            hub_wf(self@),
        ensures
            match r {
                Some((a, st)) => actor_for_document(self@, document_id@) == Some((a.value(), self@.actors[actor_pos(self@.actors, a.value())].1, st)),
                None => actor_for_document(self@, document_id@) is None,
            },
    {
        match self.find_doc(document_id) {
            None => None,
            Some(i) => {
                let a = self.document_to_actor[i].1;
                match self.find_actor(a) {
                    None => None,
                    Some(k) => Some((a, self.actors[k].status)),
                }
            },
        }
    }

    /// The document that an actor runs.
    pub fn find_document_for_actor(&self, actor_id: DocumentActorId) -> (r: Option<DocumentId>)
        requires
            hub_wf(self@),
        ensures
            match r {
                Some(d) => has_actor(self@.actors, actor_id.value()) && d@ == self@.actors[actor_pos(self@.actors, actor_id.value())].1,
                None => !has_actor(self@.actors, actor_id.value()),
            },
    {
        match self.find_actor(actor_id) {
            None => None,
            Some(k) => Some(self.actors[k].document_id.duplicate()),
        }
    }

    /// Forgets an actor that has stopped.
    pub fn remove_actor(&mut self, actor_id: DocumentActorId)
        requires
            hub_wf(old(self)@),
        ensures
            has_actor(old(self)@.actors, actor_id.value()) ==> final(self)@ == (HubView {
                actors: old(self)@.actors.remove(actor_pos(old(self)@.actors, actor_id.value())),
                ..old(self)@
            }),
            !has_actor(old(self)@.actors, actor_id.value()) ==> final(self)@ == old(self)@,
            !has_actor(final(self)@.actors, actor_id.value()),
            hub_wf(final(self)@),
    {
        let ghost before = self@;
        match self.find_actor(actor_id) {
            None => {},
            Some(i) => {
                self.actors.remove(i);
                proof {
                    assert(self@.actors =~= before.actors.remove(i as int));
                    let av = self@.actors;
                    assert forall|a: int, b: int| 0 <= a < b < av.len() implies #[trigger] av[a].0 != #[trigger] av[b].0 by {
                        let a0 = if a < i { a } else { a + 1 };
                        let b0 = if b < i { b } else { b + 1 };
                        assert(av[a] == before.actors[a0] && av[b] == before.actors[b0]);
                    }
                    if has_actor(av, actor_id.value()) {
                        let k = choose|k: int| 0 <= k < av.len() && #[trigger] av[k].0 == actor_id.value();
                        let k0 = if k < i { k } else { k + 1 };
                        assert(av[k] == before.actors[k0]);
                        if k0 < i {
                            assert(before.actors[k0].0 != before.actors[i as int].0);
                        } else {
                            assert(before.actors[i as int].0 != before.actors[k0].0);
                        }
                    }
                }
            },
        }
    }
}


/// The pending commands after actor `a`, running document `d`, reported
/// status `st`: a ready actor completes the commands that wait for it and
/// for its document; an actor that found nothing completes the find
/// commands as not found.
pub open spec fn pending_after_status(p: PendingView, a: u64, d: Seq<u8>, st: DocumentStatus) -> PendingView {
    match st {
        DocumentStatus::Ready => {
            let p1 = PendingView {
                creates: creates_without(p.creates, a),
                completed: p.completed + create_results(creates_for(p.creates, a), d, a),
                ..p
            };
            PendingView {
                finds: finds_without(p1.finds, d),
                completed: p1.completed + find_results(finds_for(p1.finds, d), true, a),
                ..p1
            }
        },
        DocumentStatus::NotFound => PendingView {
            finds: finds_without(p.finds, d),
            completed: p.completed + find_results(finds_for(p.finds, d), false, a),
            ..p
        },
        _ => p,
    }
}

/// No create command waits for actor `a`.
pub open spec fn no_pending_create(p: PendingView, a: u64) -> bool {
    forall|i: int| 0 <= i < p.creates.len() ==> #[trigger] p.creates[i].0 != a
}

/// When actor `a` reports the status of its document `d`, the find
/// commands that waited for `d` are answered, and only those: each new find
/// result answers a command that waited for `d`, names `a`, and says found
/// exactly when the document is ready; a report of ready or not found
/// answers every command that waited for `d` and leaves none waiting for
/// it; any other report changes nothing.
pub proof fn lemma_status_answers_finds(p: PendingView, a: u64, d: Seq<u8>, st: DocumentStatus)
    ensures
        ({
            let q = pending_after_status(p, a, d, st);
            &&& p.completed.is_prefix_of(q.completed)
            &&& forall|i: int| p.completed.len() <= i < q.completed.len() && (#[trigger] q.completed[i]).1 is FindDocument ==> {
                &&& q.completed[i].1 == (CommandResultView::FindDocument { found: st == DocumentStatus::Ready, actor_id: a })
                &&& p.finds.contains((d, q.completed[i].0))
            }
            &&& (st == DocumentStatus::Ready || st == DocumentStatus::NotFound) ==> {
                &&& forall|j: int| 0 <= j < p.finds.len() && (#[trigger] p.finds[j]).0 == d ==> exists|i: int|
                    p.completed.len() <= i < q.completed.len() && #[trigger] q.completed[i]
                        == (p.finds[j].1, CommandResultView::FindDocument { found: st == DocumentStatus::Ready, actor_id: a })
                &&& forall|j: int| 0 <= j < q.finds.len() ==> (#[trigger] q.finds[j]).0 != d
            }
            &&& !(st == DocumentStatus::Ready || st == DocumentStatus::NotFound) ==> q == p
            &&& forall|i: int| p.completed.len() <= i < q.completed.len() && (#[trigger] q.completed[i]).1 is CreateDocument ==> {
                &&& st == DocumentStatus::Ready
                &&& q.completed[i].1 == (CommandResultView::CreateDocument { document_id: d, actor_id: a })
                &&& p.creates.contains((a, q.completed[i].0))
            }
            &&& forall|i: int| p.completed.len() <= i < q.completed.len() ==> {
                ||| (#[trigger] q.completed[i]).1 is FindDocument
                ||| q.completed[i].1 is CreateDocument
            }
        }),
{
    let q = pending_after_status(p, a, d, st);
    lemma_finds_split(p.finds, d);
    lemma_creates_split(p.creates, a);
    if st == DocumentStatus::Ready || st == DocumentStatus::NotFound {
        let found = st == DocumentStatus::Ready;
        let base = if st == DocumentStatus::Ready {
            p.completed + create_results(creates_for(p.creates, a), d, a)
        } else {
            p.completed
        };
        let ff = finds_for(p.finds, d);
        let fr = find_results(ff, found, a);
        assert(q.completed == base + fr);
        assert(q.finds == finds_without(p.finds, d));
        assert(p.completed.is_prefix_of(q.completed)) by {
            assert(p.completed =~= q.completed.subrange(0, p.completed.len() as int));
        }
        assert forall|i: int| p.completed.len() <= i < q.completed.len() implies {
            &&& ((#[trigger] q.completed[i]).1 is CreateDocument ==> {
                &&& st == DocumentStatus::Ready
                &&& q.completed[i].1 == (CommandResultView::CreateDocument { document_id: d, actor_id: a })
                &&& p.creates.contains((a, q.completed[i].0))
            })
            &&& (q.completed[i].1 is FindDocument || q.completed[i].1 is CreateDocument)
        } by {
            if i < base.len() {
                let cr = create_results(creates_for(p.creates, a), d, a);
                let cf = creates_for(p.creates, a);
                let k = i - p.completed.len();
                assert(q.completed[i] == cr[k]);
                assert(cr[k] == (cf[k].1, CommandResultView::CreateDocument { document_id: d, actor_id: a }));
                assert(cf[k].0 == a);
                assert(p.creates.contains(cf[k]));
                assert(cf[k] == (a, cf[k].1));
            } else {
                let k = i - base.len();
                assert(q.completed[i] == fr[k]);
            }
        }
        assert forall|i: int| p.completed.len() <= i < q.completed.len() && (#[trigger] q.completed[i]).1 is FindDocument implies {
            &&& q.completed[i].1 == (CommandResultView::FindDocument { found: found, actor_id: a })
            &&& p.finds.contains((d, q.completed[i].0))
        } by {
            if i < base.len() {
                let cr = create_results(creates_for(p.creates, a), d, a);
                assert(st == DocumentStatus::Ready);
                assert(q.completed[i] == cr[i - p.completed.len()]);
            } else {
                let k = i - base.len();
                assert(q.completed[i] == fr[k]);
                assert(fr[k] == (ff[k].1, CommandResultView::FindDocument { found: found, actor_id: a }));
                assert(ff[k].0 == d);
                assert(p.finds.contains(ff[k]));
                assert(ff[k] == (d, ff[k].1));
            }
        }
        assert forall|j: int| 0 <= j < p.finds.len() && (#[trigger] p.finds[j]).0 == d implies exists|i: int|
            p.completed.len() <= i < q.completed.len() && #[trigger] q.completed[i]
                == (p.finds[j].1, CommandResultView::FindDocument { found: found, actor_id: a }) by {
            assert(ff.contains(p.finds[j]));
            let k = choose|k: int| 0 <= k < ff.len() && ff[k] == p.finds[j];
            let i = base.len() + k;
            assert(q.completed[i] == fr[k]);
        }
        assert forall|j: int| 0 <= j < q.finds.len() implies (#[trigger] q.finds[j]).0 != d by {
            assert(q.finds[j] == finds_without(p.finds, d)[j]);
        }
    }
}

impl Hub {
    /// Records the new status of an actor and completes the commands that
    /// waited for it; does nothing for an unknown actor.
    pub fn update_document_status(&mut self, actor_id: DocumentActorId, new_status: DocumentStatus)
        requires
            hub_wf(old(self)@),
            new_status == DocumentStatus::NotFound ==> no_pending_create(old(self)@.pending, actor_id.value()),
        ensures
            has_actor(old(self)@.actors, actor_id.value()) ==> {
                let i = actor_pos(old(self)@.actors, actor_id.value());
                let d = old(self)@.actors[i].1;
                final(self)@ == (HubView {
                    actors: old(self)@.actors.update(i, (actor_id.value(), d, new_status)),
                    pending: pending_after_status(old(self)@.pending, actor_id.value(), d, new_status),
                    ..old(self)@
                })
            },
            !has_actor(old(self)@.actors, actor_id.value()) ==> final(self)@ == old(self)@,
            hub_wf(final(self)@),
    {
        let ghost before = self@;
        match self.find_actor(actor_id) {
            None => {},
            Some(i) => {
                self.actors[i].status = new_status;
                proof {
                    assert(self@.actors =~= before.actors.update(i as int, (actor_id.value(), before.actors[i as int].1, new_status)));
                    let av = self@.actors;
                    assert forall|a: int, b: int| 0 <= a < b < av.len() implies #[trigger] av[a].0 != #[trigger] av[b].0 by {
                        assert(av[a].0 == before.actors[a].0 && av[b].0 == before.actors[b].0);
                    }
                }
                let d = self.actors[i].document_id.duplicate();
                match new_status {
                    DocumentStatus::Ready => {
                        self.pending.resolve_pending_create(actor_id, &d);
                        self.pending.resolve_pending_find(&d, actor_id, true);
                    },
                    DocumentStatus::NotFound => {
                        self.pending.resolve_pending_find(&d, actor_id, false);
                    },
                    _ => {},
                }
            },
        }
    }

    /// Sets the sync state of the actor's document on each connection in
    /// turn; does nothing for an unknown actor.
    pub fn update_peer_states(&mut self, actor_id: DocumentActorId, new_states: Vec<(ConnectionId, PeerDocState)>)
        requires
            hub_wf(old(self)@),
        ensures
            has_actor(old(self)@.actors, actor_id.value()) ==> final(self)@ == (HubView {
                conns: conns_with_states(
                    old(self)@.conns,
                    old(self)@.actors[actor_pos(old(self)@.actors, actor_id.value())].1,
                    new_states@.map_values(|e: (ConnectionId, PeerDocState)| (e.0.value(), e.1@)),
                ),
                ..old(self)@
            }),
            !has_actor(old(self)@.actors, actor_id.value()) ==> final(self)@ == old(self)@,
            hub_wf(final(self)@),
    {
        let ghost before = self@;
        let d = match self.find_document_for_actor(actor_id) {
            None => {
                return;
            },
            Some(d) => d,
        };
        let ghost sv = new_states@.map_values(|e: (ConnectionId, PeerDocState)| (e.0.value(), e.1@));
        let mut states = new_states;
        let ghost all = states@;
        let total = states.len();
        let mut rest: Vec<(ConnectionId, PeerDocState)> = Vec::new();
        // Take the states out back to front, then apply them in order.
        while states.len() > 0
            invariant
                all.len() == sv.len(),
                forall|k: int| 0 <= k < all.len() ==> (#[trigger] sv[k]) == (all[k].0.value(), all[k].1@),
                states@ == all.take(states@.len() as int),
                rest@.len() == all.len() - states@.len(),
                forall|k: int| 0 <= k < rest@.len() ==> (#[trigger] rest@[k]).0 == all[all.len() - 1 - k].0
                    && rest@[k].1@ == all[all.len() - 1 - k].1@,
                states@.len() <= all.len(),
            decreases states@.len(),
        {
            let ghost s0 = states@;
            let e = states.pop().unwrap();
            proof {
                assert(states@ =~= all.take(states@.len() as int));
            }
            rest.push(e);
        }
        let mut i: usize = 0;
        while rest.len() > 0
            invariant
                i <= all.len(),
                all.len() == total,
                all.len() == sv.len(),
                forall|k: int| 0 <= k < all.len() ==> (#[trigger] sv[k]) == (all[k].0.value(), all[k].1@),
                rest@.len() == all.len() - i,
                forall|k: int| 0 <= k < rest@.len() ==> (#[trigger] rest@[k]).0 == all[all.len() - 1 - k].0
                    && rest@[k].1@ == all[all.len() - 1 - k].1@,
                hub_wf(self@),
                self@ == (HubView { conns: self@.conns, ..before }),
                self@.conns == conns_with_states(before.conns, d@, sv.take(i as int)),
            decreases rest@.len(),
        {
            let (conn_id, state) = rest.pop().unwrap();
            proof {
                assert(sv.take(i + 1).drop_last() =~= sv.take(i as int));
                assert(sv.take(i + 1).last() == sv[i as int]);
                assert(sv[i as int] == (conn_id.value(), state@));
            }
            let ghost h0 = self@;
            match self.find_connection(conn_id) {
                Some(k) => {
                    self.connections[k].update_peer_state(&d, state);
                    proof {
                        assert(self@.conns =~= h0.conns.update(k as int, self.connections@[k as int]@));
                        let cs = self@.conns;
                        assert forall|a: int, b: int| 0 <= a < b < cs.len() implies #[trigger] cs[a].id != #[trigger] cs[b].id by {
                            assert(cs[a].id == h0.conns[a].id && cs[b].id == h0.conns[b].id);
                        }
                    }
                },
                None => {},
            }
            i = i + 1;
        }
        proof {
            assert(sv.take(sv.len() as int) =~= sv);
        }
    }
}


/// Every established connection is subscribed to every document.
pub open spec fn all_subscribed(cs: Seq<ConnectionView>, docs: Seq<(Seq<u8>, u64)>) -> bool {
    forall|i: int, j: int| 0 <= i < cs.len() && 0 <= j < docs.len() && (#[trigger] cs[i]).phase is Established
        ==> subs_has(phase_subs(cs[i].phase), (#[trigger] docs[j]).0)
}

/// `c` is `old` with other subscriptions, among them all of the old ones.
pub open spec fn only_subscriptions_grew(old: ConnectionView, c: ConnectionView) -> bool {
    &&& c == (ConnectionView { phase: phase_with_subs(old.phase, phase_subs(c.phase)), ..old })
    &&& forall|d: Seq<u8>| subs_has(phase_subs(old.phase), d) ==> #[trigger] subs_has(phase_subs(c.phase), d)
}

/// Connection `c` is established and not subscribed to the document.
pub open spec fn missing_subscription(c: ConnectionView, d: Seq<u8>) -> bool {
    c.phase is Established && !subs_has(phase_subs(c.phase), d)
}

/// The announcement for a new subscription of connection `c` to the
/// document of `doc`: the document's actor, the connection, and its peer.
pub open spec fn new_subscription(c: ConnectionView, doc: (Seq<u8>, u64)) -> (u64, u64, Seq<char>) {
    (doc.1, c.id, c.phase->remote_peer_id)
}

/// The documents that connection `c` is missing, in order.
pub open spec fn missing_docs(c: ConnectionView, docs: Seq<(Seq<u8>, u64)>) -> Seq<(Seq<u8>, u64)> {
    docs.filter(|d: (Seq<u8>, u64)| missing_subscription(c, d.0))
}

/// The announcements for the new subscriptions of one connection.
pub open spec fn conn_new_subscriptions(c: ConnectionView, docs: Seq<(Seq<u8>, u64)>) -> Seq<(u64, u64, Seq<char>)> {
    missing_docs(c, docs).map_values(|d: (Seq<u8>, u64)| new_subscription(c, d))
}

/// The announcements for the new subscriptions of every connection, by
/// connection, then by document.
pub open spec fn new_subscriptions(cs: Seq<ConnectionView>, docs: Seq<(Seq<u8>, u64)>) -> Seq<(u64, u64, Seq<char>)>
    decreases cs.len(),
{
    if cs.len() == 0 {
        Seq::empty()
    } else {
        new_subscriptions(cs.drop_last(), docs) + conn_new_subscriptions(cs.last(), docs)
    }
}

proof fn lemma_missing_docs_push(c: ConnectionView, docs: Seq<(Seq<u8>, u64)>, x: (Seq<u8>, u64))
    ensures
        missing_docs(c, docs.push(x)) == if missing_subscription(c, x.0) { missing_docs(c, docs).push(x) } else { missing_docs(c, docs) },
{
    reveal_with_fuel(Seq::<(Seq<u8>, u64)>::filter, 1);
    assert(docs.push(x).drop_last() =~= docs);
}

proof fn lemma_no_missing_docs(c: ConnectionView, docs: Seq<(Seq<u8>, u64)>)
    requires
        forall|j: int| 0 <= j < docs.len() ==> !missing_subscription(c, (#[trigger] docs[j]).0),
    ensures
        missing_docs(c, docs).len() == 0,
    decreases docs.len(),
{
    if docs.len() > 0 {
        let init = docs.drop_last();
        assert(docs =~= init.push(docs.last()));
        assert forall|j: int| 0 <= j < init.len() implies !missing_subscription(c, (#[trigger] init[j]).0) by {
            assert(init[j] == docs[j]);
        }
        lemma_no_missing_docs(c, init);
        lemma_missing_docs_push(c, init, docs.last());
        assert(!missing_subscription(c, docs[docs.len() - 1].0));
    }
}

/// Once every established connection is subscribed to every document,
/// there is no subscription left to make: so a second `ensure_connections`
/// right after a first one announces nothing.
pub proof fn lemma_subscribed_announces_nothing(cs: Seq<ConnectionView>, docs: Seq<(Seq<u8>, u64)>)
    requires
        all_subscribed(cs, docs),
    ensures
        new_subscriptions(cs, docs).len() == 0,
    decreases cs.len(),
{
    if cs.len() > 0 {
        let init = cs.drop_last();
        assert forall|i: int, j: int| 0 <= i < init.len() && 0 <= j < docs.len() && (#[trigger] init[i]).phase is Established
            implies subs_has(phase_subs(init[i].phase), (#[trigger] docs[j]).0) by {
            assert(init[i] == cs[i]);
        }
        lemma_subscribed_announces_nothing(init, docs);
        let c = cs.last();
        assert forall|j: int| 0 <= j < docs.len() implies !missing_subscription(c, (#[trigger] docs[j]).0) by {
            assert(c == cs[cs.len() - 1]);
            if c.phase is Established {
                assert(subs_has(phase_subs(cs[cs.len() - 1].phase), docs[j].0));
            }
        }
        lemma_no_missing_docs(c, docs);
    }
}

proof fn lemma_subs_set_keys(s: Seq<(Seq<u8>, PeerDocStateView)>, d: Seq<u8>, st: PeerDocStateView)
    ensures
        forall|x: Seq<u8>| #[trigger] subs_has(subs_set(s, d, st), x) <==> (subs_has(s, x) || x == d),
{
    let t = subs_set(s, d, st);
    if subs_has(s, d) {
        let i = choose|i: int| 0 <= i < s.len() && #[trigger] s[i].0 == d;
        assert(t[i].0 == d);
        assert forall|x: Seq<u8>| #[trigger] subs_has(t, x) <==> (subs_has(s, x) || x == d) by {
            if subs_has(s, x) {
                let k = choose|k: int| 0 <= k < s.len() && #[trigger] s[k].0 == x;
                assert(t[k].0 == x);
            }
            if subs_has(t, x) {
                let k = choose|k: int| 0 <= k < t.len() && #[trigger] t[k].0 == x;
                if k != i {
                    assert(s[k].0 == x);
                }
            }
        }
    } else {
        assert(t[s.len() as int].0 == d);
        assert forall|x: Seq<u8>| #[trigger] subs_has(t, x) <==> (subs_has(s, x) || x == d) by {
            if subs_has(s, x) {
                let k = choose|k: int| 0 <= k < s.len() && #[trigger] s[k].0 == x;
                assert(t[k].0 == x);
            }
            if subs_has(t, x) {
                let k = choose|k: int| 0 <= k < t.len() && #[trigger] t[k].0 == x;
                if k < s.len() {
                    assert(s[k].0 == x);
                }
            }
        }
    }
}

impl Hub {
    /// Subscribes the connection at `i`, if established, to every document
    /// it is missing, and returns the announcements for them.
    fn subscribe_to_all(&mut self, i: usize) -> (r: Vec<(DocumentActorId, ConnectionId, PeerId)>)
        requires
            hub_wf(old(self)@),
            i < old(self)@.conns.len(),
        ensures
            final(self)@ == (HubView { conns: final(self)@.conns, ..old(self)@ }),
            final(self)@.conns.len() == old(self)@.conns.len(),
            forall|a: int| 0 <= a < old(self)@.conns.len() && a != i ==> #[trigger] final(self)@.conns[a] == old(self)@.conns[a],
            only_subscriptions_grew(old(self)@.conns[i as int], final(self)@.conns[i as int]),
            final(self)@.conns[i as int].phase is Established ==>
                forall|j: int| 0 <= j < old(self)@.docs.len() ==> subs_has(phase_subs(final(self)@.conns[i as int].phase), (#[trigger] old(self)@.docs[j]).0),
            r@.map_values(|e: (DocumentActorId, ConnectionId, PeerId)| (e.0.value(), e.1.value(), e.2@))
                == conn_new_subscriptions(old(self)@.conns[i as int], old(self)@.docs),
            hub_wf(final(self)@),
    {
        let ghost before = self@;
        let ghost c0 = before.conns[i as int];
        let ghost docs = before.docs;
        proof {
            assert(self@.conns[i as int] == self.connections@[i as int]@);
        }
        let mut out: Vec<(DocumentActorId, ConnectionId, PeerId)> = Vec::new();
        let peer = match self.connections[i].remote_peer_id() {
            Some(p) => p.duplicate(),
            None => {
                proof {
                    assert(out@.map_values(|e: (DocumentActorId, ConnectionId, PeerId)| (e.0.value(), e.1.value(), e.2@))
                        =~= conn_new_subscriptions(c0, docs)) by {
                        assert forall|k: int| 0 <= k < docs.len() implies !missing_subscription(c0, (#[trigger] docs[k]).0) by {}
                        lemma_missing_docs_none(c0, docs);
                    }
                }
                return out;
            },
        };
        let cid = self.connections[i].id();
        let mut j: usize = 0;
        while j < self.document_to_actor.len()
            invariant
                i < before.conns.len(),
                j <= docs.len(),
                c0 == before.conns[i as int],
                docs == before.docs,
                c0.phase is Established,
                peer@ == c0.phase->remote_peer_id,
                cid.value() == c0.id,
                self@ == (HubView { conns: self@.conns, ..before }),
                hub_wf(self@),
                self@.conns.len() == before.conns.len(),
                forall|a: int| 0 <= a < before.conns.len() && a != i ==> #[trigger] self@.conns[a] == before.conns[a],
                only_subscriptions_grew(c0, self@.conns[i as int]),
                self@.conns[i as int].phase is Established,
                forall|x: Seq<u8>| #[trigger] subs_has(phase_subs(self@.conns[i as int].phase), x) <==>
                    (subs_has(phase_subs(c0.phase), x) || exists|b: int| 0 <= b < j && (#[trigger] docs[b]).0 == x),
                out@.map_values(|e: (DocumentActorId, ConnectionId, PeerId)| (e.0.value(), e.1.value(), e.2@))
                    == conn_new_subscriptions(c0, docs.take(j as int)),
            decreases docs.len() - j,
        {
            proof {
                assert(self@.conns[i as int] == self.connections@[i as int]@);
                assert(phase_wf(self@.conns[i as int].phase));
                assert(docs[j as int] == (self.document_to_actor@[j as int].0@, self.document_to_actor@[j as int].1.value()));
                assert(docs.take(j + 1) =~= docs.take(j as int).push(docs[j as int]));
                lemma_missing_docs_push(c0, docs.take(j as int), docs[j as int]);
            }
            let subscribed = self.connections[i].is_subscribed(&self.document_to_actor[j].0);
            let ghost o0 = out@;
            proof {
                // whether the connection had the document at the start
                if subs_has(phase_subs(self@.conns[i as int].phase), docs[j as int].0) && !subs_has(phase_subs(c0.phase), docs[j as int].0) {
                    let b = choose|b: int| 0 <= b < j && (#[trigger] docs[b]).0 == docs[j as int].0;
                    assert(docs[b].0 != docs[j as int].0);
                }
            }
            if !subscribed {
                let d = self.document_to_actor[j].0.duplicate();
                let a = self.document_to_actor[j].1;
                let ghost h0 = self@;
                proof {
                    lemma_subs_set_keys(phase_subs(h0.conns[i as int].phase), d@, empty_doc_state());
                }
                self.subscribe_connection(i, d);
                out.push((a, cid, peer.duplicate()));
                proof {
                    assert(out@.map_values(|e: (DocumentActorId, ConnectionId, PeerId)| (e.0.value(), e.1.value(), e.2@))
                        =~= o0.map_values(|e: (DocumentActorId, ConnectionId, PeerId)| (e.0.value(), e.1.value(), e.2@))
                            .push(new_subscription(c0, docs[j as int])));
                    assert(missing_docs(c0, docs.take(j + 1)) == missing_docs(c0, docs.take(j as int)).push(docs[j as int]));
                    assert(conn_new_subscriptions(c0, docs.take(j + 1)) =~= conn_new_subscriptions(c0, docs.take(j as int)).push(
                        new_subscription(c0, docs[j as int]),
                    ));
                    assert forall|x: Seq<u8>| #[trigger] subs_has(phase_subs(self@.conns[i as int].phase), x) <==>
                        (subs_has(phase_subs(c0.phase), x) || exists|b: int| 0 <= b < j + 1 && (#[trigger] docs[b]).0 == x) by {
                        if x == docs[j as int].0 {
                            assert(docs[j as int].0 == x);
                        }
                        if exists|b: int| 0 <= b < j + 1 && (#[trigger] docs[b]).0 == x {
                            let b = choose|b: int| 0 <= b < j + 1 && (#[trigger] docs[b]).0 == x;
                            if b < j {
                                assert(exists|b2: int| 0 <= b2 < j && (#[trigger] docs[b2]).0 == x);
                            }
                        }
                    }
                    let c1 = self@.conns[i as int];
                    assert forall|x: Seq<u8>| subs_has(phase_subs(c0.phase), x) implies #[trigger] subs_has(phase_subs(c1.phase), x) by {}
                }
            } else {
                proof {
                    assert(missing_docs(c0, docs.take(j + 1)) == missing_docs(c0, docs.take(j as int)));
                    assert forall|x: Seq<u8>| #[trigger] subs_has(phase_subs(self@.conns[i as int].phase), x) <==>
                        (subs_has(phase_subs(c0.phase), x) || exists|b: int| 0 <= b < j + 1 && (#[trigger] docs[b]).0 == x) by {
                        if exists|b: int| 0 <= b < j + 1 && (#[trigger] docs[b]).0 == x {
                            let b = choose|b: int| 0 <= b < j + 1 && (#[trigger] docs[b]).0 == x;
                            if b < j {
                                assert(exists|b2: int| 0 <= b2 < j && (#[trigger] docs[b2]).0 == x);
                            }
                        }
                    }
                }
            }
            j = j + 1;
        }
        proof {
            assert(self@.docs.len() == self.document_to_actor@.len());
            assert(j == docs.len());
            assert(docs.take(docs.len() as int) =~= docs);
            assert forall|b: int| 0 <= b < docs.len() implies subs_has(phase_subs(self@.conns[i as int].phase), (#[trigger] docs[b]).0) by {
                assert(0 <= b < j);
                let x = docs[b].0;
                assert(exists|b2: int| 0 <= b2 < j && (#[trigger] docs[b2]).0 == x);
                assert(subs_has(phase_subs(self@.conns[i as int].phase), x));
            }
        }
        out
    }

    /// Subscribes every established connection to every document, and
    /// returns, for each new subscription, the document's actor, the
    /// connection and its peer.
    pub fn ensure_connections(&mut self) -> (r: Vec<(DocumentActorId, ConnectionId, PeerId)>)
        requires
            hub_wf(old(self)@),
        ensures
            final(self)@ == (HubView { conns: final(self)@.conns, ..old(self)@ }),
            final(self)@.conns.len() == old(self)@.conns.len(),
            forall|i: int| 0 <= i < old(self)@.conns.len() ==>
                only_subscriptions_grew(old(self)@.conns[i], #[trigger] final(self)@.conns[i]),
            all_subscribed(final(self)@.conns, old(self)@.docs),
            r@.map_values(|e: (DocumentActorId, ConnectionId, PeerId)| (e.0.value(), e.1.value(), e.2@))
                == new_subscriptions(old(self)@.conns, old(self)@.docs),
            hub_wf(final(self)@),
    {
        let ghost before = self@;
        let ghost cs0 = before.conns;
        let ghost docs = before.docs;
        let mut out: Vec<(DocumentActorId, ConnectionId, PeerId)> = Vec::new();
        let mut i: usize = 0;
        while i < self.connections.len()
            invariant
                i <= cs0.len(),
                cs0 == before.conns,
                docs == before.docs,
                self@ == (HubView { conns: self@.conns, ..before }),
                hub_wf(self@),
                self@.conns.len() == cs0.len(),
                forall|a: int| 0 <= a < cs0.len() ==> only_subscriptions_grew(cs0[a], #[trigger] self@.conns[a]),
                forall|a: int| i <= a < cs0.len() ==> #[trigger] self@.conns[a] == cs0[a],
                forall|a: int, b: int| 0 <= a < i && 0 <= b < docs.len() && (#[trigger] self@.conns[a]).phase is Established
                    ==> subs_has(phase_subs(self@.conns[a].phase), (#[trigger] docs[b]).0),
                out@.map_values(|e: (DocumentActorId, ConnectionId, PeerId)| (e.0.value(), e.1.value(), e.2@))
                    == new_subscriptions(cs0.take(i as int), docs),
            decreases cs0.len() - i,
        {
            let ghost o0 = out@;
            let ghost h0 = self@;
            let mut more = self.subscribe_to_all(i);
            proof {
                assert(cs0.take(i + 1).drop_last() =~= cs0.take(i as int));
                assert(cs0.take(i + 1).last() == cs0[i as int]);
            }
            out.append(&mut more);
            proof {
                assert(out@.map_values(|e: (DocumentActorId, ConnectionId, PeerId)| (e.0.value(), e.1.value(), e.2@))
                    =~= new_subscriptions(cs0.take(i + 1), docs));
            }
            i = i + 1;
        }
        proof {
            assert(cs0.take(cs0.len() as int) =~= cs0);
        }
        out
    }
}

proof fn lemma_missing_docs_none(c: ConnectionView, docs: Seq<(Seq<u8>, u64)>)
    requires
        !(c.phase is Established),
    ensures
        missing_docs(c, docs).len() == 0,
    decreases docs.len(),
{
    reveal_with_fuel(Seq::<(Seq<u8>, u64)>::filter, 1);
    if docs.len() > 0 {
        lemma_missing_docs_none(c, docs.drop_last());
    }
}


/// The messages that tell every actor, in order, the same thing.
pub open spec fn to_all_actors(actors: Seq<(u64, Seq<u8>, DocumentStatus)>, m: HubToDocMsgView) -> Seq<(u64, HubToDocMsgView)> {
    actors.map_values(|a: (u64, Seq<u8>, DocumentStatus)| (a.0, m))
}

/// The initial connections of a new actor: every established connection,
/// with the message that came on connection `from`, if any.
pub open spec fn initial_connections(peers: Seq<(u64, Seq<char>)>, from: Option<(u64, DocMessageView)>) -> Seq<(u64, Seq<char>, Option<DocMessageView>)> {
    peers.map_values(|p: (u64, Seq<char>)| (p.0, p.1, match from {
        Some((c, m)) => if c == p.0 { Some(m) } else { None },
        None => None,
    }))
}

/// The connections after every established one was subscribed to `d`.
pub open spec fn subscribe_established(cs: Seq<ConnectionView>, d: Seq<u8>) -> Seq<ConnectionView> {
    cs.map_values(|c: ConnectionView| if c.phase is Established {
        ConnectionView { phase: phase_with_subs(c.phase, subs_set(phase_subs(c.phase), d, empty_doc_state())), ..c }
    } else {
        c
    })
}

/// The hub after it started actor `a` for document `d`.
pub open spec fn hub_after_spawn(h: HubView, a: u64, d: Seq<u8>) -> HubView {
    HubView {
        actors: actors_set(h.actors, a, d, DocumentStatus::Spawned),
        docs: docs_set(h.docs, d, a),
        conns: subscribe_established(h.conns, d),
        ..h
    }
}

/// The optional message's view.
pub open spec fn opt_from_view(m: Option<(ConnectionId, DocMessage)>) -> Option<(u64, DocMessageView)> {
    match m {
        Some((c, x)) => Some((c.value(), x@)),
        None => None,
    }
}

impl Hub {
    /// Tells every actor that a connection went away.
    fn notify_doc_actors_of_removed_connection(&self, out: &mut HubResults, connection_id: ConnectionId)
        ensures
            final(out)@ == (HubResultsView {
                actor_messages: old(out)@.actor_messages + to_all_actors(
                    self@.actors,
                    HubToDocMsgView::ConnectionClosed { connection_id: connection_id.value() },
                ),
                ..old(out)@
            }),
    {
        let ghost o0 = out@;
        let ghost m = HubToDocMsgView::ConnectionClosed { connection_id: connection_id.value() };
        let mut i: usize = 0;
        while i < self.actors.len()
            invariant
                i <= self.actors@.len(),
                m == (HubToDocMsgView::ConnectionClosed { connection_id: connection_id.value() }),
                out@ == (HubResultsView {
                    actor_messages: o0.actor_messages + to_all_actors(self@.actors.take(i as int), m),
                    ..o0
                }),
            decreases self.actors@.len() - i,
        {
            let ghost o1 = out@;
            out.send_to_doc_actor(self.actors[i].actor_id, HubToDocMsgPayload::ConnectionClosed { connection_id });
            proof {
                assert(self@.actors[i as int].0 == self.actors@[i as int].actor_id.value());
                assert(out@.actor_messages == o1.actor_messages.push((self@.actors[i as int].0, m)));
                assert(self@.actors.take(i + 1) =~= self@.actors.take(i as int).push(self@.actors[i as int]));
                assert(to_all_actors(self@.actors.take(i + 1), m) =~= to_all_actors(self@.actors.take(i as int), m).push((self@.actors[i as int].0, m)));
                assert(out@.actor_messages =~= o0.actor_messages + to_all_actors(self@.actors.take(i + 1), m));
            }
            i = i + 1;
        }
        proof {
            assert(self@.actors.take(self@.actors.len() as int) =~= self@.actors);
        }
    }

    /// Tells every actor to stop.
    fn terminate_all_actors(&self, out: &mut HubResults)
        ensures
            final(out)@ == (HubResultsView {
                actor_messages: old(out)@.actor_messages + to_all_actors(self@.actors, HubToDocMsgView::Terminate),
                ..old(out)@
            }),
    {
        let ghost o0 = out@;
        let ghost m = HubToDocMsgView::Terminate;
        let mut i: usize = 0;
        while i < self.actors.len()
            invariant
                i <= self.actors@.len(),
                m == HubToDocMsgView::Terminate,
                out@ == (HubResultsView {
                    actor_messages: o0.actor_messages + to_all_actors(self@.actors.take(i as int), m),
                    ..o0
                }),
            decreases self.actors@.len() - i,
        {
            let ghost o1 = out@;
            out.send_to_doc_actor(self.actors[i].actor_id, HubToDocMsgPayload::Terminate);
            proof {
                assert(self@.actors[i as int].0 == self.actors@[i as int].actor_id.value());
                assert(out@.actor_messages == o1.actor_messages.push((self@.actors[i as int].0, m)));
                assert(self@.actors.take(i + 1) =~= self@.actors.take(i as int).push(self@.actors[i as int]));
                assert(to_all_actors(self@.actors.take(i + 1), m) =~= to_all_actors(self@.actors.take(i as int), m).push((self@.actors[i as int].0, m)));
                assert(out@.actor_messages =~= o0.actor_messages + to_all_actors(self@.actors.take(i + 1), m));
            }
            i = i + 1;
        }
        proof {
            assert(self@.actors.take(self@.actors.len() as int) =~= self@.actors);
        }
    }

    /// Subscribes every established connection to a document.
    fn subscribe_all_established(&mut self, d: &DocumentId)
        requires
            hub_wf(old(self)@),
        ensures
            final(self)@ == (HubView { conns: subscribe_established(old(self)@.conns, d@), ..old(self)@ }),
            hub_wf(final(self)@),
    {
        let ghost before = self@;
        let ghost cs0 = before.conns;
        let mut i: usize = 0;
        while i < self.connections.len()
            invariant
                i <= cs0.len(),
                cs0 == before.conns,
                self@ == (HubView { conns: self@.conns, ..before }),
                hub_wf(self@),
                self@.conns.len() == cs0.len(),
                forall|a: int| 0 <= a < i ==> #[trigger] self@.conns[a] == subscribe_established(cs0, d@)[a],
                forall|a: int| i <= a < cs0.len() ==> #[trigger] self@.conns[a] == cs0[a],
            decreases cs0.len() - i,
        {
            proof {
                assert(self@.conns[i as int] == self.connections@[i as int]@);
            }
            let established = self.connections[i].remote_peer_id().is_some();
            if established {
                self.subscribe_connection(i, d.duplicate());
            }
            i = i + 1;
        }
        proof {
            assert(self@.conns =~= subscribe_established(cs0, d@));
        }
    }

    /// Starts an actor for a document: registers it, subscribes every
    /// established connection to the document, and asks for the actor to
    /// be started with those connections, the message that came on one of
    /// them, and the document's content if there is one.
    pub fn spawn_actor(
        &mut self,
        out: &mut HubResults,
        document_id: DocumentId,
        initial_doc: Option<automerge::Automerge>,
        from_sync_msg: Option<(ConnectionId, DocMessage)>,
    ) -> (r: DocumentActorId)
        requires
            hub_wf(old(self)@),
        ensures
            final(self)@ == hub_after_spawn(old(self)@, r.value(), document_id@),
            final(out)@ == old(out)@.with_spawn(SpawnArgsView {
                actor_id: r.value(),
                local_peer_id: old(self)@.peer_id,
                document_id: document_id@,
                has_initial_content: initial_doc is Some,
                initial_connections: initial_connections(established_of(old(self)@.conns), opt_from_view(from_sync_msg)),
            }),
            hub_wf(final(self)@),
    {
        let ghost before = self@;
        let ghost from = opt_from_view(from_sync_msg);
        let actor_id = DocumentActorId::new();
        self.add_document_actor(actor_id, document_id.duplicate());
        let peers = self.established_peers();
        self.subscribe_all_established(&document_id);
        let mut msg = from_sync_msg;
        let mut conns: Vec<(ConnectionId, PeerId, Option<DocMessage>)> = Vec::new();
        let ghost pv = established_of(before.conns);
        proof {
            assert(established_of(self@.conns) == pv) by {
                lemma_established_of_subscribe(before.conns, document_id@);
            }
            lemma_established_distinct(before.conns);
        }
        let mut i: usize = 0;
        while i < peers.len()
            invariant
                i <= peers@.len(),
                peers@.map_values(|e: (ConnectionId, PeerId)| (e.0.value(), e.1@)) == pv,
                conns@.len() == i,
                forall|k: int| 0 <= k < i ==> (#[trigger] conns@[k]).0.value() == pv[k].0 && conns@[k].1@ == pv[k].1
                    && opt_doc_message_view(conns@[k].2) == initial_connections(pv, from)[k].2,
                msg is Some ==> opt_from_view(msg) == from,
                msg is None ==> forall|k: int| i <= k < pv.len() ==> initial_connections(pv, from)[k].2 is None,
                forall|a: int, b: int| 0 <= a < b < pv.len() ==> #[trigger] pv[a].0 != #[trigger] pv[b].0,
            decreases peers@.len() - i,
        {
            let (c, p) = (peers[i].0, peers[i].1.duplicate());
            proof {
                assert(pv[i as int] == (c.value(), p@));
            }
            let take = match &msg {
                Some((mc, _)) => {
                    proof {
                        lemma_connection_id_eq(*mc, c);
                    }
                    *mc == c
                },
                None => false,
            };
            let m = if take {
                let mut t: Option<(ConnectionId, DocMessage)> = None;
                std::mem::swap(&mut t, &mut msg);
                match t {
                    Some((_, x)) => Some(x),
                    None => None,
                }
            } else {
                None
            };
            proof {
                if take {
                    assert forall|k: int| i < k < pv.len() implies initial_connections(pv, from)[k].2 is None by {
                        assert(pv[i as int].0 != pv[k].0);
                    }
                }
            }
            conns.push((c, p, m));
            i = i + 1;
        }
        proof {
            assert(conns@.map_values(|e: (ConnectionId, PeerId, Option<DocMessage>)| (e.0.value(), e.1@, opt_doc_message_view(e.2)))
                =~= initial_connections(pv, from));
        }
        let local_peer_id = self.peer_id.duplicate();
        out.emit_spawn_actor(SpawnArgs {
            actor_id,
            local_peer_id,
            document_id,
            initial_content: initial_doc,
            initial_connections: conns,
        });
        actor_id
    }
}

proof fn lemma_established_ids(cs: Seq<ConnectionView>)
    ensures
        forall|k: int| 0 <= k < established_of(cs).len() ==> exists|i: int| 0 <= i < cs.len()
            && (#[trigger] established_of(cs)[k]).0 == cs[i].id,
    decreases cs.len(),
{
    if cs.len() > 0 {
        let init = cs.drop_last();
        lemma_established_ids(init);
        let e = established_of(cs);
        assert forall|k: int| 0 <= k < e.len() implies exists|i: int| 0 <= i < cs.len() && (#[trigger] e[k]).0 == cs[i].id by {
            if k < established_of(init).len() {
                assert(e[k] == established_of(init)[k]);
                let i = choose|i: int| 0 <= i < init.len() && established_of(init)[k].0 == init[i].id;
                assert(init[i] == cs[i]);
            } else {
                assert(e[k].0 == cs[cs.len() - 1].id);
            }
        }
    }
}

proof fn lemma_established_distinct(cs: Seq<ConnectionView>)
    requires
        conns_wf(cs),
    ensures
        forall|a: int, b: int| 0 <= a < b < established_of(cs).len() ==>
            #[trigger] established_of(cs)[a].0 != #[trigger] established_of(cs)[b].0,
    decreases cs.len(),
{
    if cs.len() > 0 {
        let init = cs.drop_last();
        assert(conns_wf(init)) by {
            assert forall|i: int, j: int| 0 <= i < j < init.len() implies #[trigger] init[i].id != #[trigger] init[j].id by {
                assert(init[i] == cs[i] && init[j] == cs[j]);
            }
            assert forall|i: int| 0 <= i < init.len() implies phase_wf(#[trigger] init[i].phase) by {
                assert(init[i] == cs[i]);
            }
        }
        lemma_established_distinct(init);
        lemma_established_ids(init);
        let e = established_of(cs);
        let e0 = established_of(init);
        assert forall|a: int, b: int| 0 <= a < b < e.len() implies #[trigger] e[a].0 != #[trigger] e[b].0 by {
            if b < e0.len() {
                assert(e[a] == e0[a] && e[b] == e0[b]);
            } else {
                assert(e[a] == e0[a]);
                let i = choose|i: int| 0 <= i < init.len() && (#[trigger] e0[a]).0 == init[i].id;
                assert(init[i] == cs[i]);
                assert(cs[i].id != cs[cs.len() - 1].id);
            }
        }
    }
}

proof fn lemma_established_of_subscribe(cs: Seq<ConnectionView>, d: Seq<u8>)
    ensures
        established_of(subscribe_established(cs, d)) == established_of(cs),
    decreases cs.len(),
{
    if cs.len() > 0 {
        assert(subscribe_established(cs, d).drop_last() =~= subscribe_established(cs.drop_last(), d));
        lemma_established_of_subscribe(cs.drop_last(), d);
    }
}


/// The connections with `c` put in: replacing the one with its ID, else
/// added at the end.
pub open spec fn conns_put(cs: Seq<ConnectionView>, c: ConnectionView) -> Seq<ConnectionView> {
    if has_conn(cs, c.id) {
        cs.update(conn_pos(cs, c.id), c)
    } else {
        cs.push(c)
    }
}

/// A connection just opened by peer `peer` at `now`, with our metadata.
pub open spec fn fresh_connection(id: u64, peer: Seq<char>, direction: ConnDirection, now: u128) -> ConnectionView {
    ConnectionView {
        id,
        local_peer_id: peer,
        local_ephemeral: Some(false),
        phase: if direction == ConnDirection::Outgoing { PhaseView::WaitingForPeer } else { PhaseView::WaitingForJoin },
        created_at: now,
        last_received: None,
        last_sent: if direction == ConnDirection::Outgoing { Some(now) } else { None },
        dirty: true,
    }
}

/// The join message an outgoing connection of peer `peer` starts with.
pub open spec fn join_message(peer: Seq<char>) -> WireMessageView {
    WireMessageView::Join {
        sender_id: peer,
        supported_protocol_versions: seq![protocol_version()],
        metadata: Some(PeerMetadataView { storage_id: None, is_ephemeral: false }),
    }
}

/// The hub results after connection `id` failed with `error`: the failure
/// reported, every actor told, and the connection closed.
pub open spec fn results_after_failure(out: HubResultsView, actors: Seq<(u64, Seq<u8>, DocumentStatus)>, id: u64, error: Seq<char>) -> HubResultsView {
    HubResultsView {
        actor_messages: out.actor_messages + to_all_actors(actors, HubToDocMsgView::ConnectionClosed { connection_id: id }),
        ..out.with_event(ConnectionEventView::ConnectionFailed { connection_id: id, error })
    }.with_task(HubIoActionView::Disconnect { connection_id: id })
}

/// The ephemeral messages a broadcast sends: one per target that is an
/// established connection, to its peer, in the order of the targets.
pub open spec fn broadcast_sends(
    cs: Seq<ConnectionView>,
    targets: Seq<u64>,
    sender: Seq<char>,
    count: u64,
    session: Seq<char>,
    doc: Seq<u8>,
    data: Seq<u8>,
) -> Seq<HubIoActionView>
    decreases targets.len(),
{
    if targets.len() == 0 {
        Seq::empty()
    } else {
        let rest = broadcast_sends(cs, targets.drop_last(), sender, count, session, doc, data);
        let t = targets.last();
        if has_conn(cs, t) && cs[conn_pos(cs, t)].phase is Established {
            rest.push(HubIoActionView::Send {
                connection_id: t,
                msg: spec_encode(WireMessageView::Ephemeral {
                    sender_id: sender,
                    target_id: cs[conn_pos(cs, t)].phase->remote_peer_id,
                    count,
                    session_id: session,
                    document_id: doc,
                    data,
                }),
            })
        } else {
            rest
        }
    }
}

impl Hub {
    /// Our metadata: we are not ephemeral.
    fn get_local_metadata(&self) -> (r: PeerMetadata)
        ensures
            r.is_ephemeral == false,
    {
        PeerMetadata { is_ephemeral: false }
    }

    /// Opens a connection in the given direction.
    pub fn handle_create_connection(&mut self, now: UnixTimestamp, out: &mut HubResults, direction: ConnDirection) -> (r: CommandResult)
        requires
            hub_wf(old(self)@),
        ensures
            exists|c: ConnectionView| {
                &&& r@ == (CommandResultView::CreateConnection { connection_id: c.id })
                &&& c == fresh_connection(c.id, old(self)@.peer_id, direction, now.millis())
                &&& final(self)@ == (HubView { conns: conns_put(old(self)@.conns, c), ..old(self)@ })
                &&& final(out)@ == if direction == ConnDirection::Outgoing {
                    old(out)@.with_task(HubIoActionView::Send { connection_id: c.id, msg: spec_encode(join_message(old(self)@.peer_id)) })
                } else {
                    old(out)@
                }
            },
            hub_wf(final(self)@),
    {
        let meta = self.get_local_metadata();
        let conn = Connection::new_handshaking(out, direction, self.peer_id.duplicate(), Some(meta), now);
        let connection_id = conn.id();
        let ghost cv = conn@;
        proof {
            assert(phase_subs(cv.phase) =~= Seq::empty());
        }
        self.add_connection(conn);
        let r = CommandResult::CreateConnection { connection_id };
        proof {
            assert(cv == fresh_connection(cv.id, old(self)@.peer_id, direction, now.millis()));
        }
        r
    }

    /// Drops a connection that failed: reports it, tells every actor, and
    /// asks for it to be closed; does nothing for an unknown connection.
    fn fail_connection_with_disconnect(&mut self, out: &mut HubResults, connection_id: ConnectionId, error: String)
        requires
            hub_wf(old(self)@),
        ensures
            has_conn(old(self)@.conns, connection_id.value()) ==> {
                &&& final(self)@ == (HubView {
                    conns: old(self)@.conns.remove(conn_pos(old(self)@.conns, connection_id.value())),
                    ..old(self)@
                })
                &&& final(out)@ == results_after_failure(old(out)@, old(self)@.actors, connection_id.value(), error@)
            },
            !has_conn(old(self)@.conns, connection_id.value()) ==> final(self)@ == old(self)@ && final(out)@ == old(out)@,
            hub_wf(final(self)@),
    {
        match self.remove_connection(connection_id) {
            None => {},
            Some(_c) => {
                let ghost e = error@;
                out.emit_disconnect_event(connection_id, error);
                self.notify_doc_actors_of_removed_connection(out, connection_id);
                out.emit_io_action(HubIoAction::Disconnect { connection_id });
            },
        }
    }

    /// Hands a message about a document to the actor that runs it, starting
    /// one if there is none. A message addressed to another peer is
    /// ignored.
    pub fn handle_doc_message(
        &mut self,
        out: &mut HubResults,
        connection_id: ConnectionId,
        target_id: PeerId,
        document_id: DocumentId,
        msg: DocMessage,
    )
        requires
            hub_wf(old(self)@),
        ensures
            target_id@ != old(self)@.peer_id ==> final(self)@ == old(self)@ && final(out)@ == old(out)@,
            target_id@ == old(self)@.peer_id ==> (actor_for_document(old(self)@, document_id@) matches Some(x) ==> {
                &&& final(self)@ == old(self)@
                &&& final(out)@ == old(out)@.with_actor_message(x.0, HubToDocMsgView::HandleDocMessage {
                    connection_id: connection_id.value(),
                    message: msg@,
                })
            }),
            target_id@ == old(self)@.peer_id ==> (actor_for_document(old(self)@, document_id@) is None ==> exists|a: u64| {
                &&& final(self)@ == hub_after_spawn(old(self)@, a, document_id@)
                &&& final(out)@ == old(out)@.with_spawn(SpawnArgsView {
                    actor_id: a,
                    local_peer_id: old(self)@.peer_id,
                    document_id: document_id@,
                    has_initial_content: false,
                    initial_connections: initial_connections(established_of(old(self)@.conns), Some((connection_id.value(), msg@))),
                })
            }),
            hub_wf(final(self)@),
    {
        if !target_id.same_as(&self.peer_id) {
            return;
        }
        match self.find_actor_for_document(&document_id) {
            Some((a, _)) => {
                out.send_to_doc_actor(a, HubToDocMsgPayload::HandleDocMessage { connection_id, message: msg });
            },
            None => {
                let ghost mv = msg@;
                let a = self.spawn_actor(out, document_id, None, Some((connection_id, msg)));
                proof {
                    assert(opt_from_view(Some((connection_id, msg))) == Some((connection_id.value(), mv)));
                }
            },
        }
    }

    /// Creates a document: a new ID, and an actor that holds the content;
    /// the command completes when the actor reports that it is ready.
    pub fn handle_create_document(&mut self, out: &mut HubResults, command_id: CommandId, content: automerge::Automerge)
        requires
            hub_wf(old(self)@),
        ensures
            exists|a: u64, d: Seq<u8>| {
                &&& d.len() == DOCUMENT_ID_LEN
                &&& final(self)@ == (HubView {
                    pending: PendingView {
                        creates: old(self)@.pending.creates.push((a, command_id.value())),
                        ..old(self)@.pending
                    },
                    ..hub_after_spawn(old(self)@, a, d)
                })
                &&& final(out)@ == old(out)@.with_spawn(SpawnArgsView {
                    actor_id: a,
                    local_peer_id: old(self)@.peer_id,
                    document_id: d,
                    has_initial_content: true,
                    initial_connections: initial_connections(established_of(old(self)@.conns), None),
                })
            },
            hub_wf(final(self)@),
    {
        let document_id = DocumentId::new();
        let actor_id = self.spawn_actor(out, document_id, Some(content), None);
        self.pending.add_pending_create_command(actor_id, command_id);
    }

    /// Finds a document: answers at once if its actor is ready; else waits
    /// for its actor, starting one, or asking it to look again, as needed.
    pub fn handle_find_document(&mut self, out: &mut HubResults, command_id: CommandId, document_id: DocumentId) -> (r: Option<CommandResult>)
        requires
            hub_wf(old(self)@),
        ensures
            actor_for_document(old(self)@, document_id@) matches Some(x) ==> {
                &&& x.2 == DocumentStatus::Ready ==> {
                    &&& r matches Some(res) && res@ == (CommandResultView::FindDocument { found: true, actor_id: x.0 })
                    &&& final(self)@ == old(self)@
                    &&& final(out)@ == old(out)@
                }
                &&& x.2 != DocumentStatus::Ready ==> {
                    &&& r is None
                    &&& final(self)@ == (HubView {
                        pending: PendingView { finds: old(self)@.pending.finds.push((document_id@, command_id.value())), ..old(self)@.pending },
                        ..old(self)@
                    })
                    &&& final(out)@ == if x.2 == DocumentStatus::NotFound {
                        old(out)@.with_actor_message(x.0, HubToDocMsgView::RequestAgain)
                    } else {
                        old(out)@
                    }
                }
            },
            actor_for_document(old(self)@, document_id@) is None ==> r is None && exists|a: u64| {
                &&& final(self)@ == (HubView {
                    pending: PendingView { finds: old(self)@.pending.finds.push((document_id@, command_id.value())), ..old(self)@.pending },
                    ..hub_after_spawn(old(self)@, a, document_id@)
                })
                &&& final(out)@ == old(out)@.with_spawn(SpawnArgsView {
                    actor_id: a,
                    local_peer_id: old(self)@.peer_id,
                    document_id: document_id@,
                    has_initial_content: false,
                    initial_connections: initial_connections(established_of(old(self)@.conns), None),
                })
            },
            hub_wf(final(self)@),
    {
        match self.find_actor_for_document(&document_id) {
            Some((a, status)) => {
                match status {
                    DocumentStatus::Ready => Some(CommandResult::FindDocument { found: true, actor_id: a }),
                    DocumentStatus::NotFound => {
                        out.send_to_doc_actor(a, HubToDocMsgPayload::RequestAgain);
                        self.pending.add_pending_find_command(document_id, command_id);
                        None
                    },
                    _ => {
                        self.pending.add_pending_find_command(document_id, command_id);
                        None
                    },
                }
            },
            None => {
                let _a = self.spawn_actor(out, document_id.duplicate(), None, None);
                self.pending.add_pending_find_command(document_id, command_id);
                None
            },
        }
    }
}


/// The connection events for the handshakes that completed on connection
/// `id`: each names the remote peer, and carries our own metadata (not
/// ephemeral) and protocol version `1`.
pub open spec fn handshake_events(id: u64, events: Seq<ReceiveEventView>) -> Seq<ConnectionEventView>
    decreases events.len(),
{
    if events.len() == 0 {
        Seq::empty()
    } else {
        let rest = handshake_events(id, events.drop_last());
        match events.last() {
            ReceiveEventView::HandshakeComplete { remote_peer_id } =>
                rest.push(ConnectionEventView::HandshakeCompleted {
                    connection_id: id,
                    peer_id: remote_peer_id,
                    ephemeral: Some(false),
                    protocol_version: "1"@,
                }),
            _ => rest,
        }
    }
}

/// The hub's connections after a message about a document was handled: the
/// same connections, some subscribed to more documents.
pub open spec fn conns_grew(before: Seq<ConnectionView>, after: Seq<ConnectionView>) -> bool {
    &&& after.len() == before.len()
    &&& forall|i: int| 0 <= i < before.len() ==> only_subscriptions_grew(before[i], #[trigger] after[i])
}

proof fn lemma_conns_grew_refl(cs: Seq<ConnectionView>)
    ensures
        conns_grew(cs, cs),
{
    assert forall|i: int| 0 <= i < cs.len() implies only_subscriptions_grew(cs[i], #[trigger] cs[i]) by {
        match cs[i].phase {
            PhaseView::Established { .. } => {},
            _ => {},
        }
    }
}

proof fn lemma_conns_grew_trans(a: Seq<ConnectionView>, b: Seq<ConnectionView>, c: Seq<ConnectionView>)
    requires
        conns_grew(a, b),
        conns_grew(b, c),
    ensures
        conns_grew(a, c),
{
    assert forall|i: int| 0 <= i < a.len() implies only_subscriptions_grew(a[i], #[trigger] c[i]) by {
        assert(only_subscriptions_grew(a[i], b[i]));
        assert(only_subscriptions_grew(b[i], c[i]));
    }
}

proof fn lemma_spawn_grows(cs: Seq<ConnectionView>, d: Seq<u8>)
    ensures
        conns_grew(cs, subscribe_established(cs, d)),
{
    let t = subscribe_established(cs, d);
    assert forall|i: int| 0 <= i < cs.len() implies only_subscriptions_grew(cs[i], #[trigger] t[i]) by {
        if cs[i].phase is Established {
            lemma_subs_set_keys(phase_subs(cs[i].phase), d, empty_doc_state());
        }
    }
}

impl Hub {
    /// Sends an ephemeral message of an actor's document to each target
    /// connection that is established; does nothing for an unknown actor.
    pub fn broadcast(&mut self, out: &mut HubResults, from_actor: DocumentActorId, to_connections: Vec<ConnectionId>, msg: Broadcast)
        requires
            hub_wf(old(self)@),
        ensures
            !has_actor(old(self)@.actors, from_actor.value()) ==> final(self)@ == old(self)@ && final(out)@ == old(out)@,
            has_actor(old(self)@.actors, from_actor.value()) ==> {
                let doc = old(self)@.actors[actor_pos(old(self)@.actors, from_actor.value())].1;
                let count = next_count(old(self)@.session.counter);
                &&& final(self)@ == (HubView {
                    session: EphemeralSessionView { counter: count, ..old(self)@.session },
                    ..old(self)@
                })
                &&& final(out)@ == (HubResultsView {
                    tasks: old(out)@.tasks + match msg {
                        Broadcast::New { msg: data } => broadcast_sends(
                            old(self)@.conns,
                            to_connections@.map_values(|c: ConnectionId| c.value()),
                            old(self)@.peer_id,
                            count,
                            old(self)@.session.session_id,
                            doc,
                            data@,
                        ),
                        Broadcast::Gossip { msg: m } => broadcast_sends(
                            old(self)@.conns,
                            to_connections@.map_values(|c: ConnectionId| c.value()),
                            m.sender_id@,
                            m.count,
                            m.session_id@,
                            doc,
                            m.data@,
                        ),
                    },
                    ..old(out)@
                })
            },
            hub_wf(final(self)@),
    {
        let doc = match self.find_document_for_actor(from_actor) {
            None => {
                return;
            },
            Some(d) => d,
        };
        let details = self.ephemeral_session.next_message_session_details();
        let (sender, count, session, data) = match msg {
            Broadcast::New { msg } => (self.peer_id.duplicate(), details.counter, details.session_id, msg),
            Broadcast::Gossip { msg } => (msg.sender_id, msg.count, msg.session_id, msg.data),
        };
        let ghost o0 = out@;
        let ghost targets = to_connections@.map_values(|c: ConnectionId| c.value());
        let ghost cs = self@.conns;
        let mut i: usize = 0;
        while i < to_connections.len()
            invariant
                i <= to_connections@.len(),
                targets == to_connections@.map_values(|c: ConnectionId| c.value()),
                cs == self@.conns,
                conns_wf(cs),
                out@ == (HubResultsView {
                    tasks: o0.tasks + broadcast_sends(cs, targets.take(i as int), sender@, count, session@, doc@, data@),
                    ..o0
                }),
            decreases to_connections@.len() - i,
        {
            let ghost o1 = out@;
            let t = to_connections[i];
            proof {
                assert(targets.take(i + 1).drop_last() =~= targets.take(i as int));
                assert(targets.take(i + 1).last() == t.value());
            }
            match self.find_connection(t) {
                None => {},
                Some(k) => {
                    proof {
                        assert(self@.conns[k as int] == self.connections@[k as int]@);
                    }
                    match self.connections[k].remote_peer_id() {
                        None => {},
                        Some(their) => {
                            let data_copy = data.clone();
                            proof {
                                assert(data_copy@ =~= data@);
                            }
                            let wire = WireMessage::Ephemeral {
                                sender_id: sender.duplicate(),
                                target_id: their.duplicate(),
                                count,
                                session_id: session.clone(),
                                document_id: doc.duplicate(),
                                data: data_copy,
                            };
                            out.send(t, wire.encode());
                        },
                    }
                },
            }
            proof {
                assert(out@.tasks =~= o0.tasks + broadcast_sends(cs, targets.take(i + 1), sender@, count, session@, doc@, data@));
            }
            i = i + 1;
        }
        proof {
            assert(targets.take(targets.len() as int) =~= targets);
        }
    }
}


impl Hub {
    /// Handles bytes that arrived on a connection: decodes them, lets the
    /// connection react, reports finished handshakes, and hands messages
    /// about documents to their actors.
    pub fn handle_receive(&mut self, now: UnixTimestamp, out: &mut HubResults, connection_id: ConnectionId, msg: Vec<u8>) -> (r: CommandResult)
        requires
            hub_wf(old(self)@),
        ensures
            receive_outcome(old(self)@, old(out)@, final(self)@, final(out)@, connection_id.value(), msg@, now.millis(), r@),
            hub_wf(final(self)@),
    {
        let k = match self.find_connection(connection_id) {
            None => {
                proof {
                    reveal_strlit("Connection not found");
                }
                return CommandResult::Receive { connection_id, error: Some("Connection not found".to_string()) };
            },
            Some(k) => k,
        };
        let wire = match WireMessage::decode(msg.as_slice()) {
            Err(e) => {
                let text = e.to_string();
                let mut reason = "Message decode error: ".to_string();
                reason.append(text.as_str());
                let mut error = "Decode error: ".to_string();
                error.append(text.as_str());
                proof {
                    reveal_strlit("Message decode error: ");
                    reveal_strlit("Decode error: ");
                }
                self.fail_connection_with_disconnect(out, connection_id, reason);
                return CommandResult::Receive { connection_id, error: Some(error) };
            },
            Ok(m) => m,
        };
        let ghost h0 = self@;
        let ghost o0 = out@;
        let ghost m0 = wire@;
        let ghost c1 = connection_after_receive(h0.conns[k as int], now.millis(), m0);
        let ghost st = spec_receive(h0.conns[k as int], now.millis(), m0);
        proof {
            assert(self@.conns[k as int] == self.connections@[k as int]@);
        }
        let mut events = self.connections[k].receive_msg(out, now, wire);
        proof {
            assert(self@.conns =~= h0.conns.update(k as int, self.connections@[k as int]@));
            let cs = self@.conns;
            assert forall|a: int, b: int| 0 <= a < b < cs.len() implies #[trigger] cs[a].id != #[trigger] cs[b].id by {
                assert(cs[a].id == h0.conns[a].id && cs[b].id == h0.conns[b].id);
            }
            lemma_conns_grew_refl(cs);
        }
        let ghost evs = receive_events_view(events@);
        let total = events.len();
        assert(evs.len() == total);
        let ghost base = self@.conns;
        let ghost o1 = out@;
        let ghost h1 = self@;
        let ghost l0 = h0.session.last_seen;
        let ghost lam = o1.actor_messages.len() as int;
        let ghost lsp = o1.spawned.len() as int;
        proof {
            assert(h1 == (HubView { conns: h0.conns.update(k as int, c1), ..h0 }));
            assert(out@.actor_messages.skip(lam) =~= Seq::<(u64, HubToDocMsgView)>::empty());
            assert(out@.spawned.skip(lsp) =~= Seq::<SpawnArgsView>::empty());
            assert(evs.take(0) =~= Seq::<ReceiveEventView>::empty());
            assert(o1.actor_messages.is_prefix_of(out@.actor_messages)) by {
                assert(o1.actor_messages =~= out@.actor_messages.subrange(0, lam));
            }
            assert(o1.spawned.is_prefix_of(out@.spawned)) by {
                assert(o1.spawned =~= out@.spawned.subrange(0, lsp));
            }
            assert(self@ == (HubView { session: self@.session, ..spawned_state(h1, out@.spawned.skip(lsp)) }));
        }
        let mut i: usize = 0;
        while events.len() > 0
            invariant
                evs.len() >= i,
                evs.len() == total,
                receive_events_view(events@) == evs.skip(i as int),
                hub_wf(self@),
                conns_grew(base, self@.conns),
                self@.peer_id == h0.peer_id,
                self@.storage_id == h0.storage_id,
                self@.run_state == h0.run_state,
                self@.pending == h0.pending,
                out@.tasks == o1.tasks,
                out@.completed == o1.completed,
                out@.events == o1.events + handshake_events(connection_id.value(), evs.take(i as int)),
                lam == o1.actor_messages.len(),
                lsp == o1.spawned.len(),
                o1.actor_messages.is_prefix_of(out@.actor_messages),
                o1.spawned.is_prefix_of(out@.spawned),
                routed(h1, connection_id.value(), delivered(h0.peer_id, l0, evs.take(i as int)), out@.actor_messages.skip(lam), out@.spawned.skip(lsp)),
                self@ == (HubView { session: self@.session, ..spawned_state(h1, out@.spawned.skip(lsp)) }),
                self@.session == (EphemeralSessionView { last_seen: seen_after(l0, evs.take(i as int)), ..h1.session }),
            decreases events@.len(),
        {
            let ghost e0 = events@;
            let ghost hb = self@;
            let ghost ob = out@;
            let ghost amb = out@.actor_messages.skip(lam);
            let ghost spb = out@.spawned.skip(lsp);
            let ghost dsb = delivered(h0.peer_id, l0, evs.take(i as int));
            let ghost lb = seen_after(l0, evs.take(i as int));
            let ev = events.remove(0);
            proof {
                assert(e0.len() > 0);
                assert(receive_events_view(e0).len() == e0.len());
                assert(i < evs.len());
                assert(receive_events_view(e0)[0] == ev@);
                assert(evs.skip(i as int)[0] == evs[i as int]);
                assert(receive_events_view(events@) =~= evs.skip(i + 1)) by {
                    assert forall|x: int| 0 <= x < events@.len() implies #[trigger] receive_events_view(events@)[x] == evs.skip(i + 1)[x] by {
                        assert(events@[x] == e0[x + 1]);
                        assert(receive_events_view(e0)[x + 1] == evs.skip(i as int)[x + 1]);
                    }
                }
                assert(evs.take(i + 1).drop_last() =~= evs.take(i as int));
                assert(evs.take(i + 1).last() == ev@);
                assert(delivered(h0.peer_id, l0, evs.take(i + 1)) == dsb + event_delivery(h0.peer_id, lb, ev@));
                assert(seen_after(l0, evs.take(i + 1)) == seen_after_event(lb, ev@));
            }
            match ev {
                ReceiveEvent::HandshakeComplete { remote_peer_id } => {
                    let meta = self.get_local_metadata();
                    let info = PeerInfo { peer_id: remote_peer_id, metadata: Some(meta), protocol_version: "1".to_string() };
                    proof {
                        reveal_strlit("1");
                    }
                    out.emit_connection_event(ConnectionEvent::HandshakeCompleted { connection_id, peer_info: info });
                    proof {
                        lemma_conns_grew_refl(self@.conns);
                        lemma_conns_grew_trans(base, hb.conns, self@.conns);
                        assert(dsb + event_delivery(h0.peer_id, lb, ev@) =~= dsb);
                    }
                },
                ReceiveEvent::SyncMessage { doc_id, sender_id: _, target_id, msg } => {
                    let ghost dv = doc_id@;
                    let ghost mv = DocMessageView::Sync(msg@);
                    let ghost tv = target_id@;
                    self.handle_doc_message(out, connection_id, target_id, doc_id, DocMessage::Sync(msg));
                    proof {
                      if tv != h0.peer_id {
                        assert(dsb + event_delivery(h0.peer_id, lb, ev@) =~= dsb);
                        assert(out@.actor_messages.skip(lam) =~= amb);
                        assert(out@.spawned.skip(lsp) =~= spb);
                        lemma_conns_grew_refl(self@.conns);
                        lemma_conns_grew_trans(base, hb.conns, self@.conns);
                      } else {
                        assert(dsb + event_delivery(h0.peer_id, lb, ev@) =~= dsb.push((dv, mv)));
                        lemma_routed_step(h1, connection_id.value(), dsb, amb, spb, hb, ob, self@, out@, lam, lsp, dv, mv);
                        if hb.conns == self@.conns {
                            lemma_conns_grew_refl(self@.conns);
                        } else {
                            let a = choose|a: u64| self@ == hub_after_spawn(hb, a, dv);
                            lemma_spawn_grows(hb.conns, dv);
                        }
                        lemma_conns_grew_trans(base, hb.conns, self@.conns);
                      }
                    }
                },
                ReceiveEvent::EphemeralMessage { doc_id, sender_id, target_id, count, session_id, msg } => {
                    let ghost tv = target_id@;
                    let em = EphemeralMessage { sender_id, session_id, count, data: msg };
                    let ghost emv = em@;
                    match self.ephemeral_session.receive_message(em) {
                        Some(em) => {
                            let ghost hm = self@;
                            let ghost dv = doc_id@;
                            let ghost mv = DocMessageView::Ephemeral(em@);
                            proof {
                                assert(hm == (HubView { session: hm.session, ..spawned_state(h1, spb) }));
                            }
                            self.handle_doc_message(out, connection_id, target_id, doc_id, DocMessage::Ephemeral(em));
                            proof {
                                if tv != h0.peer_id {
                                    assert(dsb + event_delivery(h0.peer_id, lb, ev@) =~= dsb);
                                    assert(out@.actor_messages.skip(lam) =~= amb);
                                    assert(out@.spawned.skip(lsp) =~= spb);
                                    lemma_conns_grew_refl(self@.conns);
                                } else {
                                    assert(dsb + event_delivery(h0.peer_id, lb, ev@) =~= dsb.push((dv, mv)));
                                    lemma_routed_step(h1, connection_id.value(), dsb, amb, spb, hm, ob, self@, out@, lam, lsp, dv, mv);
                                    if hm.conns == self@.conns {
                                        lemma_conns_grew_refl(self@.conns);
                                    } else {
                                        let a = choose|a: u64| self@ == hub_after_spawn(hm, a, dv);
                                        lemma_spawn_grows(hm.conns, dv);
                                    }
                                }
                                lemma_conns_grew_trans(base, hm.conns, self@.conns);
                            }
                        },
                        None => {
                            proof {
                                assert(dsb + event_delivery(h0.peer_id, lb, ev@) =~= dsb);
                                lemma_conns_grew_refl(self@.conns);
                                lemma_conns_grew_trans(base, hb.conns, self@.conns);
                            }
                        },
                    }
                },
            }
            proof {
                assert(out@.events =~= o1.events + handshake_events(connection_id.value(), evs.take(i + 1)));
            }
            i = i + 1;
        }
        proof {
            assert(evs.skip(i as int).len() == 0);
            assert(evs.take(i as int) =~= evs);
        }
        CommandResult::Receive { connection_id, error: None }
    }
}



/// The last numbers seen after one received event: a fresh ephemeral
/// message records its number.
pub open spec fn seen_after_event(last: Seq<(Seq<char>, Seq<char>, u64)>, e: ReceiveEventView) -> Seq<(Seq<char>, Seq<char>, u64)> {
    match e {
        ReceiveEventView::EphemeralMessage { sender_id, session_id, count, .. } =>
            if seen(last, sender_id, session_id, count) { last } else { record_seen(last, sender_id, session_id, count) },
        _ => last,
    }
}

/// The last numbers seen after a list of received events.
pub open spec fn seen_after(last: Seq<(Seq<char>, Seq<char>, u64)>, evs: Seq<ReceiveEventView>) -> Seq<(Seq<char>, Seq<char>, u64)>
    decreases evs.len(),
{
    if evs.len() == 0 {
        last
    } else {
        seen_after_event(seen_after(last, evs.drop_last()), evs.last())
    }
}

/// The document message one received event hands on to peer `me`, if any:
/// a sync message addressed to `me`, and an ephemeral message addressed to
/// `me` that was not seen before. A message for another peer is ignored.
pub open spec fn event_delivery(me: Seq<char>, last: Seq<(Seq<char>, Seq<char>, u64)>, e: ReceiveEventView) -> Seq<(Seq<u8>, DocMessageView)> {
    match e {
        ReceiveEventView::HandshakeComplete { .. } => Seq::empty(),
        ReceiveEventView::SyncMessage { doc_id, target_id, msg, .. } => if target_id == me {
            seq![(doc_id, DocMessageView::Sync(msg))]
        } else {
            Seq::empty()
        },
        ReceiveEventView::EphemeralMessage { doc_id, sender_id, target_id, count, session_id, msg } =>
            if seen(last, sender_id, session_id, count) || target_id != me {
                Seq::empty()
            } else {
                seq![(doc_id, DocMessageView::Ephemeral(EphemeralMessageView { sender_id, session_id, count, data: msg }))]
            },
    }
}

/// The document messages a list of received events hands on, in order.
pub open spec fn delivered(me: Seq<char>, last: Seq<(Seq<char>, Seq<char>, u64)>, evs: Seq<ReceiveEventView>) -> Seq<(Seq<u8>, DocMessageView)>
    decreases evs.len(),
{
    if evs.len() == 0 {
        Seq::empty()
    } else {
        delivered(me, last, evs.drop_last()) + event_delivery(me, seen_after(last, evs.drop_last()), evs.last())
    }
}

/// The hub after it started the actors of `sp`, in order.
pub open spec fn spawned_state(h: HubView, sp: Seq<SpawnArgsView>) -> HubView
    decreases sp.len(),
{
    if sp.len() == 0 {
        h
    } else {
        hub_after_spawn(spawned_state(h, sp.drop_last()), sp.last().actor_id, sp.last().document_id)
    }
}

/// Messages `ds` that came on connection `cid` were routed from hub `h`:
/// in order, each went to the actor of its document as a message in `am`,
/// or, with no such actor, started one as a spawn in `sp` that holds it.
pub open spec fn routed(
    h: HubView,
    cid: u64,
    ds: Seq<(Seq<u8>, DocMessageView)>,
    am: Seq<(u64, HubToDocMsgView)>,
    sp: Seq<SpawnArgsView>,
) -> bool
    decreases ds.len(),
{
    if ds.len() == 0 {
        am.len() == 0 && sp.len() == 0
    } else {
        let d = ds.last().0;
        let m = ds.last().1;
        ||| {
            &&& am.len() > 0
            &&& routed(h, cid, ds.drop_last(), am.drop_last(), sp)
            &&& actor_for_document(spawned_state(h, sp), d) matches Some(x)
                && am.last() == (x.0, HubToDocMsgView::HandleDocMessage { connection_id: cid, message: m })
        }
        ||| {
            &&& sp.len() > 0
            &&& routed(h, cid, ds.drop_last(), am, sp.drop_last())
            &&& actor_for_document(spawned_state(h, sp.drop_last()), d) is None
            &&& sp.last() == (SpawnArgsView {
                actor_id: sp.last().actor_id,
                local_peer_id: h.peer_id,
                document_id: d,
                has_initial_content: false,
                initial_connections: initial_connections(
                    established_of(spawned_state(h, sp.drop_last()).conns),
                    Some((cid, m)),
                ),
            })
        }
    }
}


/// After receiving message `m` on the connection at `pos` of hub `h0`, the
/// document messages it carries (ephemeral ones filtered by the session)
/// were routed from the hub as the connection left it: the new actor
/// messages and spawns of `o1` over `o0` are exactly that routing, the
/// hub's actors and documents are those after the spawns, and the session
/// has seen the ephemeral messages.
pub open spec fn received_and_routed(h0: HubView, o0: HubResultsView, h: HubView, o1: HubResultsView, cid: u64, pos: int, now: u128, m: WireMessageView) -> bool {
    let h1 = HubView { conns: h0.conns.update(pos, connection_after_receive(h0.conns[pos], now, m)), ..h0 };
    let evs = spec_receive(h0.conns[pos], now, m).events;
    let am = o1.actor_messages.skip(o0.actor_messages.len() as int);
    let sp = o1.spawned.skip(o0.spawned.len() as int);
    &&& o0.actor_messages.is_prefix_of(o1.actor_messages)
    &&& o0.spawned.is_prefix_of(o1.spawned)
    &&& routed(h1, cid, delivered(h0.peer_id, h0.session.last_seen, evs), am, sp)
    &&& h.actors == spawned_state(h1, sp).actors
    &&& h.docs == spawned_state(h1, sp).docs
    &&& h.session.last_seen == seen_after(h0.session.last_seen, evs)
}


/// One routing step: a message for document `d` was handed on from hub
/// `hb` (the routing state, up to the session) with results `ob`, giving
/// hub `ha` and results `oa`.
proof fn lemma_routed_step(
    h1: HubView,
    cid: u64,
    ds: Seq<(Seq<u8>, DocMessageView)>,
    am: Seq<(u64, HubToDocMsgView)>,
    sp: Seq<SpawnArgsView>,
    hb: HubView,
    ob: HubResultsView,
    ha: HubView,
    oa: HubResultsView,
    lam: int,
    lsp: int,
    d: Seq<u8>,
    m: DocMessageView,
)
    requires
        0 <= lam <= ob.actor_messages.len(),
        0 <= lsp <= ob.spawned.len(),
        am == ob.actor_messages.skip(lam),
        sp == ob.spawned.skip(lsp),
        routed(h1, cid, ds, am, sp),
        hb == (HubView { session: hb.session, ..spawned_state(h1, sp) }),
        actor_for_document(hb, d) matches Some(x) ==> {
            &&& ha == hb
            &&& oa == ob.with_actor_message(x.0, HubToDocMsgView::HandleDocMessage { connection_id: cid, message: m })
        },
        actor_for_document(hb, d) is None ==> exists|a: u64| {
            &&& ha == hub_after_spawn(hb, a, d)
            &&& oa == ob.with_spawn(SpawnArgsView {
                actor_id: a,
                local_peer_id: hb.peer_id,
                document_id: d,
                has_initial_content: false,
                initial_connections: initial_connections(established_of(hb.conns), Some((cid, m))),
            })
        },
    ensures
        routed(h1, cid, ds.push((d, m)), oa.actor_messages.skip(lam), oa.spawned.skip(lsp)),
        ha == (HubView { session: ha.session, ..spawned_state(h1, oa.spawned.skip(lsp)) }),
        ha.session == hb.session,
        oa.actor_messages.len() >= ob.actor_messages.len(),
        oa.spawned.len() >= ob.spawned.len(),
        oa.actor_messages.subrange(0, ob.actor_messages.len() as int) == ob.actor_messages,
        oa.spawned.subrange(0, ob.spawned.len() as int) == ob.spawned,
        oa.tasks == ob.tasks,
        oa.completed == ob.completed,
        oa.events == ob.events,
{
    let s = spawned_state(h1, sp);
    assert(actor_for_document(hb, d) == actor_for_document(s, d));
    let ds2 = ds.push((d, m));
    assert(ds2.drop_last() =~= ds);
    match actor_for_document(hb, d) {
        Some(x) => {
            let am2 = oa.actor_messages.skip(lam);
            assert(am2 =~= am.push((x.0, HubToDocMsgView::HandleDocMessage { connection_id: cid, message: m })));
            assert(am2.drop_last() =~= am);
            assert(oa.spawned.skip(lsp) =~= sp);
            assert(oa.actor_messages.subrange(0, ob.actor_messages.len() as int) =~= ob.actor_messages);
        },
        None => {
            let a = choose|a: u64| {
                &&& ha == hub_after_spawn(hb, a, d)
                &&& oa == ob.with_spawn(SpawnArgsView {
                    actor_id: a,
                    local_peer_id: hb.peer_id,
                    document_id: d,
                    has_initial_content: false,
                    initial_connections: initial_connections(established_of(hb.conns), Some((cid, m))),
                })
            };
            let sp2 = oa.spawned.skip(lsp);
            assert(sp2 =~= sp.push(oa.spawned.last()));
            assert(sp2.drop_last() =~= sp);
            assert(oa.actor_messages.skip(lam) =~= am);
            assert(oa.spawned.subrange(0, ob.spawned.len() as int) =~= ob.spawned);
            assert(spawned_state(h1, sp2) == hub_after_spawn(s, a, d));
            assert(h1.peer_id == s.peer_id) by {
                lemma_spawned_state_keeps(h1, sp);
            }
        },
    }
}

proof fn lemma_spawned_state_keeps(h: HubView, sp: Seq<SpawnArgsView>)
    ensures
        spawned_state(h, sp).peer_id == h.peer_id,
        spawned_state(h, sp).storage_id == h.storage_id,
        spawned_state(h, sp).run_state == h.run_state,
        spawned_state(h, sp).pending == h.pending,
        spawned_state(h, sp).session == h.session,
    decreases sp.len(),
{
    if sp.len() > 0 {
        lemma_spawned_state_keeps(h, sp.drop_last());
    }
}


/// What receiving bytes `msg` on connection `cid` does to hub `h0` and
/// results `o0`, giving hub `h`, results `o1` and command result `r`: an
/// unknown connection is reported; bytes that do not decode drop the
/// connection and report why; a decoded message advances the connection,
/// sends its reply, reports a finished handshake, and routes the document
/// messages it carries.
pub open spec fn receive_outcome(h0: HubView, o0: HubResultsView, h: HubView, o1: HubResultsView, cid: u64, msg: Seq<u8>, now: u128, r: CommandResultView) -> bool {
    &&& (!has_conn(h0.conns, cid) ==> {
                &&& r == (CommandResultView::Receive { connection_id: cid, error: Some("Connection not found"@) })
                &&& h == h0
                &&& o1 == o0
            })
    &&& (has_conn(h0.conns, cid) ==> match spec_decode(msg) {
                Err(e) => {
                    &&& r == (CommandResultView::Receive {
                        connection_id: cid,
                        error: Some("Decode error: "@ + decode_error_text(e)),
                    })
                    &&& h == (HubView {
                        conns: h0.conns.remove(conn_pos(h0.conns, cid)),
                        ..h0
                    })
                    &&& o1 == results_after_failure(
                        o0,
                        h0.actors,
                        cid,
                        "Message decode error: "@ + decode_error_text(e),
                    )
                },
                Ok(m) => {
                    let pos = conn_pos(h0.conns, cid);
                    let st = spec_receive(h0.conns[pos], now, m);
                    &&& r == (CommandResultView::Receive { connection_id: cid, error: None })
                    &&& conns_grew(
                        h0.conns.update(pos, connection_after_receive(h0.conns[pos], now, m)),
                        h.conns,
                    )
                    &&& h.peer_id == h0.peer_id
                    &&& h.storage_id == h0.storage_id
                    &&& h.run_state == h0.run_state
                    &&& h.pending == h0.pending
                    &&& o1.tasks == results_after_reply(o0, cid, st.reply).tasks
                    &&& o1.events == o0.events + handshake_events(cid, st.events)
                    &&& o1.completed == o0.completed
                    &&& received_and_routed(h0, o0, h, o1, cid, pos, now, m)
                },
            })
}

/// No connection is closed.
pub open spec fn none_closed(cs: Seq<ConnectionView>) -> bool {
    forall|i: int| 0 <= i < cs.len() ==> !((#[trigger] cs[i]).phase is Closed)
}

/// No connection changed since its information was last taken.
pub open spec fn none_dirty(cs: Seq<ConnectionView>) -> bool {
    forall|i: int| 0 <= i < cs.len() ==> !(#[trigger] cs[i]).dirty
}

proof fn lemma_open_conns_none_closed(s: Seq<ConnectionView>)
    requires
        conns_wf(s),
    ensures
        none_closed(open_conns(s)),
{
    lemma_open_conns_wf(s);
    let o = open_conns(s);
    assert forall|i: int| 0 <= i < o.len() implies !((#[trigger] o[i]).phase is Closed) by {
        assert(o.contains(o[i]));
    }
}

proof fn lemma_grew_keeps_none_closed(a: Seq<ConnectionView>, b: Seq<ConnectionView>)
    requires
        none_closed(a),
        b.len() == a.len(),
        forall|i: int| 0 <= i < a.len() ==> only_subscriptions_grew(a[i], #[trigger] b[i]),
    ensures
        none_closed(b),
{
    assert forall|i: int| 0 <= i < b.len() implies !((#[trigger] b[i]).phase is Closed) by {
        assert(only_subscriptions_grew(a[i], b[i]));
    }
}

/// Every connection with its changed mark cleared.
pub open spec fn cleared(cs: Seq<ConnectionView>) -> Seq<ConnectionView> {
    cs.map_values(|c: ConnectionView| ConnectionView { dirty: false, ..c })
}

proof fn lemma_cleared(cs: Seq<ConnectionView>, docs: Seq<(Seq<u8>, u64)>)
    ensures
        none_dirty(cleared(cs)),
        none_closed(cs) ==> none_closed(cleared(cs)),
        all_subscribed(cs, docs) ==> all_subscribed(cleared(cs), docs),
        conns_wf(cs) ==> conns_wf(cleared(cs)),
{
    let t = cleared(cs);
    assert forall|i: int| 0 <= i < t.len() implies !(#[trigger] t[i]).dirty by {}
    if none_closed(cs) {
        assert forall|i: int| 0 <= i < t.len() implies !((#[trigger] t[i]).phase is Closed) by {
            assert(t[i].phase == cs[i].phase);
        }
    }
    if all_subscribed(cs, docs) {
        assert forall|i: int, j: int| 0 <= i < t.len() && 0 <= j < docs.len() && (#[trigger] t[i]).phase is Established
            implies subs_has(phase_subs(t[i].phase), (#[trigger] docs[j]).0) by {
            assert(t[i].phase == cs[i].phase);
            assert(cs[i].phase is Established);
        }
    }
    if conns_wf(cs) {
        assert forall|i: int, j: int| 0 <= i < j < t.len() implies #[trigger] t[i].id != #[trigger] t[j].id by {
            assert(t[i].id == cs[i].id && t[j].id == cs[j].id);
        }
        assert forall|i: int| 0 <= i < t.len() implies phase_wf(#[trigger] t[i].phase) by {
            assert(t[i].phase == cs[i].phase);
        }
    }
}

/// The results `o`, with the command's result recorded when there is one.
pub open spec fn with_result(o: HubResultsView, c: u64, r: Option<CommandResult>) -> HubResultsView {
    match r {
        Some(x) => o.with_completed(c, x@),
        None => o,
    }
}

/// What finding document `d` for command `c` does from hub `h0` and results
/// `o0`, giving `h` and `o`: an actor that is ready answers at once; one
/// that is not yet ready makes the command wait (an actor that found
/// nothing is asked to look again); with no actor, one is started and the
/// command waits.
pub open spec fn find_step(h0: HubView, o0: HubResultsView, c: u64, d: Seq<u8>, h: HubView, o: HubResultsView) -> bool {
    let waiting = HubView { pending: PendingView { finds: h0.pending.finds.push((d, c)), ..h0.pending }, ..h0 };
    match actor_for_document(h0, d) {
        Some(x) => if x.2 == DocumentStatus::Ready {
            h == h0 && o == o0.with_completed(c, CommandResultView::FindDocument { found: true, actor_id: x.0 })
        } else {
            &&& h == waiting
            &&& o == if x.2 == DocumentStatus::NotFound {
                o0.with_actor_message(x.0, HubToDocMsgView::RequestAgain)
            } else {
                o0
            }
        },
        None => exists|a: u64| {
            &&& h == (HubView {
                pending: PendingView { finds: h0.pending.finds.push((d, c)), ..h0.pending },
                ..hub_after_spawn(h0, a, d)
            })
            &&& o == o0.with_spawn(SpawnArgsView {
                actor_id: a,
                local_peer_id: h0.peer_id,
                document_id: d,
                has_initial_content: false,
                initial_connections: initial_connections(established_of(h0.conns), None),
            })
        },
    }
}

/// What running command `command` under ID `c` at time `now` does from hub
/// `h0` and results `o0`, giving `h` and `o` (its result recorded when it
/// is done at once).
pub open spec fn command_step(h0: HubView, o0: HubResultsView, c: u64, command: Command, now: u128, h: HubView, o: HubResultsView) -> bool {
    match command {
        Command::CreateConnection { direction } => exists|conn: ConnectionView| {
            &&& conn == fresh_connection(conn.id, h0.peer_id, direction, now)
            &&& h == (HubView { conns: conns_put(h0.conns, conn), ..h0 })
            &&& o == (if direction == ConnDirection::Outgoing {
                o0.with_task(HubIoActionView::Send { connection_id: conn.id, msg: spec_encode(join_message(h0.peer_id)) })
            } else {
                o0
            }).with_completed(c, CommandResultView::CreateConnection { connection_id: conn.id })
        },
        Command::Receive { connection_id, msg } => exists|o1: HubResultsView, x: CommandResultView| {
            &&& receive_outcome(h0, o0, h, o1, connection_id.value(), msg@, now, x)
            &&& o == o1.with_completed(c, x)
        },
        Command::ActorReady { .. } => h == h0 && o == o0.with_completed(c, CommandResultView::ActorReady),
        Command::CreateDocument { .. } => exists|a: u64, d: Seq<u8>| {
            &&& d.len() == DOCUMENT_ID_LEN
            &&& h == (HubView {
                pending: PendingView { creates: h0.pending.creates.push((a, c)), ..h0.pending },
                ..hub_after_spawn(h0, a, d)
            })
            &&& o == o0.with_spawn(SpawnArgsView {
                actor_id: a,
                local_peer_id: h0.peer_id,
                document_id: d,
                has_initial_content: true,
                initial_connections: initial_connections(established_of(h0.conns), None),
            })
        },
        Command::FindDocument { document_id } => find_step(h0, o0, c, document_id@, h, o),
    }
}

/// What a message from actor `a` does from hub `h0` and results `o0`,
/// giving `h` and `o` (`e` is the event that carries it).
pub open spec fn actor_message_step(
    h0: HubView,
    o0: HubResultsView,
    a: u64,
    m: DocToHubMsgPayload,
    e: HubEvent,
    h: HubView,
    o: HubResultsView,
) -> bool {
    let known = has_actor(h0.actors, a);
    let i = actor_pos(h0.actors, a);
    match m {
        DocToHubMsgPayload::DocumentStatusChanged { new_status } => {
            &&& o == o0
            &&& known ==> h == (HubView {
                actors: h0.actors.update(i, (a, h0.actors[i].1, new_status)),
                pending: pending_after_status(h0.pending, a, h0.actors[i].1, new_status),
                ..h0
            })
            &&& !known ==> h == h0
        },
        DocToHubMsgPayload::SendSyncMessage { .. } => h == h0 && o == (HubResultsView { tasks: o0.tasks + sync_sends(h0, e), ..o0 }),
        DocToHubMsgPayload::PeerStatesChanged { new_states } => {
            &&& o == o0
            &&& known ==> h == (HubView {
                conns: conns_with_states(
                    h0.conns,
                    h0.actors[i].1,
                    new_states@.map_values(|x: (ConnectionId, PeerDocState)| (x.0.value(), x.1@)),
                ),
                ..h0
            })
            &&& !known ==> h == h0
        },
        DocToHubMsgPayload::Broadcast { connections, msg } => {
            let doc = h0.actors[i].1;
            let count = next_count(h0.session.counter);
            let to = connections@.map_values(|c: ConnectionId| c.value());
            &&& !known ==> h == h0 && o == o0
            &&& known ==> h == (HubView { session: EphemeralSessionView { counter: count, ..h0.session }, ..h0 })
            &&& known ==> o == (HubResultsView {
                tasks: o0.tasks + match msg {
                    Broadcast::New { msg: data } => broadcast_sends(h0.conns, to, h0.peer_id, count, h0.session.session_id, doc, data@),
                    Broadcast::Gossip { msg: g } => broadcast_sends(h0.conns, to, g.sender_id@, g.count, g.session_id@, doc, g.data@),
                },
                ..o0
            })
        },
        DocToHubMsgPayload::Terminated => {
            &&& o == o0
            &&& known ==> h == (HubView { actors: h0.actors.remove(i), ..h0 })
            &&& !known ==> h == h0
        },
    }
}

/// What hub `h0` does with event `e` at time `now` before it tidies up,
/// giving `h` and, from results `o0`, `o`.
pub open spec fn event_step(h0: HubView, o0: HubResultsView, e: HubEvent, now: u128, h: HubView, o: HubResultsView) -> bool {
    match e {
        HubEvent::IoComplete(_) => h == h0 && o == o0,
        HubEvent::Input(input) => match input {
            HubInput::Stop => {
                &&& h == (HubView { run_state: state_after_step(e, h0.run_state), ..h0 })
                &&& o == (HubResultsView { actor_messages: o0.actor_messages + stop_messages(e, h0), ..o0 })
            },
            HubInput::Tick => h == h0 && o == o0,
            HubInput::Command { command_id, command } => if h0.run_state == RunState::Running {
                command_step(h0, o0, command_id.value(), command, now, h, o)
            } else {
                h == h0 && o == o0
            },
            HubInput::ActorMessage { actor_id, message } => actor_message_step(h0, o0, actor_id.value(), message, e, h, o),
            HubInput::ConnectionLost { connection_id } => if has_conn(h0.conns, connection_id.value()) {
                &&& h == (HubView { conns: h0.conns.remove(conn_pos(h0.conns, connection_id.value())), ..h0 })
                &&& o == (HubResultsView {
                    actor_messages: o0.actor_messages + to_all_actors(
                        h0.actors,
                        HubToDocMsgView::ConnectionClosed { connection_id: connection_id.value() },
                    ),
                    ..o0.with_event(ConnectionEventView::ConnectionFailed {
                        connection_id: connection_id.value(),
                        error: "Connection lost externally"@,
                    })
                })
            } else {
                h == h0 && o == o0
            },
        },
    }
}

impl Hub {
    /// Runs a command; returns its result when it is done at once.
    pub fn handle_command(&mut self, now: UnixTimestamp, out: &mut HubResults, command_id: CommandId, command: Command) -> (r: Option<CommandResult>)
        requires
            hub_wf(old(self)@),
        ensures
            hub_wf(final(self)@),
            final(self)@.peer_id == old(self)@.peer_id,
            final(self)@.storage_id == old(self)@.storage_id,
            final(self)@.run_state == old(self)@.run_state,
            final(out)@.completed == old(out)@.completed,
            final(self)@.pending.completed == old(self)@.pending.completed,
            command is ActorReady ==> (r matches Some(x) && x@ == CommandResultView::ActorReady),
            command is CreateDocument ==> r is None,
            command is CreateConnection ==> (r matches Some(x) && x@ is CreateConnection),
            command matches Command::CreateConnection { direction } ==> (r matches Some(x)
                && x@ matches CommandResultView::CreateConnection { connection_id: c }
                && final(out)@.tasks == if direction == ConnDirection::Outgoing {
                    old(out)@.tasks.push(HubIoActionView::Send { connection_id: c, msg: spec_encode(join_message(old(self)@.peer_id)) })
                } else {
                    old(out)@.tasks
                }),
            command is Receive ==> (r matches Some(x) && x@ is Receive),
            command matches Command::Receive { connection_id, msg } ==> (r matches Some(x) && receive_outcome(
                old(self)@,
                old(out)@,
                final(self)@,
                final(out)@,
                connection_id.value(),
                msg@,
                now.millis(),
                x@,
            )),
            command_step(old(self)@, old(out)@, command_id.value(), command, now.millis(), final(self)@, with_result(final(out)@, command_id.value(), r)),
    {
        match command {
            Command::CreateConnection { direction } => Some(self.handle_create_connection(now, out, direction)),
            Command::Receive { connection_id, msg } => Some(self.handle_receive(now, out, connection_id, msg)),
            Command::ActorReady { document_id: _ } => Some(CommandResult::ActorReady),
            Command::CreateDocument { content } => {
                self.handle_create_document(out, command_id, content);
                None
            },
            Command::FindDocument { document_id } => self.handle_find_document(out, command_id, document_id),
        }
    }
}


/// The event is a stop input.
pub open spec fn is_stop(e: HubEvent) -> bool {
    e matches HubEvent::Input(HubInput::Stop)
}

/// The event is an actor reporting that its document was not found.
pub open spec fn not_found_report(e: HubEvent, a: u64) -> bool {
    e matches HubEvent::Input(HubInput::ActorMessage {
        actor_id,
        message: DocToHubMsgPayload::DocumentStatusChanged { new_status: DocumentStatus::NotFound },
    }) && actor_id.value() == a
}


/// For each closed connection, in order, a `ConnectionClosed` message to
/// every actor.
pub open spec fn closed_notices(actors: Seq<(u64, Seq<u8>, DocumentStatus)>, ids: Seq<u64>) -> Seq<(u64, HubToDocMsgView)>
    decreases ids.len(),
{
    if ids.len() == 0 {
        Seq::empty()
    } else {
        closed_notices(actors, ids.drop_last()) + to_all_actors(
            actors,
            HubToDocMsgView::ConnectionClosed { connection_id: ids.last() },
        )
    }
}

/// The `NewConnection` messages for new subscriptions (actor, connection,
/// peer).
pub open spec fn new_connection_msgs(subs: Seq<(u64, u64, Seq<char>)>) -> Seq<(u64, HubToDocMsgView)> {
    subs.map_values(|e: (u64, u64, Seq<char>)| (e.0, HubToDocMsgView::NewConnection { connection_id: e.1, peer_id: e.2 }))
}

/// The messages to actors that the tidy-up after a step sends, from the
/// hub `h` as the step left it: the closed connections are reported to
/// every actor, then, while running, each new subscription is announced to
/// its document's actor.
pub open spec fn tidy_messages(h: HubView) -> Seq<(u64, HubToDocMsgView)> {
    closed_notices(h.actors, closed_ids(h.conns)) + if h.run_state == RunState::Running {
        new_connection_msgs(new_subscriptions(open_conns(h.conns), h.docs))
    } else {
        Seq::empty()
    }
}

/// The run state after the step for event `e`: a stop ends running.
pub open spec fn state_after_step(e: HubEvent, rs: RunState) -> RunState {
    if is_stop(e) && rs == RunState::Running { RunState::Stopping } else { rs }
}

/// The messages to actors that the step for `e` sends from hub `h` when it
/// is quiet: a stop of a running hub tells every actor to terminate.
pub open spec fn stop_messages(e: HubEvent, h: HubView) -> Seq<(u64, HubToDocMsgView)> {
    if is_stop(e) && h.run_state == RunState::Running {
        to_all_actors(h.actors, HubToDocMsgView::Terminate)
    } else {
        Seq::empty()
    }
}

/// The event changes nothing in the step but, for a stop, the run state:
/// an I/O completion, a tick, a stop, a command to a hub that is not
/// running, or the loss of a connection the hub does not have.
pub open spec fn quiet(e: HubEvent, h: HubView) -> bool {
    ||| e is IoComplete
    ||| e matches HubEvent::Input(HubInput::Tick)
    ||| is_stop(e)
    ||| (e matches HubEvent::Input(HubInput::Command { .. }) && h.run_state != RunState::Running)
    ||| (e matches HubEvent::Input(HubInput::ConnectionLost { connection_id }) && !has_conn(h.conns, connection_id.value()))
}

/// The sends for an actor's sync message: one encoded message on its
/// connection when the connection is established, addressed to its peer.
pub open spec fn sync_sends(h: HubView, e: HubEvent) -> Seq<HubIoActionView> {
    match e {
        HubEvent::Input(HubInput::ActorMessage {
            message: DocToHubMsgPayload::SendSyncMessage { document_id, connection_id, message },
            ..
        }) => if has_conn(h.conns, connection_id.value())
            && h.conns[conn_pos(h.conns, connection_id.value())].phase is Established {
            seq![HubIoActionView::Send {
                connection_id: connection_id.value(),
                msg: spec_encode(spec_wire_from_sync(
                    h.peer_id,
                    h.conns[conn_pos(h.conns, connection_id.value())].phase->remote_peer_id,
                    document_id@,
                    message@,
                )),
            }]
        } else {
            Seq::empty()
        },
        _ => Seq::empty(),
    }
}

proof fn lemma_hub_prefix_append<A>(a: Seq<A>, b: Seq<A>)
    ensures
        a.is_prefix_of(a + b),
{
    assert(a =~= (a + b).subrange(0, a.len() as int));
}

proof fn lemma_hub_prefix_trans<A>(a: Seq<A>, b: Seq<A>, c: Seq<A>)
    requires
        a.is_prefix_of(b),
        b.is_prefix_of(c),
    ensures
        a.is_prefix_of(c),
{
    assert forall|i: int| 0 <= i < a.len() implies #[trigger] c[i] == a[i] by {
        assert(a[i] == b.subrange(0, a.len() as int)[i]);
        assert(b[i] == c.subrange(0, b.len() as int)[i]);
    }
    assert(a =~= c.subrange(0, a.len() as int));
}

impl Hub {
    /// After a step: drops the closed connections, telling every actor;
    /// while running, subscribes every established connection to every
    /// document, telling each document's actor; reports the connections
    /// that changed; hands out the finished commands; and stops once
    /// stopping with no actor left.
    fn tidy(&mut self, results: &mut HubResults)
        requires
            hub_wf(old(self)@),
        ensures
            hub_wf(final(self)@),
            final(self)@.peer_id == old(self)@.peer_id,
            final(self)@.storage_id == old(self)@.storage_id,
            final(self)@.actors == old(self)@.actors,
            final(self)@.docs == old(self)@.docs,
            final(self)@.pending == (PendingView { completed: Seq::empty(), ..old(self)@.pending }),
            final(self)@.run_state == (if old(self)@.run_state == RunState::Stopping && old(self)@.actors.len() == 0 {
                RunState::Stopped
            } else {
                old(self)@.run_state
            }),
            none_closed(final(self)@.conns),
            none_dirty(final(self)@.conns),
            final(self)@.run_state == RunState::Running ==> all_subscribed(final(self)@.conns, final(self)@.docs),
            final(results)@.actor_messages == old(results)@.actor_messages + tidy_messages(old(self)@),
            final(results)@.tasks == old(results)@.tasks,
            final(results)@.completed == old(results)@.completed + old(self)@.pending.completed,
            final(results)@.spawned == old(results)@.spawned,
            old(results)@.events.is_prefix_of(final(results)@.events),
            final(results)@.stopped == (final(self)@.run_state == RunState::Stopped),
            forall|c: u64| handshaking(old(self)@.conns, c) ==> #[trigger] handshaking(final(self)@.conns, c),
    {
        let ghost s1 = self@;
        let ghost r1 = results@;
        let closed = self.pop_closed_connections();
        let ghost s_open = self@;
        proof {
            assert forall|c: u64| handshaking(s1.conns, c) implies #[trigger] handshaking(s_open.conns, c) by {
                let i = choose|i: int| 0 <= i < s1.conns.len() && #[trigger] s1.conns[i].id == c
                    && !(s1.conns[i].phase is Established) && !(s1.conns[i].phase is Closed);
                let pred = |x: ConnectionView| !(x.phase is Closed);
                s1.conns.lemma_filter_contains(pred, i);
                assert(s_open.conns == s1.conns.filter(pred));
                let j = choose|j: int| 0 <= j < s_open.conns.len() && s_open.conns[j] == s1.conns[i];
                assert(s_open.conns[j].id == c);
            }
        }
        proof {
            lemma_open_conns_none_closed(s1.conns);
        }
        let ghost cids = closed@.map_values(|c: ConnectionId| c.value());
        let ghost s2 = self@;
        let mut i: usize = 0;
        while i < closed.len()
            invariant
                i <= closed@.len(),
                cids == closed@.map_values(|c: ConnectionId| c.value()),
                self@ == s2,
                s2.actors == s1.actors,
                results@ == (HubResultsView {
                    actor_messages: r1.actor_messages + closed_notices(s1.actors, cids.take(i as int)),
                    ..r1
                }),
            decreases closed@.len() - i,
        {
            let ghost am = results@.actor_messages;
            self.notify_doc_actors_of_removed_connection(results, closed[i]);
            proof {
                assert(cids.take(i + 1).drop_last() =~= cids.take(i as int));
                assert(cids.take(i + 1).last() == cids[i as int]);
                assert(results@.actor_messages =~= r1.actor_messages + closed_notices(s1.actors, cids.take(i + 1)));
            }
            i = i + 1;
        }
        proof {
            assert(cids.take(cids.len() as int) =~= cids);
        }
        let ghost r2 = results@;
        // Subscribe every established connection to every document.
        if self.run_state == RunState::Running {
            let added = self.ensure_connections();
            proof {
                lemma_grew_keeps_none_closed(s2.conns, self@.conns);
                assert forall|c: u64| handshaking(s2.conns, c) implies #[trigger] handshaking(self@.conns, c) by {
                    let i = choose|i: int| 0 <= i < s2.conns.len() && #[trigger] s2.conns[i].id == c
                        && !(s2.conns[i].phase is Established) && !(s2.conns[i].phase is Closed);
                    assert(only_subscriptions_grew(s2.conns[i], self@.conns[i]));
                    assert(self@.conns[i].id == c);
                }
            }
            let ghost av = added@.map_values(|e: (DocumentActorId, ConnectionId, PeerId)| (e.0.value(), e.1.value(), e.2@));
            let ghost s3a = self@;
            let mut j: usize = 0;
            while j < added.len()
                invariant
                    j <= added@.len(),
                    av == added@.map_values(|e: (DocumentActorId, ConnectionId, PeerId)| (e.0.value(), e.1.value(), e.2@)),
                    self@ == s3a,
                    results@ == (HubResultsView {
                        actor_messages: r2.actor_messages + new_connection_msgs(av.take(j as int)),
                        ..r2
                    }),
                decreases added@.len() - j,
            {
                let (a, c, p) = (added[j].0, added[j].1, added[j].2.duplicate());
                results.send_to_doc_actor(a, HubToDocMsgPayload::NewConnection { connection_id: c, peer_id: p });
                proof {
                    assert(av.take(j + 1) =~= av.take(j as int).push(av[j as int]));
                    assert(new_connection_msgs(av.take(j + 1)) =~= new_connection_msgs(av.take(j as int)).push(
                        (av[j as int].0, HubToDocMsgView::NewConnection { connection_id: av[j as int].1, peer_id: av[j as int].2 }),
                    ));
                    assert(results@.actor_messages =~= r2.actor_messages + new_connection_msgs(av.take(j + 1)));
                }
                j = j + 1;
            }
            proof {
                assert(av.take(av.len() as int) =~= av);
            }
        }
        proof {
            assert(results@.actor_messages =~= r1.actor_messages + tidy_messages(s1));
        }
        let ghost s3 = self@;
        let ghost r3 = results@;
        proof {
            assert(forall|c: u64| handshaking(s1.conns, c) ==> #[trigger] handshaking(s3.conns, c));
        }
        // Report the connections that changed.
        let infos = self.pop_new_connection_info();
        proof {
            lemma_cleared(s3.conns, s3.docs);
            assert(self@.conns == cleared(s3.conns));
            assert forall|c: u64| handshaking(s3.conns, c) implies #[trigger] handshaking(self@.conns, c) by {
                let i = choose|i: int| 0 <= i < s3.conns.len() && #[trigger] s3.conns[i].id == c
                    && !(s3.conns[i].phase is Established) && !(s3.conns[i].phase is Closed);
                assert(self@.conns[i].id == c);
            }
        }
        let mut infos = infos;
        while infos.len() > 0
            invariant
                results@ == (HubResultsView { events: results@.events, ..r3 }),
                r3.events.is_prefix_of(results@.events),
            decreases infos@.len(),
        {
            let ghost eb = results@.events;
            let (c, info) = infos.pop().unwrap();
            results.emit_connection_event(ConnectionEvent::StateChanged { connection_id: c, new_state: info });
            proof {
                assert(eb.is_prefix_of(results@.events)) by {
                    assert(eb =~= results@.events.subrange(0, eb.len() as int));
                }
                lemma_hub_prefix_trans(r3.events, eb, results@.events);
            }
        }
        proof {
            lemma_hub_prefix_trans(r1.events, r3.events, results@.events);
        }
        // Hand out the commands that finished.
        let ghost pc = self@.pending.completed;
        let mut done = self.pending.pop_completed_commands();
        let ghost cd = results@.completed;
        let ghost dv = done@.map_values(|e: (CommandId, CommandResult)| (e.0.value(), e.1@));
        results.completed_commands.append(&mut done);
        proof {
            assert(results@.completed =~= cd + dv);
        }
        if self.run_state == RunState::Stopping && self.actors.len() == 0 {
            self.run_state = RunState::Stopped;
        }
        results.stopped = self.run_state == RunState::Stopped;
    }
}

impl Hub {
    /// Handles one event, then tidies up: drops closed connections (telling
    /// every actor), subscribes every established connection to every
    /// document while running, reports the connections that changed, hands
    /// out the finished commands, and stops once stopping with no actor
    /// left.
    pub fn handle_event(&mut self, now: UnixTimestamp, event: HubEvent, results: &mut HubResults)
        requires
            hub_wf(old(self)@),
            old(self)@.run_state != RunState::Stopped,
            forall|a: u64| not_found_report(event, a) ==> no_pending_create(old(self)@.pending, a),
        ensures
            hub_wf(final(self)@),
            exists|h: HubView, o: HubResultsView| {
                &&& event_step(old(self)@, old(results)@, event, now.millis(), h, o)
                &&& final(self)@.actors == h.actors
                &&& final(self)@.docs == h.docs
                &&& final(self)@.pending == (PendingView { completed: Seq::empty(), ..h.pending })
                &&& final(self)@.run_state == if h.run_state == RunState::Stopping && h.actors.len() == 0 {
                    RunState::Stopped
                } else {
                    h.run_state
                }
                &&& final(results)@.actor_messages == o.actor_messages + tidy_messages(h)
                &&& final(results)@.tasks == o.tasks
                &&& final(results)@.completed == o.completed + h.pending.completed
                &&& final(results)@.spawned == o.spawned
                &&& o.events.is_prefix_of(final(results)@.events)
                &&& forall|c: u64| handshaking(h.conns, c) ==> #[trigger] handshaking(final(self)@.conns, c)
            },
            final(self)@.peer_id == old(self)@.peer_id,
            final(self)@.storage_id == old(self)@.storage_id,
            none_closed(final(self)@.conns),
            none_dirty(final(self)@.conns),
            final(self)@.run_state == RunState::Running ==> all_subscribed(final(self)@.conns, final(self)@.docs),
            final(self)@.run_state == RunState::Stopped ==> final(self)@.actors.len() == 0,
            final(results)@.stopped == (final(self)@.run_state == RunState::Stopped),
            final(self)@.pending.completed.len() == 0,
            old(self)@.run_state == RunState::Running && !is_stop(event) ==> final(self)@.run_state == RunState::Running,
            old(self)@.run_state == RunState::Running && is_stop(event) ==> final(self)@.run_state != RunState::Running,
            old(self)@.run_state == RunState::Stopping ==> final(self)@.run_state != RunState::Running,
            old(results)@.completed.is_prefix_of(final(results)@.completed),
            event is IoComplete ==> final(results)@.tasks == old(results)@.tasks,
            is_stop(event) && old(self)@.actors.len() == 0 ==> final(self)@.run_state == RunState::Stopped,
            quiet(event, old(self)@) ==> {
                &&& final(self)@.actors == old(self)@.actors
                &&& final(self)@.docs == old(self)@.docs
                &&& final(results)@.actor_messages == old(results)@.actor_messages + stop_messages(event, old(self)@)
                    + tidy_messages(HubView { run_state: state_after_step(event, old(self)@.run_state), ..old(self)@ })
                &&& final(results)@.tasks == old(results)@.tasks
                &&& final(results)@.completed == old(results)@.completed + old(self)@.pending.completed
                &&& final(results)@.spawned == old(results)@.spawned
            },
            event matches HubEvent::Input(HubInput::ConnectionLost { connection_id }) ==> has_conn(
                old(self)@.conns,
                connection_id.value(),
            ) ==> {
                &&& final(self)@.actors == old(self)@.actors
                &&& final(results)@.actor_messages == old(results)@.actor_messages + to_all_actors(
                    old(self)@.actors,
                    HubToDocMsgView::ConnectionClosed { connection_id: connection_id.value() },
                ) + tidy_messages(HubView {
                    conns: old(self)@.conns.remove(conn_pos(old(self)@.conns, connection_id.value())),
                    ..old(self)@
                })
                &&& old(results)@.events.push(ConnectionEventView::ConnectionFailed {
                    connection_id: connection_id.value(),
                    error: "Connection lost externally"@,
                }).is_prefix_of(final(results)@.events)
                &&& final(results)@.tasks == old(results)@.tasks
                &&& final(results)@.completed == old(results)@.completed + old(self)@.pending.completed
            },
            event matches HubEvent::Input(HubInput::ActorMessage { message: DocToHubMsgPayload::SendSyncMessage { .. }, .. }) ==> {
                &&& final(self)@.actors == old(self)@.actors
                &&& final(results)@.tasks == old(results)@.tasks + sync_sends(old(self)@, event)
                &&& final(results)@.actor_messages == old(results)@.actor_messages + tidy_messages(old(self)@)
                &&& final(results)@.completed == old(results)@.completed + old(self)@.pending.completed
            },
            old(self)@.run_state == RunState::Running ==> (event matches HubEvent::Input(HubInput::Command {
                command_id,
                command: Command::Receive { connection_id, msg },
            }) ==> exists|h: HubView, o: HubResultsView, x: CommandResultView| {
                &&& receive_outcome(old(self)@, old(results)@, h, o, connection_id.value(), msg@, now.millis(), x)
                &&& final(results)@.actor_messages == o.actor_messages + tidy_messages(h)
                &&& final(results)@.tasks == o.tasks
                &&& final(results)@.completed == o.completed.push((command_id.value(), x)) + h.pending.completed
                &&& final(self)@.actors == h.actors
                &&& final(self)@.docs == h.docs
            }),
            old(self)@.run_state == RunState::Running ==> (event matches HubEvent::Input(HubInput::Command {
                command_id,
                command: Command::CreateConnection { direction },
            }) ==> {
                &&& final(results)@.completed.len() > old(results)@.completed.len()
                &&& final(results)@.completed[old(results)@.completed.len() as int].0 == command_id.value()
                &&& final(results)@.completed[old(results)@.completed.len() as int].1 matches CommandResultView::CreateConnection {
                    connection_id: c,
                } && handshaking(final(self)@.conns, c) && final(results)@.tasks == if direction == ConnDirection::Outgoing {
                    old(results)@.tasks.push(HubIoActionView::Send { connection_id: c, msg: spec_encode(join_message(old(self)@.peer_id)) })
                } else {
                    old(results)@.tasks
                }
            }),
    {
        let ghost o0 = results@;
        let ghost mut step_witness: (HubView, HubResultsView, CommandResultView) = arbitrary();
        let ghost ev0 = event;
        match event {
            HubEvent::IoComplete(_) => {
                proof { assert(event_step(old(self)@, o0, ev0, now.millis(), self@, results@)); }
            },
            HubEvent::Input(input) => match input {
                HubInput::Stop => {
                    if self.run_state == RunState::Running {
                        self.run_state = RunState::Stopping;
                        self.terminate_all_actors(results);
                    }
                    proof { assert(event_step(old(self)@, o0, ev0, now.millis(), self@, results@)); }
                },
                HubInput::Command { command_id, command } => {
                    if self.run_state == RunState::Running {
                        let ghost c0 = results@.completed;
                        let ghost hs0 = self@;
                        match self.handle_command(now, results, command_id, command) {
                            Some(result) => {
                                let ghost ow = results@;
                                let ghost xw = result@;
                                results.complete_command(command_id, result);
                                proof {
                                    assert(results@.completed[c0.len() as int].0 == command_id.value());
                                    step_witness = (self@, ow, xw);
                                    assert(results@ == with_result(ow, command_id.value(), Some(result)));
                                    assert(command_step(hs0, o0, command_id.value(), command, now.millis(), self@, results@));
                                }
                            },
                            None => {
                                proof {
                                    assert(command_step(hs0, o0, command_id.value(), command, now.millis(), self@, results@));
                                }
                            },
                        }
                    }
                    proof { assert(event_step(old(self)@, o0, ev0, now.millis(), self@, results@)); }
                },
                HubInput::Tick => {
                    proof { assert(event_step(old(self)@, o0, ev0, now.millis(), self@, results@)); }
                },
                HubInput::ActorMessage { actor_id, message } => match message {
                    DocToHubMsgPayload::DocumentStatusChanged { new_status } => {
                        proof {
                            if new_status == DocumentStatus::NotFound {
                                assert(not_found_report(event, actor_id.value()));
                            }
                        }
                        self.update_document_status(actor_id, new_status);
                        proof { assert(event_step(old(self)@, o0, ev0, now.millis(), self@, results@)); }
                    },
                    DocToHubMsgPayload::SendSyncMessage { document_id, connection_id, message } => {
                        match self.find_connection(connection_id) {
                            None => {},
                            Some(k) => {
                                let target = match self.connections[k].remote_peer_id() {
                                    Some(p) => Some(p.duplicate()),
                                    None => None,
                                };
                                match target {
                                    None => {},
                                    Some(target_id) => {
                                        let wire = wire_from_sync(self.peer_id.duplicate(), target_id, document_id, message);
                                        results.send(connection_id, wire.encode());
                                    },
                                }
                            },
                        }
                        proof {
                            assert(results@.tasks =~= o0.tasks + sync_sends(old(self)@, ev0));
                            assert(results@ == (HubResultsView { tasks: o0.tasks + sync_sends(old(self)@, ev0), ..o0 }));
                        }
                        proof { assert(event_step(old(self)@, o0, ev0, now.millis(), self@, results@)); }
                    },
                    DocToHubMsgPayload::PeerStatesChanged { new_states } => {
                        self.update_peer_states(actor_id, new_states);
                        proof { assert(event_step(old(self)@, o0, ev0, now.millis(), self@, results@)); }
                    },
                    DocToHubMsgPayload::Broadcast { connections, msg } => {
                        self.broadcast(results, actor_id, connections, msg);
                        proof { assert(event_step(old(self)@, o0, ev0, now.millis(), self@, results@)); }
                    },
                    DocToHubMsgPayload::Terminated => {
                        self.remove_actor(actor_id);
                        proof { assert(event_step(old(self)@, o0, ev0, now.millis(), self@, results@)); }
                    },
                },
                HubInput::ConnectionLost { connection_id } => {
                    match self.remove_connection(connection_id) {
                        None => {},
                        Some(_c) => {
                            proof {
                                reveal_strlit("Connection lost externally");
                            }
                            results.emit_disconnect_event(connection_id, "Connection lost externally".to_string());
                            self.notify_doc_actors_of_removed_connection(results, connection_id);
                        },
                    }
                    proof { assert(event_step(old(self)@, o0, ev0, now.millis(), self@, results@)); }
                },
            },
        }
        let ghost s1 = self@;
        let ghost r1 = results@;
        proof {
            assert(event_step(old(self)@, o0, ev0, now.millis(), s1, r1));
        }
        self.tidy(results);
        proof {
            if old(self)@.run_state == RunState::Running {
                if let HubEvent::Input(HubInput::Command { command_id, command: Command::CreateConnection { direction } }) = ev0 {
                    let conn = choose|conn: ConnectionView| {
                        &&& conn == fresh_connection(conn.id, old(self)@.peer_id, direction, now.millis())
                        &&& s1 == (HubView { conns: conns_put(old(self)@.conns, conn), ..old(self)@ })
                        &&& r1 == (if direction == ConnDirection::Outgoing {
                            o0.with_task(HubIoActionView::Send { connection_id: conn.id, msg: spec_encode(join_message(old(self)@.peer_id)) })
                        } else {
                            o0
                        }).with_completed(command_id.value(), CommandResultView::CreateConnection { connection_id: conn.id })
                    };
                    lemma_put_handshaking(old(self)@.conns, conn);
                    assert(handshaking(self@.conns, conn.id));
                }
                if let HubEvent::Input(HubInput::Command { command_id, command: Command::Receive { connection_id, msg } }) = ev0 {
                    let (h, o, x) = step_witness;
                    assert(h == s1);
                    assert(receive_outcome(old(self)@, o0, h, o, connection_id.value(), msg@, now.millis(), x));
                }
            }
            lemma_hub_prefix_append(r1.completed, s1.pending.completed);
            lemma_hub_prefix_trans(o0.completed, r1.completed, results@.completed);
        }
    }

    /// Whether the hub takes this event: an actor may not report its
    /// document missing while a create command waits for that actor.
    pub fn accepts_event(&self, event: &HubEvent) -> (r: bool)
        ensures
            r == forall|a: u64| not_found_report(*event, a) ==> no_pending_create(self@.pending, a),
    {
        match event {
            HubEvent::Input(HubInput::ActorMessage {
                actor_id,
                message: DocToHubMsgPayload::DocumentStatusChanged { new_status: DocumentStatus::NotFound },
            }) => {
                let waiting = self.pending.has_pending_create(*actor_id);
                proof {
                    if waiting {
                        assert(not_found_report(*event, actor_id.value()));
                    } else {
                        assert forall|a: u64| not_found_report(*event, a) implies no_pending_create(self@.pending, a) by {
                            assert(a == actor_id.value());
                        }
                    }
                }
                !waiting
            },
            _ => true,
        }
    }
}

} // verus!
