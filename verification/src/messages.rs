//! Messages between the hub and the document actors.

use vstd::prelude::*;

use crate::ids::{random_u64, DocumentId, PeerId};
use crate::network::{ConnectionId, PeerDocState};
use crate::wire_protocol::{WireMessage, WireMessageView};

verus! {

/// An Automerge document, carried from a command to the actor that will own
/// it.
#[verifier::external_type_specification]
#[verifier::external_body]
pub struct ExAutomerge(automerge::Automerge);

/// Identifies a document actor of the hub.
#[derive(Debug, Clone, Copy, PartialEq, Eq, Hash, Structural)]
pub struct DocumentActorId {
    id: u64,
}

impl DocumentActorId {
    /// A fresh random actor ID.
    pub fn new() -> (r: DocumentActorId) {
        DocumentActorId { id: random_u64() }
    }

    /// The actor ID with the given number.
    pub fn from_u64(id: u64) -> (r: DocumentActorId)
        ensures
            r.value() == id,
    {
        DocumentActorId { id }
    }

    /// The number of the actor ID.
    pub closed spec fn value(self) -> u64 {
        self.id
    }

    /// The number of the actor ID.
    pub fn as_u64(&self) -> (r: u64)
        ensures
            r == self.value(),
    {
        self.id
    }
}

/// Actor IDs are equal exactly when their numbers are.
pub proof fn lemma_actor_id_eq(a: DocumentActorId, b: DocumentActorId)
    ensures
        (a == b) <==> (a.value() == b.value()),
{
}

/// Where a document actor is in finding its document.
#[derive(Debug, Clone, Copy, PartialEq, Eq, Structural)]
pub enum DocumentStatus {
    /// Just started.
    Spawned,
    /// Asking peers for the document.
    Requesting,
    /// Reading the document from storage.
    Loading,
    /// The document is available.
    Ready,
    /// Neither storage nor any peer has the document.
    NotFound,
}

/// A sync message about one document.
#[derive(Debug)]
pub enum SyncMessage {
    /// The first message of a sync, asking for the document.
    Request { data: Vec<u8> },
    /// A later message of a sync.
    Sync { data: Vec<u8> },
    /// The sender does not have the document.
    DocUnavailable,
}

/// The abstract value of a [`SyncMessage`].
pub enum SyncMessageView {
    Request { data: Seq<u8> },
    Sync { data: Seq<u8> },
    DocUnavailable,
}

impl View for SyncMessage {
    type V = SyncMessageView;

    open spec fn view(&self) -> SyncMessageView {
        match self {
            SyncMessage::Request { data } => SyncMessageView::Request { data: data@ },
            SyncMessage::Sync { data } => SyncMessageView::Sync { data: data@ },
            SyncMessage::DocUnavailable => SyncMessageView::DocUnavailable,
        }
    }
}

/// An ephemeral message, with the session and counter that order it.
#[derive(Debug)]
pub struct EphemeralMessage {
    pub sender_id: PeerId,
    pub session_id: String,
    pub count: u64,
    pub data: Vec<u8>,
}

/// The abstract value of an [`EphemeralMessage`].
pub struct EphemeralMessageView {
    pub sender_id: Seq<char>,
    pub session_id: Seq<char>,
    pub count: u64,
    pub data: Seq<u8>,
}

impl View for EphemeralMessage {
    type V = EphemeralMessageView;

    open spec fn view(&self) -> EphemeralMessageView {
        EphemeralMessageView { sender_id: self.sender_id@, session_id: self.session_id@, count: self.count, data: self.data@ }
    }
}

/// A message about a document that arrived from a peer.
#[derive(Debug)]
pub enum DocMessage {
    Sync(SyncMessage),
    Ephemeral(EphemeralMessage),
}

/// The abstract value of a [`DocMessage`].
pub enum DocMessageView {
    Sync(SyncMessageView),
    Ephemeral(EphemeralMessageView),
}

impl View for DocMessage {
    type V = DocMessageView;

    open spec fn view(&self) -> DocMessageView {
        match self {
            DocMessage::Sync(m) => DocMessageView::Sync(m@),
            DocMessage::Ephemeral(m) => DocMessageView::Ephemeral(m@),
        }
    }
}

/// What a document actor asks the hub to broadcast.
#[derive(Debug)]
pub enum Broadcast {
    /// A new ephemeral message of our own.
    New { msg: Vec<u8> },
    /// An ephemeral message from another peer, passed on.
    Gossip { msg: EphemeralMessage },
}

/// A message from the hub to a document actor.
#[derive(Debug)]
pub enum HubToDocMsgPayload {
    /// The hub is stopping.
    Terminate,
    /// A peer sent a message about the document.
    HandleDocMessage { connection_id: ConnectionId, message: DocMessage },
    /// A new established connection.
    NewConnection { connection_id: ConnectionId, peer_id: PeerId },
    /// A connection went away.
    ConnectionClosed { connection_id: ConnectionId },
    /// Look for the document again.
    RequestAgain,
}

/// The abstract value of a [`HubToDocMsgPayload`].
pub enum HubToDocMsgView {
    Terminate,
    HandleDocMessage { connection_id: u64, message: DocMessageView },
    NewConnection { connection_id: u64, peer_id: Seq<char> },
    ConnectionClosed { connection_id: u64 },
    RequestAgain,
}

impl View for HubToDocMsgPayload {
    type V = HubToDocMsgView;

    open spec fn view(&self) -> HubToDocMsgView {
        match self {
            HubToDocMsgPayload::Terminate => HubToDocMsgView::Terminate,
            HubToDocMsgPayload::HandleDocMessage { connection_id, message } =>
                HubToDocMsgView::HandleDocMessage { connection_id: connection_id.value(), message: message@ },
            HubToDocMsgPayload::NewConnection { connection_id, peer_id } =>
                HubToDocMsgView::NewConnection { connection_id: connection_id.value(), peer_id: peer_id@ },
            HubToDocMsgPayload::ConnectionClosed { connection_id } =>
                HubToDocMsgView::ConnectionClosed { connection_id: connection_id.value() },
            HubToDocMsgPayload::RequestAgain => HubToDocMsgView::RequestAgain,
        }
    }
}

/// A message from a document actor to the hub.
#[derive(Debug)]
pub enum DocToHubMsgPayload {
    /// The actor's status changed.
    DocumentStatusChanged { new_status: DocumentStatus },
    /// Send a sync message to the peer on a connection.
    SendSyncMessage { document_id: DocumentId, connection_id: ConnectionId, message: SyncMessage },
    /// The sync state with some peers changed.
    PeerStatesChanged { new_states: Vec<(ConnectionId, PeerDocState)> },
    /// Send an ephemeral message to some connections.
    Broadcast { connections: Vec<ConnectionId>, msg: Broadcast },
    /// The actor has stopped.
    Terminated,
}

/// What the hub hands a new document actor.
#[derive(Debug)]
pub struct SpawnArgs {
    pub actor_id: DocumentActorId,
    pub local_peer_id: PeerId,
    pub document_id: DocumentId,
    pub initial_content: Option<automerge::Automerge>,
    pub initial_connections: Vec<(ConnectionId, PeerId, Option<DocMessage>)>,
}

/// The abstract value of a [`SpawnArgs`]: whether it holds a document, not
/// the document itself.
pub struct SpawnArgsView {
    pub actor_id: u64,
    pub local_peer_id: Seq<char>,
    pub document_id: Seq<u8>,
    pub has_initial_content: bool,
    pub initial_connections: Seq<(u64, Seq<char>, Option<DocMessageView>)>,
}

/// The view of an optional document message.
pub open spec fn opt_doc_message_view(m: Option<DocMessage>) -> Option<DocMessageView> {
    match m {
        Some(x) => Some(x@),
        None => None,
    }
}

/// The view of a list of initial connections.
pub open spec fn initial_connections_view(v: Seq<(ConnectionId, PeerId, Option<DocMessage>)>) -> Seq<(u64, Seq<char>, Option<DocMessageView>)> {
    v.map_values(|e: (ConnectionId, PeerId, Option<DocMessage>)| (e.0.value(), e.1@, opt_doc_message_view(e.2)))
}

impl View for SpawnArgs {
    type V = SpawnArgsView;

    open spec fn view(&self) -> SpawnArgsView {
        SpawnArgsView {
            actor_id: self.actor_id.value(),
            local_peer_id: self.local_peer_id@,
            document_id: self.document_id@,
            has_initial_content: self.initial_content is Some,
            initial_connections: initial_connections_view(self.initial_connections@),
        }
    }
}

/// The wire message that carries a sync message about a document from
/// `sender_id` to `target_id`.
pub open spec fn spec_wire_from_sync(sender_id: Seq<char>, target_id: Seq<char>, document_id: Seq<u8>, msg: SyncMessageView) -> WireMessageView {
    match msg {
        SyncMessageView::Request { data } => WireMessageView::Request { document_id, sender_id, target_id, data },
        SyncMessageView::Sync { data } => WireMessageView::Sync { document_id, sender_id, target_id, data },
        SyncMessageView::DocUnavailable => WireMessageView::DocUnavailable { sender_id, target_id, document_id },
    }
}

/// The wire message that carries a sync message about a document from
/// `sender_id` to `target_id`.
pub fn wire_from_sync(sender_id: PeerId, target_id: PeerId, document_id: DocumentId, msg: SyncMessage) -> (r: WireMessage)
    ensures
        r@ == spec_wire_from_sync(sender_id@, target_id@, document_id@, msg@),
{
    match msg {
        SyncMessage::Request { data } => WireMessage::Request { document_id, sender_id, target_id, data },
        SyncMessage::Sync { data } => WireMessage::Sync { document_id, sender_id, target_id, data },
        SyncMessage::DocUnavailable => WireMessage::DocUnavailable { sender_id, target_id, document_id },
    }
}

} // verus!
