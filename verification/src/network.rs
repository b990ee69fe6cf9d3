//! What the hub reports about its network connections.

use vstd::prelude::*;

use crate::hashes::ChangeHash;
use crate::ids::{random_u64, DocumentId, PeerId};
use crate::timestamp::UnixTimestamp;

verus! {

/// Identifies a network connection of the hub.
#[derive(Debug, Clone, Copy, PartialEq, Eq, Hash, Structural)]
pub struct ConnectionId {
    id: u64,
}

impl ConnectionId {
    /// A fresh random connection ID.
    pub fn new() -> (r: ConnectionId) {
        ConnectionId { id: random_u64() }
    }

    /// The connection ID with the given number.
    pub fn from_u64(id: u64) -> (r: ConnectionId)
        ensures
            r.value() == id,
    {
        ConnectionId { id }
    }

    /// The number of the connection ID.
    pub closed spec fn value(self) -> u64 {
        self.id
    }

    /// The number of the connection ID.
    pub fn as_u64(&self) -> (r: u64)
        ensures
            r == self.value(),
    {
        self.id
    }
}

/// Connection IDs are equal exactly when their numbers are.
pub proof fn lemma_connection_id_eq(a: ConnectionId, b: ConnectionId)
    ensures
        (a == b) <==> (a.value() == b.value()),
{
}

/// Which side opened a connection.
#[derive(Debug, Clone, Copy, PartialEq, Eq, Structural)]
pub enum ConnDirection {
    /// We dialled the peer: we send the join message.
    Outgoing,
    /// The peer dialled us: we wait for its join message.
    Incoming,
}

/// Metadata about a peer exchanged during the handshake.
#[derive(Debug, Clone, Copy, PartialEq, Eq, Structural)]
pub struct PeerMetadata {
    /// Whether the peer will not connect again with the same storage.
    pub is_ephemeral: bool,
}

/// The optional timestamp's milliseconds.
pub open spec fn opt_millis(t: Option<UnixTimestamp>) -> Option<u128> {
    match t {
        Some(x) => Some(x.millis()),
        None => None,
    }
}

/// The state of the sync of one document with one peer, as the document
/// actor reports it.
#[derive(Debug)]
pub struct PeerDocState {
    /// When we last received a message about the document from the peer.
    pub last_received: Option<UnixTimestamp>,
    /// When we last sent a message about the document to the peer.
    pub last_sent: Option<UnixTimestamp>,
    /// The heads of the document according to the peer, if it told us.
    pub their_heads: Option<Vec<ChangeHash>>,
}

/// The abstract value of a [`PeerDocState`].
pub struct PeerDocStateView {
    pub last_received: Option<u128>,
    pub last_sent: Option<u128>,
    pub their_heads: Option<Seq<Seq<u8>>>,
}

/// The bytes of each hash.
pub open spec fn hashes_view(v: Seq<ChangeHash>) -> Seq<Seq<u8>> {
    v.map_values(|h: ChangeHash| h@)
}

impl View for PeerDocState {
    type V = PeerDocStateView;

    open spec fn view(&self) -> PeerDocStateView {
        PeerDocStateView {
            last_received: opt_millis(self.last_received),
            last_sent: opt_millis(self.last_sent),
            their_heads: match self.their_heads {
                Some(h) => Some(hashes_view(h@)),
                None => None,
            },
        }
    }
}

/// The state of a document with a peer we have not heard from yet.
pub open spec fn empty_doc_state() -> PeerDocStateView {
    PeerDocStateView { last_received: None, last_sent: None, their_heads: None }
}

/// A copy of a list of hashes.
pub fn copy_hashes(v: &Vec<ChangeHash>) -> (r: Vec<ChangeHash>)
    ensures
        hashes_view(r@) == hashes_view(v@),
{
    let mut out: Vec<ChangeHash> = Vec::new();
    let mut i: usize = 0;
    while i < v.len()
        invariant
            i <= v@.len(),
            out@.len() == i,
            forall|j: int| 0 <= j < i ==> (#[trigger] out@[j])@ == v@[j]@,
        decreases v@.len() - i,
    {
        out.push(v[i].duplicate());
        i = i + 1;
    }
    proof {
        assert(hashes_view(out@) =~= hashes_view(v@));
    }
    out
}

impl PeerDocState {
    /// The state of a document with a peer we have not heard from yet.
    pub fn empty() -> (r: PeerDocState)
        ensures
            r@ == empty_doc_state(),
    {
        PeerDocState { last_received: None, last_sent: None, their_heads: None }
    }

    /// A copy of this state.
    pub fn duplicate(&self) -> (r: PeerDocState)
        ensures
            r@ == self@,
    {
        let their_heads = match &self.their_heads {
            Some(h) => Some(copy_hashes(h)),
            None => None,
        };
        PeerDocState { last_received: self.last_received, last_sent: self.last_sent, their_heads }
    }
}

/// The documents a connection is subscribed to, with their sync state.
pub open spec fn subscriptions_view(v: Seq<(DocumentId, PeerDocState)>) -> Seq<(Seq<u8>, PeerDocStateView)> {
    v.map_values(|e: (DocumentId, PeerDocState)| (e.0@, e.1@))
}

/// A copy of a subscription list.
pub fn copy_subscriptions(v: &Vec<(DocumentId, PeerDocState)>) -> (r: Vec<(DocumentId, PeerDocState)>)
    ensures
        subscriptions_view(r@) == subscriptions_view(v@),
{
    let mut out: Vec<(DocumentId, PeerDocState)> = Vec::new();
    let mut i: usize = 0;
    while i < v.len()
        invariant
            i <= v@.len(),
            out@.len() == i,
            forall|j: int| 0 <= j < i ==> (#[trigger] out@[j]).0@ == v@[j].0@ && out@[j].1@ == v@[j].1@,
        decreases v@.len() - i,
    {
        let (d, s) = &v[i];
        out.push((d.duplicate(), s.duplicate()));
        i = i + 1;
    }
    proof {
        assert(subscriptions_view(out@) =~= subscriptions_view(v@));
    }
    out
}

/// Whether a connection has finished its handshake.
#[derive(Debug)]
pub enum ConnectionState {
    /// The handshake is still running.
    Handshaking,
    /// The handshake is done and the peer is known.
    Connected { their_peer_id: PeerId },
}

/// The abstract value of a [`ConnectionState`].
pub enum ConnectionStateView {
    Handshaking,
    Connected { their_peer_id: Seq<char> },
}

impl View for ConnectionState {
    type V = ConnectionStateView;

    open spec fn view(&self) -> ConnectionStateView {
        match self {
            ConnectionState::Handshaking => ConnectionStateView::Handshaking,
            ConnectionState::Connected { their_peer_id } => ConnectionStateView::Connected {
                their_peer_id: their_peer_id@,
            },
        }
    }
}

/// A snapshot of a connection, for monitoring.
#[derive(Debug)]
pub struct ConnectionInfo {
    pub id: ConnectionId,
    pub last_received: Option<UnixTimestamp>,
    pub last_sent: Option<UnixTimestamp>,
    pub docs: Vec<(DocumentId, PeerDocState)>,
    pub state: ConnectionState,
}

/// The abstract value of a [`ConnectionInfo`].
pub struct ConnectionInfoView {
    pub id: u64,
    pub last_received: Option<u128>,
    pub last_sent: Option<u128>,
    pub docs: Seq<(Seq<u8>, PeerDocStateView)>,
    pub state: ConnectionStateView,
}

impl View for ConnectionInfo {
    type V = ConnectionInfoView;

    open spec fn view(&self) -> ConnectionInfoView {
        ConnectionInfoView {
            id: self.id.value(),
            last_received: opt_millis(self.last_received),
            last_sent: opt_millis(self.last_sent),
            docs: subscriptions_view(self.docs@),
            state: self.state@,
        }
    }
}

/// What is known of a peer once the handshake is done.
#[derive(Debug)]
pub struct PeerInfo {
    pub peer_id: PeerId,
    pub metadata: Option<PeerMetadata>,
    pub protocol_version: String,
}

/// Something that happened to a connection.
#[derive(Debug)]
pub enum ConnectionEvent {
    /// The handshake finished.
    HandshakeCompleted { connection_id: ConnectionId, peer_info: PeerInfo },
    /// The connection was dropped, with the reason.
    ConnectionFailed { connection_id: ConnectionId, error: String },
    /// The connection's monitoring information changed.
    StateChanged { connection_id: ConnectionId, new_state: ConnectionInfo },
}

/// The abstract value of a [`ConnectionEvent`].
pub enum ConnectionEventView {
    HandshakeCompleted { connection_id: u64, peer_id: Seq<char>, ephemeral: Option<bool>, protocol_version: Seq<char> },
    ConnectionFailed { connection_id: u64, error: Seq<char> },
    StateChanged { connection_id: u64, new_state: ConnectionInfoView },
}

impl View for ConnectionEvent {
    type V = ConnectionEventView;

    open spec fn view(&self) -> ConnectionEventView {
        match self {
            ConnectionEvent::HandshakeCompleted { connection_id, peer_info } =>
                ConnectionEventView::HandshakeCompleted {
                    connection_id: connection_id.value(),
                    peer_id: peer_info.peer_id@,
                    ephemeral: match peer_info.metadata {
                        Some(m) => Some(m.is_ephemeral),
                        None => None,
                    },
                    protocol_version: peer_info.protocol_version@,
                },
            ConnectionEvent::ConnectionFailed { connection_id, error } =>
                ConnectionEventView::ConnectionFailed { connection_id: connection_id.value(), error: error@ },
            ConnectionEvent::StateChanged { connection_id, new_state } =>
                ConnectionEventView::StateChanged { connection_id: connection_id.value(), new_state: new_state@ },
        }
    }
}

} // verus!
