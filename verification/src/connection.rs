//! One network connection: the join/peer handshake, then the traffic of an
//! established connection.

use vstd::prelude::*;

use crate::hub_results::{HubIoActionView, HubResults, HubResultsView};
use crate::ids::{DocumentId, PeerId};
use crate::messages::{SyncMessage, SyncMessageView};
use crate::network::{
    copy_subscriptions, empty_doc_state, opt_millis, subscriptions_view, ConnDirection, ConnectionId,
    ConnectionInfo, ConnectionInfoView, ConnectionState, ConnectionStateView, PeerDocState,
    PeerDocStateView, PeerMetadata,
};
use crate::timestamp::UnixTimestamp;
use crate::wire_decode::str_eq;
use crate::wire_protocol::{
    opt_meta_view, spec_encode, PeerMetadata as WireMetadata, PeerMetadataView, WireMessage, WireMessageView,
};

verus! {

/// The protocol version this implementation speaks.
pub open spec fn protocol_version() -> Seq<char> {
    "1"@
}

/// An established connection: the peer, and the documents synced with it.
#[derive(Debug)]
pub struct EstablishedConnection {
    pub remote_peer_id: PeerId,
    pub remote_metadata: Option<WireMetadata>,
    pub protocol_version: String,
    pub established_at: UnixTimestamp,
    pub document_subscriptions: Vec<(DocumentId, PeerDocState)>,
}

/// Where a connection is in its life.
#[derive(Debug)]
pub enum ConnectionPhase {
    /// We sent a join message and wait for the peer's answer.
    WaitingForPeer,
    /// We wait for the peer's join message.
    WaitingForJoin,
    /// The handshake is done.
    Established(EstablishedConnection),
    /// The connection is finished.
    Closed,
}

/// The abstract value of a [`ConnectionPhase`]; peer metadata is seen by
/// whether the peer is ephemeral.
pub enum PhaseView {
    WaitingForPeer,
    WaitingForJoin,
    Established {
        remote_peer_id: Seq<char>,
        remote_metadata: Option<PeerMetadataView>,
        protocol_version: Seq<char>,
        established_at: u128,
        subscriptions: Seq<(Seq<u8>, PeerDocStateView)>,
    },
    Closed,
}

/// Whether the optional metadata says ephemeral.
pub open spec fn opt_ephemeral(m: Option<PeerMetadata>) -> Option<bool> {
    match m {
        Some(x) => Some(x.is_ephemeral),
        None => None,
    }
}

impl View for ConnectionPhase {
    type V = PhaseView;

    open spec fn view(&self) -> PhaseView {
        match self {
            ConnectionPhase::WaitingForPeer => PhaseView::WaitingForPeer,
            ConnectionPhase::WaitingForJoin => PhaseView::WaitingForJoin,
            ConnectionPhase::Established(e) => PhaseView::Established {
                remote_peer_id: e.remote_peer_id@,
                remote_metadata: opt_meta_view(e.remote_metadata),
                protocol_version: e.protocol_version@,
                established_at: e.established_at.millis(),
                subscriptions: subscriptions_view(e.document_subscriptions@),
            },
            ConnectionPhase::Closed => PhaseView::Closed,
        }
    }
}

/// A network connection of the hub.
#[derive(Debug)]
pub struct Connection {
    id: ConnectionId,
    local_peer_id: PeerId,
    local_metadata: Option<PeerMetadata>,
    phase: ConnectionPhase,
    created_at: UnixTimestamp,
    last_received: Option<UnixTimestamp>,
    last_sent: Option<UnixTimestamp>,
    dirty: bool,
}

/// The abstract value of a [`Connection`].
pub struct ConnectionView {
    pub id: u64,
    pub local_peer_id: Seq<char>,
    pub local_ephemeral: Option<bool>,
    pub phase: PhaseView,
    pub created_at: u128,
    pub last_received: Option<u128>,
    pub last_sent: Option<u128>,
    /// Whether the connection changed since its information was last taken.
    pub dirty: bool,
}

impl View for Connection {
    type V = ConnectionView;

    closed spec fn view(&self) -> ConnectionView {
        ConnectionView {
            id: self.id.value(),
            local_peer_id: self.local_peer_id@,
            local_ephemeral: opt_ephemeral(self.local_metadata),
            phase: self.phase@,
            created_at: self.created_at.millis(),
            last_received: opt_millis(self.last_received),
            last_sent: opt_millis(self.last_sent),
            dirty: self.dirty,
        }
    }
}

/// Each subscribed document occurs once.
pub open spec fn subs_distinct(s: Seq<(Seq<u8>, PeerDocStateView)>) -> bool {
    forall|i: int, j: int| 0 <= i < j < s.len() ==> #[trigger] s[i].0 != #[trigger] s[j].0
}

/// The connection is subscribed to document `d`.
pub open spec fn subs_has(s: Seq<(Seq<u8>, PeerDocStateView)>, d: Seq<u8>) -> bool {
    exists|i: int| 0 <= i < s.len() && #[trigger] s[i].0 == d
}

/// The subscriptions with document `d` in state `st`: its entry replaced
/// when there is one, else added at the end.
pub open spec fn subs_set(s: Seq<(Seq<u8>, PeerDocStateView)>, d: Seq<u8>, st: PeerDocStateView) -> Seq<(Seq<u8>, PeerDocStateView)> {
    if subs_has(s, d) {
        let i = choose|i: int| 0 <= i < s.len() && #[trigger] s[i].0 == d;
        s.update(i, (d, st))
    } else {
        s.push((d, st))
    }
}

/// The subscriptions of a phase; none unless established.
pub open spec fn phase_subs(p: PhaseView) -> Seq<(Seq<u8>, PeerDocStateView)> {
    match p {
        PhaseView::Established { subscriptions, .. } => subscriptions,
        _ => Seq::empty(),
    }
}

/// The phase with other subscriptions, if it is established.
pub open spec fn phase_with_subs(p: PhaseView, s: Seq<(Seq<u8>, PeerDocStateView)>) -> PhaseView {
    match p {
        PhaseView::Established { remote_peer_id, remote_metadata, protocol_version, established_at, .. } =>
            PhaseView::Established { remote_peer_id, remote_metadata, protocol_version, established_at, subscriptions: s },
        _ => p,
    }
}

/// A connection's phase keeps each subscribed document once.
pub open spec fn phase_wf(p: PhaseView) -> bool {
    subs_distinct(phase_subs(p))
}

/// Something the hub must act on after a message arrived.
#[derive(Debug)]
pub enum ReceiveEvent {
    /// The handshake finished with this peer.
    HandshakeComplete { remote_peer_id: PeerId },
    /// A sync message about a document.
    SyncMessage { doc_id: DocumentId, sender_id: PeerId, target_id: PeerId, msg: SyncMessage },
    /// An ephemeral message about a document.
    EphemeralMessage {
        doc_id: DocumentId,
        sender_id: PeerId,
        target_id: PeerId,
        count: u64,
        session_id: String,
        msg: Vec<u8>,
    },
}

/// The abstract value of a [`ReceiveEvent`].
pub enum ReceiveEventView {
    HandshakeComplete { remote_peer_id: Seq<char> },
    SyncMessage { doc_id: Seq<u8>, sender_id: Seq<char>, target_id: Seq<char>, msg: SyncMessageView },
    EphemeralMessage {
        doc_id: Seq<u8>,
        sender_id: Seq<char>,
        target_id: Seq<char>,
        count: u64,
        session_id: Seq<char>,
        msg: Seq<u8>,
    },
}

impl View for ReceiveEvent {
    type V = ReceiveEventView;

    open spec fn view(&self) -> ReceiveEventView {
        match self {
            ReceiveEvent::HandshakeComplete { remote_peer_id } => ReceiveEventView::HandshakeComplete {
                remote_peer_id: remote_peer_id@,
            },
            ReceiveEvent::SyncMessage { doc_id, sender_id, target_id, msg } => ReceiveEventView::SyncMessage {
                doc_id: doc_id@,
                sender_id: sender_id@,
                target_id: target_id@,
                msg: msg@,
            },
            ReceiveEvent::EphemeralMessage { doc_id, sender_id, target_id, count, session_id, msg } =>
                ReceiveEventView::EphemeralMessage {
                    doc_id: doc_id@,
                    sender_id: sender_id@,
                    target_id: target_id@,
                    count: *count,
                    session_id: session_id@,
                    msg: msg@,
                },
        }
    }
}

/// The view of a list of events.
pub open spec fn receive_events_view(v: Seq<ReceiveEvent>) -> Seq<ReceiveEventView> {
    v.map_values(|e: ReceiveEvent| e@)
}

/// What receiving a message does: the next phase, the reply sent, and the
/// events for the hub.
pub struct ReceiveStep {
    pub phase: PhaseView,
    pub reply: Option<WireMessageView>,
    pub events: Seq<ReceiveEventView>,
}

/// Our metadata as the wire carries it: without a storage ID.
pub open spec fn local_wire_metadata(local_ephemeral: Option<bool>) -> Option<PeerMetadataView> {
    match local_ephemeral {
        Some(e) => Some(PeerMetadataView { storage_id: None, is_ephemeral: e }),
        None => None,
    }
}

/// A reply that reports an error, and the end of the connection.
pub open spec fn fail_with(text: Seq<char>) -> ReceiveStep {
    ReceiveStep { phase: PhaseView::Closed, reply: Some(WireMessageView::Error { message: text }), events: Seq::empty() }
}

/// The effect of a message arriving at time `now` on a connection.
pub open spec fn spec_receive(c: ConnectionView, now: u128, m: WireMessageView) -> ReceiveStep {
    match c.phase {
        PhaseView::WaitingForJoin => match m {
            WireMessageView::Join { sender_id, supported_protocol_versions, metadata } => {
                if !supported_protocol_versions.contains(protocol_version()) {
                    fail_with("unsupported protocol version"@)
                } else {
                    ReceiveStep {
                        phase: PhaseView::Established {
                            remote_peer_id: sender_id,
                            remote_metadata: metadata,
                            protocol_version: protocol_version(),
                            established_at: now,
                            subscriptions: Seq::empty(),
                        },
                        reply: Some(WireMessageView::Peer {
                            sender_id: c.local_peer_id,
                            selected_protocol_version: protocol_version(),
                            target_id: sender_id,
                            metadata: local_wire_metadata(c.local_ephemeral),
                        }),
                        events: seq![ReceiveEventView::HandshakeComplete { remote_peer_id: sender_id }],
                    }
                }
            },
            _ => fail_with("expected a join message"@),
        },
        PhaseView::WaitingForPeer => match m {
            WireMessageView::Peer { sender_id, selected_protocol_version, metadata, .. } => {
                if selected_protocol_version != protocol_version() {
                    fail_with("unsupported protocol version"@)
                } else {
                    ReceiveStep {
                        phase: PhaseView::Established {
                            remote_peer_id: sender_id,
                            remote_metadata: metadata,
                            protocol_version: selected_protocol_version,
                            established_at: now,
                            subscriptions: Seq::empty(),
                        },
                        reply: None,
                        events: seq![ReceiveEventView::HandshakeComplete { remote_peer_id: sender_id }],
                    }
                }
            },
            _ => fail_with("expected a peer message"@),
        },
        PhaseView::Established { .. } => match m {
            WireMessageView::Join { .. } | WireMessageView::Peer { .. } => fail_with("unexpected join or peer message"@),
            WireMessageView::Leave { .. } | WireMessageView::Error { .. } =>
                ReceiveStep { phase: PhaseView::Closed, reply: None, events: Seq::empty() },
            WireMessageView::Request { document_id, sender_id, target_id, data } => ReceiveStep {
                phase: c.phase,
                reply: None,
                events: seq![ReceiveEventView::SyncMessage {
                    doc_id: document_id,
                    sender_id,
                    target_id,
                    msg: SyncMessageView::Request { data },
                }],
            },
            WireMessageView::Sync { document_id, sender_id, target_id, data } => ReceiveStep {
                phase: c.phase,
                reply: None,
                events: seq![ReceiveEventView::SyncMessage {
                    doc_id: document_id,
                    sender_id,
                    target_id,
                    msg: SyncMessageView::Sync { data },
                }],
            },
            WireMessageView::DocUnavailable { sender_id, target_id, document_id } => ReceiveStep {
                phase: c.phase,
                reply: None,
                events: seq![ReceiveEventView::SyncMessage {
                    doc_id: document_id,
                    sender_id,
                    target_id,
                    msg: SyncMessageView::DocUnavailable,
                }],
            },
            WireMessageView::Ephemeral { sender_id, target_id, count, session_id, document_id, data } => ReceiveStep {
                phase: c.phase,
                reply: None,
                events: seq![ReceiveEventView::EphemeralMessage {
                    doc_id: document_id,
                    sender_id,
                    target_id,
                    count,
                    session_id,
                    msg: data,
                }],
            },
            WireMessageView::RemoteHeadsChanged { .. } | WireMessageView::RemoteSubscriptionChange { .. } =>
                ReceiveStep { phase: c.phase, reply: None, events: Seq::empty() },
        },
        PhaseView::Closed => ReceiveStep { phase: PhaseView::Closed, reply: None, events: Seq::empty() },
    }
}

/// The hub results after the connection sent `reply`, if any.
pub open spec fn results_after_reply(out: HubResultsView, id: u64, reply: Option<WireMessageView>) -> HubResultsView {
    match reply {
        Some(r) => out.with_task(HubIoActionView::Send { connection_id: id, msg: spec_encode(r) }),
        None => out,
    }
}

/// The connection after a message arrived at `now`.
pub open spec fn connection_after_receive(c: ConnectionView, now: u128, m: WireMessageView) -> ConnectionView {
    let st = spec_receive(c, now, m);
    ConnectionView {
        phase: st.phase,
        last_received: Some(now),
        last_sent: if st.reply is Some { Some(now) } else { c.last_sent },
        dirty: true,
        ..c
    }
}

/// The monitoring information of a connection.
pub open spec fn spec_info(c: ConnectionView) -> ConnectionInfoView {
    ConnectionInfoView {
        id: c.id,
        last_received: c.last_received,
        last_sent: c.last_sent,
        docs: phase_subs(c.phase),
        state: match c.phase {
            PhaseView::Established { remote_peer_id, .. } => ConnectionStateView::Connected { their_peer_id: remote_peer_id },
            _ => ConnectionStateView::Handshaking,
        },
    }
}

/// Our metadata as the wire carries it.
fn to_wire(m: &Option<PeerMetadata>) -> (r: Option<WireMetadata>)
    ensures
        match r {
            Some(w) => Some(w@) == local_wire_metadata(opt_ephemeral(*m)),
            None => local_wire_metadata(opt_ephemeral(*m)) is None,
        },
{
    match m {
        Some(x) => Some(WireMetadata { storage_id: None, is_ephemeral: x.is_ephemeral }),
        None => None,
    }
}

/// Whether a list of versions holds the given one.
fn contains_version(versions: &Vec<String>, v: &str) -> (r: bool)
    ensures
        r == versions.deep_view().contains(v@),
{
    let ghost vs = versions.deep_view();
    let mut i: usize = 0;
    while i < versions.len()
        invariant
            i <= versions@.len(),
            vs == versions.deep_view(),
            forall|j: int| 0 <= j < i ==> vs[j] != v@,
        decreases versions@.len() - i,
    {
        if str_eq(versions[i].as_str(), v) {
            proof {
                assert(vs[i as int] == v@);
            }
            return true;
        }
        i = i + 1;
    }
    false
}

/// Where a subscribed document sits in the list.
fn find_subscription(subs: &Vec<(DocumentId, PeerDocState)>, d: &DocumentId) -> (r: Option<usize>)
    requires
        subs_distinct(subscriptions_view(subs@)),
    ensures
        match r {
            Some(i) => i < subs@.len() && subs@[i as int].0@ == d@ && subs_has(subscriptions_view(subs@), d@)
                && (choose|k: int| 0 <= k < subs@.len() && #[trigger] subscriptions_view(subs@)[k].0 == d@) == i,
            None => !subs_has(subscriptions_view(subs@), d@),
        },
{
    let ghost sv = subscriptions_view(subs@);
    let mut i: usize = 0;
    while i < subs.len()
        invariant
            i <= subs@.len(),
            sv == subscriptions_view(subs@),
            subs_distinct(sv),
            forall|j: int| 0 <= j < i ==> sv[j].0 != d@,
        decreases subs@.len() - i,
    {
        if subs[i].0.same_as(d) {
            proof {
                assert(sv[i as int].0 == d@);
                let k = choose|k: int| 0 <= k < subs@.len() && #[trigger] sv[k].0 == d@;
                assert(0 <= k < subs@.len() && sv[k].0 == d@);
                if k < i {
                    assert(sv[k].0 != sv[i as int].0);
                } else if k > i {
                    assert(sv[i as int].0 != sv[k].0);
                }
            }
            return Some(i);
        }
        i = i + 1;
    }
    None
}

impl Connection {
    /// A new connection in its handshake; an outgoing one sends its join
    /// message at once.
    pub fn new_handshaking(
        out: &mut HubResults,
        direction: ConnDirection,
        local_peer_id: PeerId,
        local_metadata: Option<PeerMetadata>,
        created_at: UnixTimestamp,
    ) -> (r: Connection)
        ensures
            r@.local_peer_id == local_peer_id@,
            r@.local_ephemeral == opt_ephemeral(local_metadata),
            r@.created_at == created_at.millis(),
            r@.last_received is None,
            r@.dirty,
            direction == ConnDirection::Incoming ==> {
                &&& r@.phase == PhaseView::WaitingForJoin
                &&& r@.last_sent is None
                &&& final(out)@ == old(out)@
            },
            direction == ConnDirection::Outgoing ==> {
                &&& r@.phase == PhaseView::WaitingForPeer
                &&& r@.last_sent == Some(created_at.millis())
                &&& final(out)@ == old(out)@.with_task(HubIoActionView::Send {
                    connection_id: r@.id,
                    msg: spec_encode(WireMessageView::Join {
                        sender_id: local_peer_id@,
                        supported_protocol_versions: seq![protocol_version()],
                        metadata: local_wire_metadata(opt_ephemeral(local_metadata)),
                    }),
                })
            },
    {
        let mut conn = Connection {
            id: ConnectionId::new(),
            local_peer_id: local_peer_id.duplicate(),
            local_metadata,
            phase: ConnectionPhase::WaitingForJoin,
            created_at,
            last_received: None,
            last_sent: None,
            dirty: true,
        };
        match direction {
            ConnDirection::Outgoing => {
                conn.phase = ConnectionPhase::WaitingForPeer;
                let mut versions: Vec<String> = Vec::new();
                versions.push("1".to_string());
                let metadata = to_wire(&conn.local_metadata);
                proof {
                    reveal_strlit("1");
                    assert(versions.deep_view() =~= seq![protocol_version()]);
                }
                let msg = WireMessage::Join { sender_id: local_peer_id, supported_protocol_versions: versions, metadata };
                proof {
                    assert(msg@ == WireMessageView::Join {
                        sender_id: local_peer_id@,
                        supported_protocol_versions: seq![protocol_version()],
                        metadata: local_wire_metadata(opt_ephemeral(conn.local_metadata)),
                    });
                }
                conn.send(out, created_at, msg);
            },
            ConnDirection::Incoming => {},
        }
        conn
    }

    /// The ID of the connection.
    pub fn id(&self) -> (r: ConnectionId)
        ensures
            r.value() == self@.id,
    {
        self.id
    }

    /// Records the sending of `msg` at `now`.
    fn send(&mut self, out: &mut HubResults, now: UnixTimestamp, msg: WireMessage)
        ensures
            final(self)@ == (ConnectionView { last_sent: Some(now.millis()), dirty: true, ..old(self)@ }),
            final(out)@ == old(out)@.with_task(HubIoActionView::Send { connection_id: old(self)@.id, msg: spec_encode(msg@) }),
    {
        self.dirty = true;
        self.last_sent = Some(now);
        out.send(self.id, msg.encode());
    }

    /// Handles a message from the peer that arrived at `now`, and returns
    /// what the hub must act on.
    pub fn receive_msg(&mut self, out: &mut HubResults, now: UnixTimestamp, msg: WireMessage) -> (r: Vec<ReceiveEvent>)
        requires
            phase_wf(old(self)@.phase),
        ensures
            final(self)@ == connection_after_receive(old(self)@, now.millis(), msg@),
            final(out)@ == results_after_reply(old(out)@, old(self)@.id, spec_receive(old(self)@, now.millis(), msg@).reply),
            receive_events_view(r@) == spec_receive(old(self)@, now.millis(), msg@).events,
            phase_wf(final(self)@.phase),
    {
        let ghost c0 = self@;
        let ghost m0 = msg@;
        self.dirty = true;
        self.last_received = Some(now);
        proof {
            reveal_strlit("1");
        }
        let mut events: Vec<ReceiveEvent> = Vec::new();
        let mut phase = ConnectionPhase::Closed;
        std::mem::swap(&mut phase, &mut self.phase);
        match phase {
            ConnectionPhase::WaitingForJoin => match msg {
                WireMessage::Join { sender_id, supported_protocol_versions, metadata } => {
                    if !contains_version(&supported_protocol_versions, "1") {
                        proof {
                            reveal_strlit("unsupported protocol version");
                        }
                        self.send(out, now, WireMessage::Error { message: "unsupported protocol version".to_string() });
                    } else {
                        let reply = WireMessage::Peer {
                            sender_id: self.local_peer_id.duplicate(),
                            selected_protocol_version: "1".to_string(),
                            target_id: sender_id.duplicate(),
                            metadata: to_wire(&self.local_metadata),
                        };
                        self.send(out, now, reply);
                        self.phase = ConnectionPhase::Established(EstablishedConnection {
                            remote_peer_id: sender_id.duplicate(),
                            remote_metadata: metadata,
                            protocol_version: "1".to_string(),
                            established_at: now,
                            document_subscriptions: Vec::new(),
                        });
                        events.push(ReceiveEvent::HandshakeComplete { remote_peer_id: sender_id });
                        proof {
                            assert(subscriptions_view(Seq::<(DocumentId, PeerDocState)>::empty()) =~= Seq::empty());
                            assert(receive_events_view(events@) =~= spec_receive(c0, now.millis(), m0).events);
                        }
                    }
                },
                _ => {
                    proof {
                        reveal_strlit("expected a join message");
                    }
                    self.send(out, now, WireMessage::Error { message: "expected a join message".to_string() });
                },
            },
            ConnectionPhase::WaitingForPeer => match msg {
                WireMessage::Peer { sender_id, selected_protocol_version, target_id: _, metadata } => {
                    if !str_eq(selected_protocol_version.as_str(), "1") {
                        proof {
                            reveal_strlit("unsupported protocol version");
                        }
                        self.send(out, now, WireMessage::Error { message: "unsupported protocol version".to_string() });
                    } else {
                        self.phase = ConnectionPhase::Established(EstablishedConnection {
                            remote_peer_id: sender_id.duplicate(),
                            remote_metadata: metadata,
                            protocol_version: selected_protocol_version,
                            established_at: now,
                            document_subscriptions: Vec::new(),
                        });
                        events.push(ReceiveEvent::HandshakeComplete { remote_peer_id: sender_id });
                        proof {
                            assert(subscriptions_view(Seq::<(DocumentId, PeerDocState)>::empty()) =~= Seq::empty());
                            assert(receive_events_view(events@) =~= spec_receive(c0, now.millis(), m0).events);
                        }
                    }
                },
                _ => {
                    proof {
                        reveal_strlit("expected a peer message");
                    }
                    self.send(out, now, WireMessage::Error { message: "expected a peer message".to_string() });
                },
            },
            ConnectionPhase::Established(established) => match msg {
                WireMessage::Join { .. } | WireMessage::Peer { .. } => {
                    proof {
                        reveal_strlit("unexpected join or peer message");
                    }
                    self.send(out, now, WireMessage::Error { message: "unexpected join or peer message".to_string() });
                },
                WireMessage::Leave { .. } | WireMessage::Error { .. } => {},
                WireMessage::Request { document_id, sender_id, target_id, data } => {
                    self.phase = ConnectionPhase::Established(established);
                    events.push(ReceiveEvent::SyncMessage {
                        doc_id: document_id,
                        sender_id,
                        target_id,
                        msg: SyncMessage::Request { data },
                    });
                    proof {
                        assert(receive_events_view(events@) =~= spec_receive(c0, now.millis(), m0).events);
                    }
                },
                WireMessage::Sync { document_id, sender_id, target_id, data } => {
                    self.phase = ConnectionPhase::Established(established);
                    events.push(ReceiveEvent::SyncMessage {
                        doc_id: document_id,
                        sender_id,
                        target_id,
                        msg: SyncMessage::Sync { data },
                    });
                    proof {
                        assert(receive_events_view(events@) =~= spec_receive(c0, now.millis(), m0).events);
                    }
                },
                WireMessage::DocUnavailable { sender_id, target_id, document_id } => {
                    self.phase = ConnectionPhase::Established(established);
                    events.push(ReceiveEvent::SyncMessage {
                        doc_id: document_id,
                        sender_id,
                        target_id,
                        msg: SyncMessage::DocUnavailable,
                    });
                    proof {
                        assert(receive_events_view(events@) =~= spec_receive(c0, now.millis(), m0).events);
                    }
                },
                WireMessage::Ephemeral { sender_id, target_id, count, session_id, document_id, data } => {
                    self.phase = ConnectionPhase::Established(established);
                    events.push(ReceiveEvent::EphemeralMessage {
                        doc_id: document_id,
                        sender_id,
                        target_id,
                        count,
                        session_id,
                        msg: data,
                    });
                    proof {
                        assert(receive_events_view(events@) =~= spec_receive(c0, now.millis(), m0).events);
                    }
                },
                WireMessage::RemoteHeadsChanged { .. } | WireMessage::RemoteSubscriptionChange { .. } => {
                    self.phase = ConnectionPhase::Established(established);
                },
            },
            ConnectionPhase::Closed => {},
        }
        proof {
            assert(receive_events_view(events@) =~= spec_receive(c0, now.millis(), m0).events);
        }
        events
    }

    /// The established connection, if the handshake is done.
    pub fn established_connection(&self) -> (r: Option<&EstablishedConnection>)
        ensures
            match r {
                Some(e) => self@.phase == (PhaseView::Established {
                    remote_peer_id: e.remote_peer_id@,
                    remote_metadata: opt_meta_view(e.remote_metadata),
                    protocol_version: e.protocol_version@,
                    established_at: e.established_at.millis(),
                    subscriptions: subscriptions_view(e.document_subscriptions@),
                }),
                None => !(self@.phase is Established),
            },
    {
        match &self.phase {
            ConnectionPhase::Established(e) => Some(e),
            _ => None,
        }
    }

    /// The peer's ID, if the handshake is done.
    pub fn remote_peer_id(&self) -> (r: Option<&PeerId>)
        ensures
            match r {
                Some(p) => self@.phase is Established && p@ == self@.phase->remote_peer_id,
                None => !(self@.phase is Established),
            },
    {
        match &self.phase {
            ConnectionPhase::Established(e) => Some(&e.remote_peer_id),
            _ => None,
        }
    }

    /// Subscribes an established connection to a document, in the state of
    /// a peer not heard from; does nothing before the handshake is done.
    pub fn add_document(&mut self, document_id: DocumentId)
        requires
            phase_wf(old(self)@.phase),
        ensures
            final(self)@ == (ConnectionView {
                phase: phase_with_subs(old(self)@.phase, subs_set(phase_subs(old(self)@.phase), document_id@, empty_doc_state())),
                ..old(self)@
            }),
            phase_wf(final(self)@.phase),
    {
        match &mut self.phase {
            ConnectionPhase::Established(e) => {
                set_subscription(&mut e.document_subscriptions, document_id, PeerDocState::empty());
            },
            _ => {},
        }
    }

    /// Replaces the sync state of a subscribed document and marks the
    /// connection changed; does nothing for a document it is not subscribed
    /// to, or before the handshake is done.
    pub fn update_peer_state(&mut self, document_id: &DocumentId, state: PeerDocState)
        requires
            phase_wf(old(self)@.phase),
        ensures
            subs_has(phase_subs(old(self)@.phase), document_id@) ==> final(self)@ == (ConnectionView {
                phase: phase_with_subs(old(self)@.phase, subs_set(phase_subs(old(self)@.phase), document_id@, state@)),
                dirty: true,
                ..old(self)@
            }),
            !subs_has(phase_subs(old(self)@.phase), document_id@) ==> final(self)@ == old(self)@,
            phase_wf(final(self)@.phase),
    {
        let mut changed = false;
        match &mut self.phase {
            ConnectionPhase::Established(e) => {
                match find_subscription(&e.document_subscriptions, document_id) {
                    Some(i) => {
                        let ghost before = e.document_subscriptions@;
                        e.document_subscriptions.set(i, (document_id.duplicate(), state));
                        proof {
                            assert(subscriptions_view(e.document_subscriptions@) =~= subscriptions_view(before).update(
                                i as int,
                                (document_id@, state@),
                            ));
                        }
                        changed = true;
                    },
                    None => {},
                }
            },
            _ => {},
        }
        if changed {
            self.dirty = true;
        }
    }

    /// Whether an established connection is subscribed to the document.
    pub fn is_subscribed(&self, document_id: &DocumentId) -> (r: bool)
        requires
            phase_wf(self@.phase),
        ensures
            r == subs_has(phase_subs(self@.phase), document_id@),
    {
        match &self.phase {
            ConnectionPhase::Established(e) => find_subscription(&e.document_subscriptions, document_id).is_some(),
            _ => false,
        }
    }

    /// Whether the connection is finished.
    pub fn is_closed(&self) -> (r: bool)
        ensures
            r == (self@.phase is Closed),
    {
        match self.phase {
            ConnectionPhase::Closed => true,
            _ => false,
        }
    }

    /// When a message last arrived.
    pub fn last_received(&self) -> (r: Option<UnixTimestamp>)
        ensures
            opt_millis(r) == self@.last_received,
    {
        self.last_received
    }

    /// When a message was last sent.
    pub fn last_sent(&self) -> (r: Option<UnixTimestamp>)
        ensures
            opt_millis(r) == self@.last_sent,
    {
        self.last_sent
    }

    /// The monitoring information of the connection.
    pub fn info(&self) -> (r: ConnectionInfo)
        ensures
            r@ == spec_info(self@),
    {
        match &self.phase {
            ConnectionPhase::Established(e) => ConnectionInfo {
                id: self.id,
                last_received: self.last_received,
                last_sent: self.last_sent,
                docs: copy_subscriptions(&e.document_subscriptions),
                state: ConnectionState::Connected { their_peer_id: e.remote_peer_id.duplicate() },
            },
            _ => {
                let r = ConnectionInfo {
                    id: self.id,
                    last_received: self.last_received,
                    last_sent: self.last_sent,
                    docs: Vec::new(),
                    state: ConnectionState::Handshaking,
                };
                proof {
                    assert(subscriptions_view(r.docs@) =~= Seq::empty());
                }
                r
            },
        }
    }

    /// The monitoring information, if the connection changed since it was
    /// last taken; then the connection counts as unchanged.
    pub fn pop_new_info(&mut self) -> (r: Option<ConnectionInfo>)
        ensures
            old(self)@.dirty ==> (r matches Some(i) && i@ == spec_info(old(self)@)),
            !old(self)@.dirty ==> r is None,
            final(self)@ == (ConnectionView { dirty: false, ..old(self)@ }),
    {
        if self.dirty {
            self.dirty = false;
            Some(self.info())
        } else {
            None
        }
    }
}

/// Sets the state of a document in a subscription list: its entry replaced
/// when there is one, else added at the end.
fn set_subscription(subs: &mut Vec<(DocumentId, PeerDocState)>, d: DocumentId, st: PeerDocState)
    requires
        subs_distinct(subscriptions_view(old(subs)@)),
    ensures
        subscriptions_view(final(subs)@) == subs_set(subscriptions_view(old(subs)@), d@, st@),
        subs_distinct(subscriptions_view(final(subs)@)),
{
    let ghost before = subscriptions_view(subs@);
    match find_subscription(subs, &d) {
        Some(i) => {
            let ghost dv = d@;
            let ghost sv = st@;
            subs.set(i, (d, st));
            proof {
                assert(subscriptions_view(subs@) =~= before.update(i as int, (dv, sv)));
            }
        },
        None => {
            let ghost dv = d@;
            let ghost sv = st@;
            subs.push((d, st));
            proof {
                assert(subscriptions_view(subs@) =~= before.push((dv, sv)));
            }
        },
    }
}


/// A connection waiting for a join that receives a join offering protocol
/// version `1` answers with a peer message from the local peer, selecting
/// version `1`, addressed to the peer that joined; from then on it reports
/// being connected to that peer, the one its answer went to.
pub proof fn lemma_join_is_answered_to_the_joiner(
    c: ConnectionView,
    now: u128,
    sender: Seq<char>,
    versions: Seq<Seq<char>>,
    metadata: Option<PeerMetadataView>,
)
    requires
        c.phase is WaitingForJoin,
        versions.contains("1"@),
    ensures
        ({
            let m = WireMessageView::Join { sender_id: sender, supported_protocol_versions: versions, metadata };
            let after = connection_after_receive(c, now, m);
            &&& spec_receive(c, now, m).reply matches Some(
                WireMessageView::Peer { sender_id, selected_protocol_version, target_id, .. },
            ) && sender_id == c.local_peer_id && selected_protocol_version == "1"@ && target_id == sender
            &&& spec_info(after).state == (ConnectionStateView::Connected { their_peer_id: sender })
            &&& spec_info(after).id == c.id
        }),
{
}

/// A connection waiting for a peer message that receives one selecting
/// protocol version `1` sends no reply, and from then on reports being
/// connected to the peer that sent it.
pub proof fn lemma_peer_message_connects_to_its_sender(
    c: ConnectionView,
    now: u128,
    sender: Seq<char>,
    target: Seq<char>,
    metadata: Option<PeerMetadataView>,
)
    requires
        c.phase is WaitingForPeer,
    ensures
        ({
            let m = WireMessageView::Peer {
                sender_id: sender,
                selected_protocol_version: "1"@,
                target_id: target,
                metadata,
            };
            let after = connection_after_receive(c, now, m);
            &&& spec_receive(c, now, m).reply is None
            &&& spec_info(after).state == (ConnectionStateView::Connected { their_peer_id: sender })
        }),
{
}

/// A connection reports being connected exactly when its handshake is
/// done, and then to the remote peer the handshake recorded, never to the
/// local peer unless that is the remote one.
pub proof fn lemma_info_names_the_remote_peer(c: ConnectionView)
    ensures
        (spec_info(c).state is Connected) <==> (c.phase is Established),
        c.phase matches PhaseView::Established { remote_peer_id, .. } ==> spec_info(c).state
            == (ConnectionStateView::Connected { their_peer_id: remote_peer_id }),
{
}

} // verus!
