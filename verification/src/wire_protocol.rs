//! The messages peers exchange, and their CBOR encoding.

use vstd::prelude::*;

use crate::cbor::{
    array_head, bool_item, bytes_item, map_head, text_item, uint_item, write_array, write_bool,
    write_bytes, write_map, write_str, write_u64,
};
use crate::ids::{document_id_text, DocumentId, PeerId, StorageId, DOCUMENT_ID_LEN};

verus! {

/// The current protocol version.
pub const PROTOCOL_VERSION: &'static str = "1";

/// Metadata sent in join or peer messages.
#[derive(Debug, Clone, PartialEq, Eq)]
pub struct PeerMetadata {
    /// The storage ID of this peer.
    pub storage_id: Option<StorageId>,
    /// Whether the sender expects to connect again with this storage ID.
    pub is_ephemeral: bool,
}

/// The abstract value of [`PeerMetadata`].
pub struct PeerMetadataView {
    pub storage_id: Option<Seq<char>>,
    pub is_ephemeral: bool,
}

/// The view of an optional storage ID.
pub open spec fn opt_storage_view(s: Option<StorageId>) -> Option<Seq<char>> {
    match s {
        Some(id) => Some(id@),
        None => None,
    }
}

impl View for PeerMetadata {
    type V = PeerMetadataView;

    open spec fn view(&self) -> PeerMetadataView {
        PeerMetadataView { storage_id: opt_storage_view(self.storage_id), is_ephemeral: self.is_ephemeral }
    }
}

impl PeerMetadata {
    /// A copy of this metadata.
    pub fn duplicate(&self) -> (r: PeerMetadata)
        ensures
            r@ == self@,
    {
        let storage_id = match &self.storage_id {
            Some(s) => Some(s.duplicate()),
            None => None,
        };
        PeerMetadata { storage_id, is_ephemeral: self.is_ephemeral }
    }
}

/// The heads of a document for one storage ID.
#[derive(Debug, Clone, PartialEq, Eq)]
pub struct HeadsInfo {
    /// The heads, as base64 encoded hashes.
    pub heads: Vec<String>,
    /// When the heads were first reported, in milliseconds since the epoch.
    pub timestamp: u64,
}

/// The abstract value of [`HeadsInfo`].
pub struct HeadsInfoView {
    pub heads: Seq<Seq<char>>,
    pub timestamp: u64,
}

impl View for HeadsInfo {
    type V = HeadsInfoView;

    open spec fn view(&self) -> HeadsInfoView {
        HeadsInfoView { heads: self.heads.deep_view(), timestamp: self.timestamp }
    }
}

impl HeadsInfo {
    /// A copy of these heads.
    pub fn duplicate(&self) -> (r: HeadsInfo)
        ensures
            r@ == self@,
    {
        let heads = self.heads.clone();
        proof {
            assert(heads.deep_view() =~= self.heads.deep_view());
        }
        HeadsInfo { heads, timestamp: self.timestamp }
    }
}

/// A copy of a list of storage IDs and heads.
pub fn copy_heads_list(v: &Vec<(StorageId, HeadsInfo)>) -> (r: Vec<(StorageId, HeadsInfo)>)
    ensures
        heads_list_view(r@) == heads_list_view(v@),
{
    let mut out: Vec<(StorageId, HeadsInfo)> = Vec::new();
    let mut i: usize = 0;
    while i < v.len()
        invariant
            i <= v@.len(),
            out@.len() == i,
            forall|j: int| 0 <= j < i ==> #[trigger] out@[j].0@ == v@[j].0@ && out@[j].1@ == v@[j].1@,
        decreases v@.len() - i,
    {
        out.push((v[i].0.duplicate(), v[i].1.duplicate()));
        i = i + 1;
    }
    proof {
        assert(heads_list_view(out@) =~= heads_list_view(v@));
    }
    out
}

/// A copy of a list of storage IDs.
pub fn copy_storage_ids(v: &Vec<StorageId>) -> (r: Vec<StorageId>)
    ensures
        storage_ids_view(r@) == storage_ids_view(v@),
{
    let mut out: Vec<StorageId> = Vec::new();
    let mut i: usize = 0;
    while i < v.len()
        invariant
            i <= v@.len(),
            out@.len() == i,
            forall|j: int| 0 <= j < i ==> #[trigger] out@[j]@ == v@[j]@,
        decreases v@.len() - i,
    {
        out.push(v[i].duplicate());
        i = i + 1;
    }
    proof {
        assert(storage_ids_view(out@) =~= storage_ids_view(v@));
    }
    out
}

/// The view of an association list of storage IDs and heads.
pub open spec fn heads_list_view(v: Seq<(StorageId, HeadsInfo)>) -> Seq<(Seq<char>, HeadsInfoView)> {
    v.map_values(|p: (StorageId, HeadsInfo)| (p.0@, p.1@))
}

/// The view of a list of storage IDs.
pub open spec fn storage_ids_view(v: Seq<StorageId>) -> Seq<Seq<char>> {
    v.map_values(|s: StorageId| s@)
}

/// The format of messages sent over the wire.
#[derive(Debug, Clone, PartialEq, Eq)]
pub enum WireMessage {
    /// Sent by the initiating peer in the handshake phase.
    Join { sender_id: PeerId, supported_protocol_versions: Vec<String>, metadata: Option<PeerMetadata> },
    /// The answer to a join message in the handshake phase.
    Peer {
        sender_id: PeerId,
        selected_protocol_version: String,
        target_id: PeerId,
        metadata: Option<PeerMetadata>,
    },
    /// Sent by a peer that is about to disconnect.
    Leave { sender_id: PeerId },
    /// Asks to begin syncing a document.
    Request { document_id: DocumentId, sender_id: PeerId, target_id: PeerId, data: Vec<u8> },
    /// A sync message about a document.
    Sync { document_id: DocumentId, sender_id: PeerId, target_id: PeerId, data: Vec<u8> },
    /// The sender does not have the document.
    DocUnavailable { sender_id: PeerId, target_id: PeerId, document_id: DocumentId },
    /// An ephemeral message for another peer.
    Ephemeral {
        sender_id: PeerId,
        target_id: PeerId,
        count: u64,
        session_id: String,
        document_id: DocumentId,
        data: Vec<u8>,
    },
    /// A protocol error.
    Error { message: String },
    /// Changes the set of storage IDs the sender wants to hear about.
    RemoteSubscriptionChange {
        sender_id: PeerId,
        target_id: PeerId,
        add: Option<Vec<StorageId>>,
        remove: Vec<StorageId>,
    },
    /// A peer has new heads for a document.
    RemoteHeadsChanged {
        sender_id: PeerId,
        target_id: PeerId,
        document_id: DocumentId,
        new_heads: Vec<(StorageId, HeadsInfo)>,
    },
}

/// The abstract value of a [`WireMessage`].
pub enum WireMessageView {
    Join { sender_id: Seq<char>, supported_protocol_versions: Seq<Seq<char>>, metadata: Option<PeerMetadataView> },
    Peer {
        sender_id: Seq<char>,
        selected_protocol_version: Seq<char>,
        target_id: Seq<char>,
        metadata: Option<PeerMetadataView>,
    },
    Leave { sender_id: Seq<char> },
    Request { document_id: Seq<u8>, sender_id: Seq<char>, target_id: Seq<char>, data: Seq<u8> },
    Sync { document_id: Seq<u8>, sender_id: Seq<char>, target_id: Seq<char>, data: Seq<u8> },
    DocUnavailable { sender_id: Seq<char>, target_id: Seq<char>, document_id: Seq<u8> },
    Ephemeral {
        sender_id: Seq<char>,
        target_id: Seq<char>,
        count: u64,
        session_id: Seq<char>,
        document_id: Seq<u8>,
        data: Seq<u8>,
    },
    Error { message: Seq<char> },
    RemoteSubscriptionChange {
        sender_id: Seq<char>,
        target_id: Seq<char>,
        add: Option<Seq<Seq<char>>>,
        remove: Seq<Seq<char>>,
    },
    RemoteHeadsChanged {
        sender_id: Seq<char>,
        target_id: Seq<char>,
        document_id: Seq<u8>,
        new_heads: Seq<(Seq<char>, HeadsInfoView)>,
    },
}

/// The view of optional metadata.
pub open spec fn opt_meta_view(m: Option<PeerMetadata>) -> Option<PeerMetadataView> {
    match m {
        Some(x) => Some(x@),
        None => None,
    }
}

impl View for WireMessage {
    type V = WireMessageView;

    open spec fn view(&self) -> WireMessageView {
        match self {
            WireMessage::Join { sender_id, supported_protocol_versions, metadata } => WireMessageView::Join {
                sender_id: sender_id@,
                supported_protocol_versions: supported_protocol_versions.deep_view(),
                metadata: opt_meta_view(*metadata),
            },
            WireMessage::Peer { sender_id, selected_protocol_version, target_id, metadata } => WireMessageView::Peer {
                sender_id: sender_id@,
                selected_protocol_version: selected_protocol_version@,
                target_id: target_id@,
                metadata: opt_meta_view(*metadata),
            },
            WireMessage::Leave { sender_id } => WireMessageView::Leave { sender_id: sender_id@ },
            WireMessage::Request { document_id, sender_id, target_id, data } => WireMessageView::Request {
                document_id: document_id@,
                sender_id: sender_id@,
                target_id: target_id@,
                data: data@,
            },
            WireMessage::Sync { document_id, sender_id, target_id, data } => WireMessageView::Sync {
                document_id: document_id@,
                sender_id: sender_id@,
                target_id: target_id@,
                data: data@,
            },
            WireMessage::DocUnavailable { sender_id, target_id, document_id } => WireMessageView::DocUnavailable {
                sender_id: sender_id@,
                target_id: target_id@,
                document_id: document_id@,
            },
            WireMessage::Ephemeral { sender_id, target_id, count, session_id, document_id, data } =>
                WireMessageView::Ephemeral {
                sender_id: sender_id@,
                target_id: target_id@,
                count: *count,
                session_id: session_id@,
                document_id: document_id@,
                data: data@,
            },
            WireMessage::Error { message } => WireMessageView::Error { message: message@ },
            WireMessage::RemoteSubscriptionChange { sender_id, target_id, add, remove } =>
                WireMessageView::RemoteSubscriptionChange {
                sender_id: sender_id@,
                target_id: target_id@,
                add: match add {
                    Some(a) => Some(storage_ids_view(a@)),
                    None => None,
                },
                remove: storage_ids_view(remove@),
            },
            WireMessage::RemoteHeadsChanged { sender_id, target_id, document_id, new_heads } =>
                WireMessageView::RemoteHeadsChanged {
                sender_id: sender_id@,
                target_id: target_id@,
                document_id: document_id@,
                new_heads: heads_list_view(new_heads@),
            },
        }
    }
}

// The encoding.

/// A key followed by its encoded value.
pub open spec fn kv(k: Seq<char>, v: Seq<u8>) -> Seq<u8> {
    text_item(k) + v
}

/// Text items, one after the other.
pub open spec fn strs_enc(xs: Seq<Seq<char>>) -> Seq<u8>
    decreases xs.len(),
{
    if xs.len() == 0 {
        Seq::empty()
    } else {
        text_item(xs[0]) + strs_enc(xs.skip(1))
    }
}

/// An array of text items.
pub open spec fn str_array_enc(xs: Seq<Seq<char>>) -> Seq<u8> {
    array_head(xs.len()) + strs_enc(xs)
}

/// The encoding of peer metadata: the storage ID when there is one, then
/// whether the peer is ephemeral.
pub open spec fn meta_enc(m: PeerMetadataView) -> Seq<u8> {
    match m.storage_id {
        Some(s) => map_head(2) + (kv("storageId"@, text_item(s)) + kv("isEphemeral"@, bool_item(m.is_ephemeral))),
        None => map_head(1) + kv("isEphemeral"@, bool_item(m.is_ephemeral)),
    }
}

/// The `metadata` entry, when there is metadata.
pub open spec fn opt_meta_enc(m: Option<PeerMetadataView>) -> Seq<u8> {
    match m {
        Some(x) => kv("metadata"@, meta_enc(x)),
        None => Seq::empty(),
    }
}

/// The encoding of the heads of one storage ID.
pub open spec fn heads_info_enc(h: HeadsInfoView) -> Seq<u8> {
    map_head(2) + (kv("heads"@, str_array_enc(h.heads)) + kv("timestamp"@, uint_item(h.timestamp as nat)))
}

/// The entries of the `newHeads` map, in order.
pub open spec fn new_heads_entries_enc(xs: Seq<(Seq<char>, HeadsInfoView)>) -> Seq<u8>
    decreases xs.len(),
{
    if xs.len() == 0 {
        Seq::empty()
    } else {
        text_item(xs[0].0) + (heads_info_enc(xs[0].1) + new_heads_entries_enc(xs.skip(1)))
    }
}

/// The encoding of the `newHeads` map.
pub open spec fn new_heads_enc(xs: Seq<(Seq<char>, HeadsInfoView)>) -> Seq<u8> {
    map_head(xs.len()) + new_heads_entries_enc(xs)
}

/// The `add` entry, when there is a list to add.
pub open spec fn opt_add_enc(add: Option<Seq<Seq<char>>>) -> Seq<u8> {
    match add {
        Some(a) => kv("add"@, str_array_enc(a)),
        None => Seq::empty(),
    }
}

/// The encoding of a join message.
pub open spec fn join_enc(sender_id: Seq<char>, versions: Seq<Seq<char>>, metadata: Option<PeerMetadataView>) -> Seq<u8> {
    map_head(if metadata is Some { 4 } else { 3 })
    + (kv("type"@, text_item("join"@))
    + (kv("senderId"@, text_item(sender_id))
    + (kv("supportedProtocolVersions"@, str_array_enc(versions))
    + opt_meta_enc(metadata))))
}

/// The encoding of a peer message.
pub open spec fn peer_enc(sender_id: Seq<char>, selected: Seq<char>, target_id: Seq<char>, metadata: Option<PeerMetadataView>) -> Seq<u8> {
    map_head(if metadata is Some { 5 } else { 4 })
    + (kv("type"@, text_item("peer"@))
    + (kv("senderId"@, text_item(sender_id))
    + (kv("selectedProtocolVersion"@, text_item(selected))
    + (kv("targetId"@, text_item(target_id))
    + opt_meta_enc(metadata)))))
}

/// The encoding of a leave message.
pub open spec fn leave_enc(sender_id: Seq<char>) -> Seq<u8> {
    map_head(2)
    + (kv("type"@, text_item("leave"@))
    + kv("senderId"@, text_item(sender_id)))
}

/// The encoding of a request or sync message, whose type is `ty`.
pub open spec fn sync_like_enc(ty: Seq<char>, document_id: Seq<u8>, sender_id: Seq<char>, target_id: Seq<char>, data: Seq<u8>) -> Seq<u8> {
    map_head(5)
    + (kv("type"@, text_item(ty))
    + (kv("documentId"@, text_item(document_id_text(document_id)))
    + (kv("senderId"@, text_item(sender_id))
    + (kv("targetId"@, text_item(target_id))
    + kv("data"@, bytes_item(data))))))
}

/// The encoding of a doc-unavailable message.
pub open spec fn unavailable_enc(sender_id: Seq<char>, target_id: Seq<char>, document_id: Seq<u8>) -> Seq<u8> {
    map_head(4)
    + (kv("type"@, text_item("doc-unavailable"@))
    + (kv("senderId"@, text_item(sender_id))
    + (kv("targetId"@, text_item(target_id))
    + kv("documentId"@, text_item(document_id_text(document_id))))))
}

/// The encoding of an ephemeral message.
pub open spec fn ephemeral_enc(sender_id: Seq<char>, target_id: Seq<char>, count: u64, session_id: Seq<char>, document_id: Seq<u8>, data: Seq<u8>) -> Seq<u8> {
    map_head(7)
    + (kv("type"@, text_item("ephemeral"@))
    + (kv("senderId"@, text_item(sender_id))
    + (kv("targetId"@, text_item(target_id))
    + (kv("count"@, uint_item(count as nat))
    + (kv("sessionId"@, text_item(session_id))
    + (kv("documentId"@, text_item(document_id_text(document_id)))
    + kv("data"@, bytes_item(data))))))))
}

/// The encoding of an error message.
pub open spec fn error_enc(message: Seq<char>) -> Seq<u8> {
    map_head(2)
    + (kv("type"@, text_item("error"@))
    + kv("message"@, text_item(message)))
}

/// The encoding of a remote-subscription-change message.
pub open spec fn subscription_enc(sender_id: Seq<char>, target_id: Seq<char>, add: Option<Seq<Seq<char>>>, remove: Seq<Seq<char>>) -> Seq<u8> {
    map_head(if add is Some { 5 } else { 4 })
    + (kv("type"@, text_item("remote-subscription-change"@))
    + (kv("senderId"@, text_item(sender_id))
    + (kv("targetId"@, text_item(target_id))
    + (opt_add_enc(add)
    + kv("remove"@, str_array_enc(remove))))))
}

/// The encoding of a remote-heads-changed message.
pub open spec fn heads_changed_enc(sender_id: Seq<char>, target_id: Seq<char>, document_id: Seq<u8>, new_heads: Seq<(Seq<char>, HeadsInfoView)>) -> Seq<u8> {
    map_head(5)
    + (kv("type"@, text_item("remote-heads-changed"@))
    + (kv("senderId"@, text_item(sender_id))
    + (kv("targetId"@, text_item(target_id))
    + (kv("documentId"@, text_item(document_id_text(document_id)))
    + kv("newHeads"@, new_heads_enc(new_heads))))))
}

/// The CBOR encoding of a message: a map from field names to values, with
/// the `type` entry first.
pub open spec fn spec_encode(m: WireMessageView) -> Seq<u8> {
    match m {
        WireMessageView::Join { sender_id, supported_protocol_versions, metadata } =>
            join_enc(sender_id, supported_protocol_versions, metadata),
        WireMessageView::Peer { sender_id, selected_protocol_version, target_id, metadata } =>
            peer_enc(sender_id, selected_protocol_version, target_id, metadata),
        WireMessageView::Leave { sender_id } => leave_enc(sender_id),
        WireMessageView::Request { document_id, sender_id, target_id, data } =>
            sync_like_enc("request"@, document_id, sender_id, target_id, data),
        WireMessageView::Sync { document_id, sender_id, target_id, data } =>
            sync_like_enc("sync"@, document_id, sender_id, target_id, data),
        WireMessageView::DocUnavailable { sender_id, target_id, document_id } =>
            unavailable_enc(sender_id, target_id, document_id),
        WireMessageView::Ephemeral { sender_id, target_id, count, session_id, document_id, data } =>
            ephemeral_enc(sender_id, target_id, count, session_id, document_id, data),
        WireMessageView::Error { message } => error_enc(message),
        WireMessageView::RemoteSubscriptionChange { sender_id, target_id, add, remove } =>
            subscription_enc(sender_id, target_id, add, remove),
        WireMessageView::RemoteHeadsChanged { sender_id, target_id, document_id, new_heads } =>
            heads_changed_enc(sender_id, target_id, document_id, new_heads),
    }
}

proof fn lemma_strs_enc_push(xs: Seq<Seq<char>>, x: Seq<char>)
    ensures
        strs_enc(xs.push(x)) == strs_enc(xs) + text_item(x),
    decreases xs.len(),
{
    if xs.len() == 0 {
        assert(xs.push(x).skip(1) =~= Seq::<Seq<char>>::empty());
        assert(xs.push(x)[0] == x);
        assert(strs_enc(Seq::<Seq<char>>::empty()) =~= Seq::<u8>::empty());
        assert(strs_enc(xs.push(x)) =~= text_item(x));
    } else {
        lemma_strs_enc_push(xs.skip(1), x);
        assert(xs.push(x).skip(1) =~= xs.skip(1).push(x));
        assert(strs_enc(xs.push(x)) =~= strs_enc(xs) + text_item(x));
    }
}

proof fn lemma_new_heads_enc_push(xs: Seq<(Seq<char>, HeadsInfoView)>, x: (Seq<char>, HeadsInfoView))
    ensures
        new_heads_entries_enc(xs.push(x)) == new_heads_entries_enc(xs) + (text_item(x.0) + (heads_info_enc(x.1)
            + Seq::empty())),
    decreases xs.len(),
{
    if xs.len() == 0 {
        assert(xs.push(x).skip(1) =~= Seq::<(Seq<char>, HeadsInfoView)>::empty());
        assert(xs.push(x)[0] == x);
        assert(new_heads_entries_enc(Seq::<(Seq<char>, HeadsInfoView)>::empty()) =~= Seq::<u8>::empty());
        assert(new_heads_entries_enc(xs.push(x)) =~= text_item(x.0) + (heads_info_enc(x.1) + Seq::empty()));
        assert(new_heads_entries_enc(xs) + (text_item(x.0) + (heads_info_enc(x.1) + Seq::empty())) =~= text_item(x.0) + (heads_info_enc(x.1) + Seq::empty()));
    } else {
        lemma_new_heads_enc_push(xs.skip(1), x);
        assert(xs.push(x).skip(1) =~= xs.skip(1).push(x));
        assert(new_heads_entries_enc(xs.push(x)) =~= new_heads_entries_enc(xs) + (text_item(x.0) + (
        heads_info_enc(x.1) + Seq::empty())));
    }
}

fn write_key_str(buf: &mut Vec<u8>, key: &str, value: &str)
    ensures
        final(buf)@ == old(buf)@ + kv(key@, text_item(value@)),
{
    let ghost start = buf@;
    write_str(buf, key);
    write_str(buf, value);
    proof {
        assert(buf@ =~= start + kv(key@, text_item(value@)));
    }
}

fn encode_str_array(buf: &mut Vec<u8>, xs: &Vec<String>)
    ensures
        final(buf)@ == old(buf)@ + str_array_enc(xs.deep_view()),
{
    let ghost start = buf@;
    write_array(buf, xs.len() as u64);
    let mut i: usize = 0;
    while i < xs.len()
        invariant
            i <= xs@.len(),
            buf@ == start + array_head(xs@.len()) + strs_enc(xs.deep_view().take(i as int)),
        decreases xs@.len() - i,
    {
        let ghost before = buf@;
        write_str(buf, xs[i].as_str());
        proof {
            lemma_strs_enc_push(xs.deep_view().take(i as int), xs@[i as int]@);
            assert(xs.deep_view().take(i + 1) =~= xs.deep_view().take(i as int).push(xs@[i as int]@));
            assert(buf@ =~= start + array_head(xs@.len()) + strs_enc(xs.deep_view().take(i + 1)));
        }
        i = i + 1;
    }
    proof {
        assert(xs.deep_view().take(i as int) =~= xs.deep_view());
        assert(buf@ =~= start + str_array_enc(xs.deep_view()));
    }
}

fn encode_metadata(buf: &mut Vec<u8>, m: &PeerMetadata)
    ensures
        final(buf)@ == old(buf)@ + meta_enc(m@),
{
    let ghost start = buf@;
    match &m.storage_id {
        Some(sid) => {
            write_map(buf, 2);
            write_str(buf, "storageId");
            write_str(buf, sid.as_str());
        },
        None => {
            write_map(buf, 1);
        },
    }
    write_str(buf, "isEphemeral");
    write_bool(buf, m.is_ephemeral);
    proof {
        assert(buf@ =~= start + meta_enc(m@));
    }
}

fn encode_heads_info(buf: &mut Vec<u8>, h: &HeadsInfo)
    ensures
        final(buf)@ == old(buf)@ + heads_info_enc(h@),
{
    let ghost start = buf@;
    write_map(buf, 2);
    write_str(buf, "heads");
    encode_str_array(buf, &h.heads);
    write_str(buf, "timestamp");
    write_u64(buf, h.timestamp);
    proof {
        assert(buf@ =~= start + heads_info_enc(h@));
    }
}

fn encode_new_heads(buf: &mut Vec<u8>, xs: &Vec<(StorageId, HeadsInfo)>)
    ensures
        final(buf)@ == old(buf)@ + new_heads_enc(heads_list_view(xs@)),
{
    let ghost start = buf@;
    let ghost v = heads_list_view(xs@);
    write_map(buf, xs.len() as u64);
    let mut i: usize = 0;
    while i < xs.len()
        invariant
            i <= xs@.len(),
            v == heads_list_view(xs@),
            buf@ == start + map_head(xs@.len()) + new_heads_entries_enc(v.take(i as int)),
        decreases xs@.len() - i,
    {
        let ghost before = buf@;
        let entry = &xs[i];
        write_str(buf, entry.0.as_str());
        encode_heads_info(buf, &entry.1);
        proof {
            lemma_new_heads_enc_push(v.take(i as int), v[i as int]);
            assert(v.take(i + 1) =~= v.take(i as int).push(v[i as int]));
            assert(buf@ =~= start + map_head(xs@.len()) + new_heads_entries_enc(v.take(i + 1)));
        }
        i = i + 1;
    }
    proof {
        assert(v.take(i as int) =~= v);
        assert(buf@ =~= start + new_heads_enc(v));
    }
}

fn encode_storage_ids(buf: &mut Vec<u8>, xs: &Vec<StorageId>)
    ensures
        final(buf)@ == old(buf)@ + str_array_enc(storage_ids_view(xs@)),
{
    let ghost start = buf@;
    let ghost v = storage_ids_view(xs@);
    write_array(buf, xs.len() as u64);
    let mut i: usize = 0;
    while i < xs.len()
        invariant
            i <= xs@.len(),
            v == storage_ids_view(xs@),
            buf@ == start + array_head(xs@.len()) + strs_enc(v.take(i as int)),
        decreases xs@.len() - i,
    {
        write_str(buf, xs[i].as_str());
        proof {
            lemma_strs_enc_push(v.take(i as int), v[i as int]);
            assert(v.take(i + 1) =~= v.take(i as int).push(v[i as int]));
            assert(buf@ =~= start + array_head(xs@.len()) + strs_enc(v.take(i + 1)));
        }
        i = i + 1;
    }
    proof {
        assert(v.take(i as int) =~= v);
        assert(buf@ =~= start + str_array_enc(v));
    }
}

/// Why a message could not be encoded. Encoding into memory cannot fail, so
/// no value of this type is ever produced by [`WireMessage::encode`].
#[derive(Debug, Clone, PartialEq, Eq)]
pub enum EncodeError {
    /// The CBOR writer failed.
    Minicbor(String),
}

fn encode_join(buf: &mut Vec<u8>, sender_id: &PeerId, versions: &Vec<String>, metadata: &Option<PeerMetadata>)
    ensures
        final(buf)@ == old(buf)@ + join_enc(sender_id@, versions.deep_view(), opt_meta_view(*metadata)),
{
    let ghost start = buf@;
    let field_count: u64 = if metadata.is_some() { 4 } else { 3 };
    write_map(buf, field_count);
    write_key_str(buf, "type", "join");
    write_key_str(buf, "senderId", sender_id.as_str());
    write_str(buf, "supportedProtocolVersions");
    encode_str_array(buf, versions);
    let ghost mid = buf@;
    if let Some(m) = metadata {
        write_str(buf, "metadata");
        encode_metadata(buf, m);
    }
    proof {
        assert(buf@ =~= mid + opt_meta_enc(opt_meta_view(*metadata)));
        assert(buf@ =~= start + join_enc(sender_id@, versions.deep_view(), opt_meta_view(*metadata)));
    }
}

fn encode_peer(buf: &mut Vec<u8>, sender_id: &PeerId, selected: &String, target_id: &PeerId, metadata: &Option<PeerMetadata>)
    ensures
        final(buf)@ == old(buf)@ + peer_enc(sender_id@, selected@, target_id@, opt_meta_view(*metadata)),
{
    let ghost start = buf@;
    let field_count: u64 = if metadata.is_some() { 5 } else { 4 };
    write_map(buf, field_count);
    write_key_str(buf, "type", "peer");
    write_key_str(buf, "senderId", sender_id.as_str());
    write_key_str(buf, "selectedProtocolVersion", selected.as_str());
    write_key_str(buf, "targetId", target_id.as_str());
    let ghost mid = buf@;
    if let Some(m) = metadata {
        write_str(buf, "metadata");
        encode_metadata(buf, m);
    }
    proof {
        assert(buf@ =~= mid + opt_meta_enc(opt_meta_view(*metadata)));
        assert(buf@ =~= start + peer_enc(sender_id@, selected@, target_id@, opt_meta_view(*metadata)));
    }
}

fn encode_sync_like(buf: &mut Vec<u8>, ty: &str, document_id: &DocumentId, sender_id: &PeerId, target_id: &PeerId, data: &Vec<u8>)
    ensures
        final(buf)@ == old(buf)@ + sync_like_enc(ty@, document_id@, sender_id@, target_id@, data@),
{
    let ghost start = buf@;
    write_map(buf, 5);
    write_key_str(buf, "type", ty);
    write_key_str(buf, "documentId", document_id.to_string().as_str());
    write_key_str(buf, "senderId", sender_id.as_str());
    write_key_str(buf, "targetId", target_id.as_str());
    write_str(buf, "data");
    write_bytes(buf, data.as_slice());
    proof {
        assert(buf@ =~= start + sync_like_enc(ty@, document_id@, sender_id@, target_id@, data@));
    }
}

fn encode_unavailable(buf: &mut Vec<u8>, sender_id: &PeerId, target_id: &PeerId, document_id: &DocumentId)
    ensures
        final(buf)@ == old(buf)@ + unavailable_enc(sender_id@, target_id@, document_id@),
{
    let ghost start = buf@;
    write_map(buf, 4);
    write_key_str(buf, "type", "doc-unavailable");
    write_key_str(buf, "senderId", sender_id.as_str());
    write_key_str(buf, "targetId", target_id.as_str());
    write_key_str(buf, "documentId", document_id.to_string().as_str());
    proof {
        assert(buf@ =~= start + unavailable_enc(sender_id@, target_id@, document_id@));
    }
}

fn encode_ephemeral(
    buf: &mut Vec<u8>,
    sender_id: &PeerId,
    target_id: &PeerId,
    count: u64,
    session_id: &String,
    document_id: &DocumentId,
    data: &Vec<u8>,
)
    ensures
        final(buf)@ == old(buf)@ + ephemeral_enc(sender_id@, target_id@, count, session_id@, document_id@, data@),
{
    let ghost start = buf@;
    write_map(buf, 7);
    write_key_str(buf, "type", "ephemeral");
    write_key_str(buf, "senderId", sender_id.as_str());
    write_key_str(buf, "targetId", target_id.as_str());
    write_str(buf, "count");
    write_u64(buf, count);
    write_key_str(buf, "sessionId", session_id.as_str());
    write_key_str(buf, "documentId", document_id.to_string().as_str());
    write_str(buf, "data");
    write_bytes(buf, data.as_slice());
    proof {
        assert(buf@ =~= start + ephemeral_enc(sender_id@, target_id@, count, session_id@, document_id@, data@));
    }
}

fn encode_subscription(buf: &mut Vec<u8>, sender_id: &PeerId, target_id: &PeerId, add: &Option<Vec<StorageId>>, remove: &Vec<StorageId>)
    ensures
        final(buf)@ == old(buf)@ + subscription_enc(
            sender_id@,
            target_id@,
            match add {
                Some(a) => Some(storage_ids_view(a@)),
                None => None,
            },
            storage_ids_view(remove@),
        ),
{
    let ghost start = buf@;
    let ghost addv = match add {
        Some(a) => Some(storage_ids_view(a@)),
        None => None,
    };
    let field_count: u64 = if add.is_some() { 5 } else { 4 };
    write_map(buf, field_count);
    write_key_str(buf, "type", "remote-subscription-change");
    write_key_str(buf, "senderId", sender_id.as_str());
    write_key_str(buf, "targetId", target_id.as_str());
    let ghost mid = buf@;
    if let Some(add_list) = add {
        write_str(buf, "add");
        encode_storage_ids(buf, add_list);
    }
    proof {
        assert(buf@ =~= mid + opt_add_enc(addv));
    }
    write_str(buf, "remove");
    encode_storage_ids(buf, remove);
    proof {
        assert(buf@ =~= start + subscription_enc(sender_id@, target_id@, addv, storage_ids_view(remove@)));
    }
}

fn encode_heads_changed(buf: &mut Vec<u8>, sender_id: &PeerId, target_id: &PeerId, document_id: &DocumentId, new_heads: &Vec<(StorageId, HeadsInfo)>)
    ensures
        final(buf)@ == old(buf)@ + heads_changed_enc(sender_id@, target_id@, document_id@, heads_list_view(new_heads@)),
{
    let ghost start = buf@;
    write_map(buf, 5);
    write_key_str(buf, "type", "remote-heads-changed");
    write_key_str(buf, "senderId", sender_id.as_str());
    write_key_str(buf, "targetId", target_id.as_str());
    write_key_str(buf, "documentId", document_id.to_string().as_str());
    write_str(buf, "newHeads");
    encode_new_heads(buf, new_heads);
    proof {
        assert(buf@ =~= start + heads_changed_enc(sender_id@, target_id@, document_id@, heads_list_view(new_heads@)));
    }
}

impl WireMessage {
    /// The CBOR encoding of the message.
    pub fn encode(&self) -> (r: Vec<u8>)
        ensures
            r@ == spec_encode(self@),
    {
        match self.encode_inner() {
            Ok(v) => v,
            Err(_) => Vec::new(),
        }
    }

    fn encode_inner(&self) -> (r: Result<Vec<u8>, EncodeError>)
        ensures
            r matches Ok(v) && v@ == spec_encode(self@),
    {
        let mut buf: Vec<u8> = Vec::new();
        match self {
            WireMessage::Join { sender_id, supported_protocol_versions, metadata } => {
                encode_join(&mut buf, sender_id, supported_protocol_versions, metadata);
            },
            WireMessage::Peer { sender_id, selected_protocol_version, target_id, metadata } => {
                encode_peer(&mut buf, sender_id, selected_protocol_version, target_id, metadata);
            },
            WireMessage::Leave { sender_id } => {
                let ghost start = buf@;
                write_map(&mut buf, 2);
                write_key_str(&mut buf, "type", "leave");
                write_key_str(&mut buf, "senderId", sender_id.as_str());
                proof {
                    assert(buf@ =~= leave_enc(sender_id@));
                }
            },
            WireMessage::Request { document_id, sender_id, target_id, data } => {
                encode_sync_like(&mut buf, "request", document_id, sender_id, target_id, data);
            },
            WireMessage::Sync { document_id, sender_id, target_id, data } => {
                encode_sync_like(&mut buf, "sync", document_id, sender_id, target_id, data);
            },
            WireMessage::DocUnavailable { sender_id, target_id, document_id } => {
                encode_unavailable(&mut buf, sender_id, target_id, document_id);
            },
            WireMessage::Ephemeral { sender_id, target_id, count, session_id, document_id, data } => {
                encode_ephemeral(&mut buf, sender_id, target_id, *count, session_id, document_id, data);
            },
            WireMessage::Error { message } => {
                write_map(&mut buf, 2);
                write_key_str(&mut buf, "type", "error");
                write_key_str(&mut buf, "message", message.as_str());
                proof {
                    assert(buf@ =~= error_enc(message@));
                }
            },
            WireMessage::RemoteSubscriptionChange { sender_id, target_id, add, remove } => {
                encode_subscription(&mut buf, sender_id, target_id, add, remove);
            },
            WireMessage::RemoteHeadsChanged { sender_id, target_id, document_id, new_heads } => {
                encode_heads_changed(&mut buf, sender_id, target_id, document_id, new_heads);
            },
        }
        proof {
            assert(buf@ =~= spec_encode(self@));
        }
        Ok(buf)
    }
}

} // verus!
