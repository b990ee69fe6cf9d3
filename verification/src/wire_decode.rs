//! Reading messages back from their CBOR encoding.

use vstd::prelude::*;
use vstd::string::StrSliceExecFns;
use vstd::string::StringExecFns;

use crate::cbor::{
    read_array, read_bool, read_bytes, read_map, read_str, read_u64, skip_item, spec_read_array,
    spec_read_bool, spec_read_bytes, spec_read_map, spec_read_str, spec_read_u64, spec_skip,
};
use crate::ids::{spec_parse_document_id, DocumentId, PeerId, StorageId};
use crate::wire_protocol::{
    copy_heads_list, heads_list_view, opt_meta_view, storage_ids_view, HeadsInfo, HeadsInfoView, PeerMetadata,
    PeerMetadataView, WireMessage, WireMessageView,
};

verus! {

/// Why bytes could not be read as a message.
#[derive(Debug, Clone, PartialEq, Eq)]
pub enum DecodeError {
    /// The top-level map has an indefinite length.
    MissingLen,
    /// A nested map or array has an indefinite length.
    InvalidFormat,
    /// The CBOR reader failed, with its message.
    Minicbor(String),
    /// There is no `type` field.
    MissingType,
    /// A field the message type needs is missing.
    MissingField(String),
    /// The document ID field is not a valid document ID.
    InvalidDocumentId,
    /// The `type` field names no message type.
    UnknownType(String),
}

/// The abstract value of a [`DecodeError`].
pub enum DecodeErrorView {
    MissingLen,
    InvalidFormat,
    Minicbor(Seq<char>),
    MissingType,
    MissingField(Seq<char>),
    InvalidDocumentId,
    UnknownType(Seq<char>),
}

impl View for DecodeError {
    type V = DecodeErrorView;

    open spec fn view(&self) -> DecodeErrorView {
        match self {
            DecodeError::MissingLen => DecodeErrorView::MissingLen,
            DecodeError::InvalidFormat => DecodeErrorView::InvalidFormat,
            DecodeError::Minicbor(s) => DecodeErrorView::Minicbor(s@),
            DecodeError::MissingType => DecodeErrorView::MissingType,
            DecodeError::MissingField(s) => DecodeErrorView::MissingField(s@),
            DecodeError::InvalidDocumentId => DecodeErrorView::InvalidDocumentId,
            DecodeError::UnknownType(s) => DecodeErrorView::UnknownType(s@),
        }
    }
}

/// The text that describes a decoding error.
pub open spec fn decode_error_text(e: DecodeErrorView) -> Seq<char> {
    match e {
        DecodeErrorView::MissingLen => "missing len"@,
        DecodeErrorView::InvalidFormat => "invalid format"@,
        DecodeErrorView::Minicbor(s) => s,
        DecodeErrorView::MissingType => "no type field"@,
        DecodeErrorView::MissingField(s) => "missing field: "@ + s,
        DecodeErrorView::InvalidDocumentId => "invalid document ID"@,
        DecodeErrorView::UnknownType(s) => "unknown type "@ + s,
    }
}

impl DecodeError {
    /// The text that describes the error.
    pub fn to_string(&self) -> (r: String)
        ensures
            r@ == decode_error_text(self@),
    {
        match self {
            DecodeError::MissingLen => "missing len".to_string(),
            DecodeError::InvalidFormat => "invalid format".to_string(),
            DecodeError::Minicbor(s) => s.clone(),
            DecodeError::MissingType => "no type field".to_string(),
            DecodeError::MissingField(s) => {
                let mut t = "missing field: ".to_string();
                t.append(s.as_str());
                t
            },
            DecodeError::InvalidDocumentId => "invalid document ID".to_string(),
            DecodeError::UnknownType(s) => {
                let mut t = "unknown type ".to_string();
                t.append(s.as_str());
                t
            },
        }
    }
}

/// A value read for one field of a message.
#[derive(Debug, Clone)]
pub enum FieldValue {
    String(String),
    StringArray(Vec<String>),
    Bytes(Vec<u8>),
    Uint(u64),
    Metadata(PeerMetadata),
    NewHeads(Vec<(StorageId, HeadsInfo)>),
}

/// The abstract value of a [`FieldValue`].
pub enum FieldValueView {
    String(Seq<char>),
    StringArray(Seq<Seq<char>>),
    Bytes(Seq<u8>),
    Uint(u64),
    Metadata(PeerMetadataView),
    NewHeads(Seq<(Seq<char>, HeadsInfoView)>),
}

impl View for FieldValue {
    type V = FieldValueView;

    open spec fn view(&self) -> FieldValueView {
        match self {
            FieldValue::String(s) => FieldValueView::String(s@),
            FieldValue::StringArray(a) => FieldValueView::StringArray(a.deep_view()),
            FieldValue::Bytes(b) => FieldValueView::Bytes(b@),
            FieldValue::Uint(u) => FieldValueView::Uint(*u),
            FieldValue::Metadata(m) => FieldValueView::Metadata(m@),
            FieldValue::NewHeads(h) => FieldValueView::NewHeads(heads_list_view(h@)),
        }
    }
}

/// The view of an optional field value.
pub open spec fn opt_field_view(o: Option<FieldValue>) -> Option<FieldValueView> {
    match o {
        Some(v) => Some(v@),
        None => None,
    }
}

/// The view of the table of fields read so far.
pub open spec fn fields_view(v: Seq<Option<FieldValue>>) -> Seq<Option<FieldValueView>> {
    v.map_values(|o: Option<FieldValue>| opt_field_view(o))
}

/// The number of field names a message may carry.
pub const NUM_SLOTS: usize = 15;

/// The slot in which the value of the field named `k` is kept, for the
/// field names that messages use.
pub open spec fn key_slot(k: Seq<char>) -> Option<nat> {
    if k == "type"@ {
        Some(0)
    } else if k == "senderId"@ {
        Some(1)
    } else if k == "targetId"@ {
        Some(2)
    } else if k == "selectedProtocolVersion"@ {
        Some(3)
    } else if k == "message"@ {
        Some(4)
    } else if k == "sessionId"@ {
        Some(5)
    } else if k == "documentId"@ {
        Some(6)
    } else if k == "supportedProtocolVersions"@ {
        Some(7)
    } else if k == "add"@ {
        Some(8)
    } else if k == "remove"@ {
        Some(9)
    } else if k == "data"@ {
        Some(10)
    } else if k == "count"@ {
        Some(11)
    } else if k == "timestamp"@ {
        Some(12)
    } else if k == "metadata"@ {
        Some(13)
    } else if k == "newHeads"@ {
        Some(14)
    } else {
        None
    }
}

/// A failure of the CBOR reader.
pub open spec fn cbor_err(t: Seq<char>) -> DecodeErrorView {
    DecodeErrorView::Minicbor(t)
}

/// Reading `n` text items from `p` on, after the strings already in `acc`.
pub open spec fn spec_read_strs(data: Seq<u8>, p: nat, n: nat, acc: Seq<Seq<char>>) -> Result<(Seq<Seq<char>>, nat), DecodeErrorView>
    decreases n,
{
    if n == 0 {
        Ok((acc, p))
    } else {
        match spec_read_str(data, p) {
            Ok((s, p1)) => spec_read_strs(data, p1, (n - 1) as nat, acc.push(s)),
            Err(e) => Err(cbor_err(e)),
        }
    }
}

/// Reading an array of text items; an indefinite-length array is refused.
pub open spec fn spec_read_str_array(data: Seq<u8>, p: nat, acc: Seq<Seq<char>>) -> Result<(Seq<Seq<char>>, nat), DecodeErrorView> {
    match spec_read_array(data, p) {
        Err(e) => Err(cbor_err(e)),
        Ok((None, _)) => Err(DecodeErrorView::InvalidFormat),
        Ok((Some(n), p1)) => spec_read_strs(data, p1, n, acc),
    }
}

/// Reading `n` entries of a metadata map.
pub open spec fn spec_meta_entries(data: Seq<u8>, p: nat, n: nat, sid: Option<Seq<char>>, eph: bool) -> Result<(PeerMetadataView, nat), DecodeErrorView>
    decreases n,
{
    if n == 0 {
        Ok((PeerMetadataView { storage_id: sid, is_ephemeral: eph }, p))
    } else {
        match spec_read_str(data, p) {
            Err(e) => Err(cbor_err(e)),
            Ok((k, p1)) => if k == "storageId"@ {
                match spec_read_str(data, p1) {
                    Ok((s, p2)) => spec_meta_entries(data, p2, (n - 1) as nat, Some(s), eph),
                    Err(e) => Err(cbor_err(e)),
                }
            } else if k == "isEphemeral"@ {
                match spec_read_bool(data, p1) {
                    Ok((b, p2)) => spec_meta_entries(data, p2, (n - 1) as nat, sid, b),
                    Err(e) => Err(cbor_err(e)),
                }
            } else {
                match spec_skip(data, p1) {
                    Ok(p2) => spec_meta_entries(data, p2, (n - 1) as nat, sid, eph),
                    Err(e) => Err(cbor_err(e)),
                }
            },
        }
    }
}

/// Reading peer metadata: a map with optional `storageId` and `isEphemeral`
/// entries; other entries are skipped.
pub open spec fn spec_decode_metadata(data: Seq<u8>, p: nat) -> Result<(PeerMetadataView, nat), DecodeErrorView> {
    match spec_read_map(data, p) {
        Err(e) => Err(cbor_err(e)),
        Ok((None, _)) => Err(DecodeErrorView::InvalidFormat),
        Ok((Some(n), p1)) => spec_meta_entries(data, p1, n, None, false),
    }
}

/// Reading `n` entries of the heads map of one storage ID.
pub open spec fn spec_heads_entries(data: Seq<u8>, p: nat, n: nat, heads: Seq<Seq<char>>, ts: u64) -> Result<(HeadsInfoView, nat), DecodeErrorView>
    decreases n,
{
    if n == 0 {
        Ok((HeadsInfoView { heads, timestamp: ts }, p))
    } else {
        match spec_read_str(data, p) {
            Err(e) => Err(cbor_err(e)),
            Ok((k, p1)) => if k == "heads"@ {
                match spec_read_str_array(data, p1, heads) {
                    Ok((h, p2)) => spec_heads_entries(data, p2, (n - 1) as nat, h, ts),
                    Err(e) => Err(e),
                }
            } else if k == "timestamp"@ {
                match spec_read_u64(data, p1) {
                    Ok((t, p2)) => spec_heads_entries(data, p2, (n - 1) as nat, heads, t),
                    Err(e) => Err(cbor_err(e)),
                }
            } else {
                match spec_skip(data, p1) {
                    Ok(p2) => spec_heads_entries(data, p2, (n - 1) as nat, heads, ts),
                    Err(e) => Err(cbor_err(e)),
                }
            },
        }
    }
}

/// The first position at which `k` has a value in `acc`, searching from `i`.
pub open spec fn key_index<V>(acc: Seq<(Seq<char>, V)>, k: Seq<char>, i: nat) -> Option<nat>
    decreases acc.len() - i,
{
    if i >= acc.len() {
        None
    } else if acc[i as int].0 == k {
        Some(i)
    } else {
        key_index(acc, k, i + 1)
    }
}

/// `acc` with the value for `k` set to `v`: replaced where `k` already has a
/// value, added at the end otherwise.
pub open spec fn assoc_insert<V>(acc: Seq<(Seq<char>, V)>, k: Seq<char>, v: V) -> Seq<(Seq<char>, V)> {
    match key_index(acc, k, 0) {
        Some(i) => acc.update(i as int, (k, v)),
        None => acc.push((k, v)),
    }
}

/// Reading `n` entries of the `newHeads` map.
pub open spec fn spec_new_heads_entries(data: Seq<u8>, p: nat, n: nat, acc: Seq<(Seq<char>, HeadsInfoView)>) -> Result<(Seq<(Seq<char>, HeadsInfoView)>, nat), DecodeErrorView>
    decreases n,
{
    if n == 0 {
        Ok((acc, p))
    } else {
        match spec_read_str(data, p) {
            Err(e) => Err(cbor_err(e)),
            Ok((sid, p1)) => match spec_read_map(data, p1) {
                Err(e) => Err(cbor_err(e)),
                Ok((None, _)) => Err(DecodeErrorView::InvalidFormat),
                Ok((Some(m), p2)) => match spec_heads_entries(data, p2, m, Seq::empty(), 0) {
                    Ok((h, p3)) => spec_new_heads_entries(data, p3, (n - 1) as nat, assoc_insert(acc, sid, h)),
                    Err(e) => Err(e),
                },
            },
        }
    }
}

/// Reading the `newHeads` map.
pub open spec fn spec_decode_new_heads(data: Seq<u8>, p: nat) -> Result<(Seq<(Seq<char>, HeadsInfoView)>, nat), DecodeErrorView> {
    match spec_read_map(data, p) {
        Err(e) => Err(cbor_err(e)),
        Ok((None, _)) => Err(DecodeErrorView::InvalidFormat),
        Ok((Some(n), p1)) => spec_new_heads_entries(data, p1, n, Seq::empty()),
    }
}

/// Reading the value of the field kept in `slot`.
pub open spec fn spec_decode_value(data: Seq<u8>, p: nat, slot: nat) -> Result<(FieldValueView, nat), DecodeErrorView> {
    if slot <= 5 {
        match spec_read_str(data, p) {
            Ok((s, p1)) => Ok((FieldValueView::String(s), p1)),
            Err(e) => Err(cbor_err(e)),
        }
    } else if slot == 6 {
        match spec_read_str(data, p) {
            Ok((s, p1)) => Ok((FieldValueView::String(s), p1)),
            Err(_) => match spec_read_bytes(data, p) {
                Ok((b, p1)) => Ok((FieldValueView::Bytes(b), p1)),
                Err(e) => Err(cbor_err(e)),
            },
        }
    } else if slot <= 9 {
        match spec_read_str_array(data, p, Seq::empty()) {
            Ok((a, p1)) => Ok((FieldValueView::StringArray(a), p1)),
            Err(e) => Err(e),
        }
    } else if slot == 10 {
        match spec_read_bytes(data, p) {
            Ok((b, p1)) => Ok((FieldValueView::Bytes(b), p1)),
            Err(e) => Err(cbor_err(e)),
        }
    } else if slot <= 12 {
        match spec_read_u64(data, p) {
            Ok((u, p1)) => Ok((FieldValueView::Uint(u), p1)),
            Err(e) => Err(cbor_err(e)),
        }
    } else if slot == 13 {
        match spec_decode_metadata(data, p) {
            Ok((m, p1)) => Ok((FieldValueView::Metadata(m), p1)),
            Err(e) => Err(e),
        }
    } else {
        match spec_decode_new_heads(data, p) {
            Ok((h, p1)) => Ok((FieldValueView::NewHeads(h), p1)),
            Err(e) => Err(e),
        }
    }
}

/// Reading `n` entries of the top-level map; a later entry for a field
/// replaces an earlier one, and entries with other names are skipped.
#[verifier::opaque]
pub open spec fn spec_decode_entries(data: Seq<u8>, p: nat, n: nat, f: Seq<Option<FieldValueView>>) -> Result<(Seq<Option<FieldValueView>>, nat), DecodeErrorView>
    decreases n,
{
    if n == 0 {
        Ok((f, p))
    } else {
        match spec_read_str(data, p) {
            Err(e) => Err(cbor_err(e)),
            Ok((k, p1)) => match key_slot(k) {
                None => match spec_skip(data, p1) {
                    Ok(p2) => spec_decode_entries(data, p2, (n - 1) as nat, f),
                    Err(e) => Err(cbor_err(e)),
                },
                Some(slot) => match spec_decode_value(data, p1, slot) {
                    Ok((v, p2)) => spec_decode_entries(data, p2, (n - 1) as nat, f.update(slot as int, Some(v))),
                    Err(e) => Err(e),
                },
            },
        }
    }
}

/// No field read yet.
pub open spec fn empty_fields() -> Seq<Option<FieldValueView>> {
    Seq::new(NUM_SLOTS as nat, |i: int| None)
}

/// The text of a string field.
pub open spec fn field_string(f: Option<FieldValueView>) -> Option<Seq<char>> {
    match f {
        Some(FieldValueView::String(s)) => Some(s),
        _ => None,
    }
}

/// The strings of a string array field.
pub open spec fn field_strings(f: Option<FieldValueView>) -> Option<Seq<Seq<char>>> {
    match f {
        Some(FieldValueView::StringArray(a)) => Some(a),
        _ => None,
    }
}

/// The bytes of a byte string field.
pub open spec fn field_bytes(f: Option<FieldValueView>) -> Option<Seq<u8>> {
    match f {
        Some(FieldValueView::Bytes(b)) => Some(b),
        _ => None,
    }
}

/// The number of an unsigned integer field.
pub open spec fn field_uint(f: Option<FieldValueView>) -> Option<u64> {
    match f {
        Some(FieldValueView::Uint(u)) => Some(u),
        _ => None,
    }
}

/// The metadata of a metadata field.
pub open spec fn field_metadata(f: Option<FieldValueView>) -> Option<PeerMetadataView> {
    match f {
        Some(FieldValueView::Metadata(m)) => Some(m),
        _ => None,
    }
}

/// The heads of a `newHeads` field.
pub open spec fn field_new_heads(f: Option<FieldValueView>) -> Option<Seq<(Seq<char>, HeadsInfoView)>> {
    match f {
        Some(FieldValueView::NewHeads(h)) => Some(h),
        _ => None,
    }
}

/// A peer ID field, which must be present.
pub open spec fn spec_get_peer_id(f: Option<FieldValueView>, key: Seq<char>) -> Result<Seq<char>, DecodeErrorView> {
    match field_string(f) {
        Some(s) => Ok(s),
        None => Err(DecodeErrorView::MissingField(key)),
    }
}

/// A document ID field, which must be present and hold a valid ID, as text
/// or as bytes.
pub open spec fn spec_get_document_id(f: Option<FieldValueView>, key: Seq<char>) -> Result<Seq<u8>, DecodeErrorView> {
    match f {
        None => Err(DecodeErrorView::MissingField(key)),
        Some(FieldValueView::String(s)) => match spec_parse_document_id(s) {
            Ok(b) => Ok(b),
            Err(_) => Err(DecodeErrorView::InvalidDocumentId),
        },
        Some(FieldValueView::Bytes(b)) => if b.len() == crate::ids::DOCUMENT_ID_LEN {
            Ok(b)
        } else {
            Err(DecodeErrorView::InvalidDocumentId)
        },
        _ => Err(DecodeErrorView::InvalidDocumentId),
    }
}

/// A field that must be present with a value of the right kind.
pub open spec fn required<T>(v: Option<T>, key: Seq<char>) -> Result<T, DecodeErrorView> {
    match v {
        Some(x) => Ok(x),
        None => Err(DecodeErrorView::MissingField(key)),
    }
}

/// The message the fields read make, checked in the order the message type
/// lists its fields.
#[verifier::opaque]
pub open spec fn spec_message_from_fields(f: Seq<Option<FieldValueView>>) -> Result<WireMessageView, DecodeErrorView> {
    match field_string(f[0]) {
        None => Err(DecodeErrorView::MissingType),
        Some(t) => if t == "join"@ {
            match spec_get_peer_id(f[1], "senderId"@) {
                Err(e) => Err(e),
                Ok(sender_id) => match required(field_strings(f[7]), "supportedProtocolVersions"@) {
                    Err(e) => Err(e),
                    Ok(versions) => Ok(WireMessageView::Join {
                        sender_id,
                        supported_protocol_versions: versions,
                        metadata: field_metadata(f[13]),
                    }),
                },
            }
        } else if t == "peer"@ {
            match spec_get_peer_id(f[1], "senderId"@) {
                Err(e) => Err(e),
                Ok(sender_id) => match spec_get_peer_id(f[2], "targetId"@) {
                    Err(e) => Err(e),
                    Ok(target_id) => match required(field_string(f[3]), "selectedProtocolVersion"@) {
                        Err(e) => Err(e),
                        Ok(selected) => Ok(WireMessageView::Peer {
                            sender_id,
                            selected_protocol_version: selected,
                            target_id,
                            metadata: field_metadata(f[13]),
                        }),
                    },
                },
            }
        } else if t == "leave"@ {
            match spec_get_peer_id(f[1], "senderId"@) {
                Err(e) => Err(e),
                Ok(sender_id) => Ok(WireMessageView::Leave { sender_id }),
            }
        } else if t == "request"@ || t == "sync"@ {
            match spec_get_document_id(f[6], "documentId"@) {
                Err(e) => Err(e),
                Ok(document_id) => match spec_get_peer_id(f[1], "senderId"@) {
                    Err(e) => Err(e),
                    Ok(sender_id) => match spec_get_peer_id(f[2], "targetId"@) {
                        Err(e) => Err(e),
                        Ok(target_id) => match required(field_bytes(f[10]), "data"@) {
                            Err(e) => Err(e),
                            Ok(data) => if t == "request"@ {
                                Ok(WireMessageView::Request { document_id, sender_id, target_id, data })
                            } else {
                                Ok(WireMessageView::Sync { document_id, sender_id, target_id, data })
                            },
                        },
                    },
                },
            }
        } else if t == "doc-unavailable"@ {
            match spec_get_peer_id(f[1], "senderId"@) {
                Err(e) => Err(e),
                Ok(sender_id) => match spec_get_peer_id(f[2], "targetId"@) {
                    Err(e) => Err(e),
                    Ok(target_id) => match spec_get_document_id(f[6], "documentId"@) {
                        Err(e) => Err(e),
                        Ok(document_id) => Ok(WireMessageView::DocUnavailable { sender_id, target_id, document_id }),
                    },
                },
            }
        } else if t == "ephemeral"@ {
            match spec_get_peer_id(f[1], "senderId"@) {
                Err(e) => Err(e),
                Ok(sender_id) => match spec_get_peer_id(f[2], "targetId"@) {
                    Err(e) => Err(e),
                    Ok(target_id) => match required(field_uint(f[11]), "count"@) {
                        Err(e) => Err(e),
                        Ok(count) => match required(field_string(f[5]), "sessionId"@) {
                            Err(e) => Err(e),
                            Ok(session_id) => match spec_get_document_id(f[6], "documentId"@) {
                                Err(e) => Err(e),
                                Ok(document_id) => match required(field_bytes(f[10]), "data"@) {
                                    Err(e) => Err(e),
                                    Ok(data) => Ok(WireMessageView::Ephemeral {
                                        sender_id,
                                        target_id,
                                        count,
                                        session_id,
                                        document_id,
                                        data,
                                    }),
                                },
                            },
                        },
                    },
                },
            }
        } else if t == "error"@ {
            match required(field_string(f[4]), "message"@) {
                Err(e) => Err(e),
                Ok(message) => Ok(WireMessageView::Error { message }),
            }
        } else if t == "remote-subscription-change"@ {
            match spec_get_peer_id(f[1], "senderId"@) {
                Err(e) => Err(e),
                Ok(sender_id) => match spec_get_peer_id(f[2], "targetId"@) {
                    Err(e) => Err(e),
                    Ok(target_id) => match required(field_strings(f[9]), "remove"@) {
                        Err(e) => Err(e),
                        Ok(remove) => Ok(WireMessageView::RemoteSubscriptionChange {
                            sender_id,
                            target_id,
                            add: field_strings(f[8]),
                            remove,
                        }),
                    },
                },
            }
        } else if t == "remote-heads-changed"@ {
            match spec_get_peer_id(f[1], "senderId"@) {
                Err(e) => Err(e),
                Ok(sender_id) => match spec_get_peer_id(f[2], "targetId"@) {
                    Err(e) => Err(e),
                    Ok(target_id) => match spec_get_document_id(f[6], "documentId"@) {
                        Err(e) => Err(e),
                        Ok(document_id) => match required(field_new_heads(f[14]), "newHeads"@) {
                            Err(e) => Err(e),
                            Ok(new_heads) => Ok(WireMessageView::RemoteHeadsChanged {
                                sender_id,
                                target_id,
                                document_id,
                                new_heads,
                            }),
                        },
                    },
                },
            }
        } else {
            Err(DecodeErrorView::UnknownType(t))
        },
    }
}

/// What reading `data` as a message gives: a map of known length whose
/// entries give the fields of the message. Bytes after the map are ignored.
#[verifier::opaque]
pub open spec fn spec_decode(data: Seq<u8>) -> Result<WireMessageView, DecodeErrorView> {
    match spec_read_map(data, 0) {
        Err(e) => Err(cbor_err(e)),
        Ok((None, _)) => Err(DecodeErrorView::MissingLen),
        Ok((Some(n), p)) => match spec_decode_entries(data, p, n, empty_fields()) {
            Err(e) => Err(e),
            Ok((f, _)) => spec_message_from_fields(f),
        },
    }
}

/// Whether two strings hold the same characters.
pub(crate) fn str_eq(a: &str, b: &str) -> (r: bool)
    ensures
        r == (a@ == b@),
{
    let n = a.unicode_len();
    if n != b.unicode_len() {
        return false;
    }
    let mut i: usize = 0;
    while i < n
        invariant
            n == a@.len(),
            n == b@.len(),
            i <= n,
            forall|j: int| 0 <= j < i ==> a@[j] == b@[j],
        decreases n - i,
    {
        if a.get_char(i) != b.get_char(i) {
            return false;
        }
        i = i + 1;
    }
    proof {
        assert(a@ =~= b@);
    }
    true
}

fn read_strs(data: &[u8], p: usize, n: u64, acc: Vec<String>) -> (r: Result<(Vec<String>, usize), DecodeError>)
    ensures
        match r {
            Ok((v, q)) => spec_read_strs(data@, p as nat, n as nat, acc.deep_view())
                == Ok::<(Seq<Seq<char>>, nat), DecodeErrorView>((v.deep_view(), q as nat)),
            Err(e) => spec_read_strs(data@, p as nat, n as nat, acc.deep_view())
                == Err::<(Seq<Seq<char>>, nat), DecodeErrorView>(e@),
        },
{
    let mut out = acc;
    let mut pos = p;
    let mut i: u64 = 0;
    let ghost start = spec_read_strs(data@, p as nat, n as nat, acc.deep_view());
    while i < n
        invariant
            i <= n,
            start == spec_read_strs(data@, p as nat, n as nat, acc.deep_view()),
            start == spec_read_strs(data@, pos as nat, (n - i) as nat, out.deep_view()),
        decreases n - i,
    {
        match read_str(data, pos) {
            Ok((s, p1)) => {
                let ghost before = out.deep_view();
                out.push(s);
                proof {
                    assert(out.deep_view() =~= before.push(s@));
                }
                pos = p1;
            },
            Err(e) => {
                proof {
                    assert(spec_read_str(data@, pos as nat) == Err::<(Seq<char>, nat), Seq<char>>(e@));
                    assert(spec_read_strs(data@, pos as nat, (n - i) as nat, out.deep_view())
                        == Err::<(Seq<Seq<char>>, nat), DecodeErrorView>(DecodeErrorView::Minicbor(e@)));
                }
                return Err(DecodeError::Minicbor(e));
            },
        }
        i = i + 1;
    }
    Ok((out, pos))
}

fn read_str_array(data: &[u8], p: usize, acc: Vec<String>) -> (r: Result<(Vec<String>, usize), DecodeError>)
    ensures
        match r {
            Ok((v, q)) => spec_read_str_array(data@, p as nat, acc.deep_view())
                == Ok::<(Seq<Seq<char>>, nat), DecodeErrorView>((v.deep_view(), q as nat)),
            Err(e) => spec_read_str_array(data@, p as nat, acc.deep_view())
                == Err::<(Seq<Seq<char>>, nat), DecodeErrorView>(e@),
        },
{
    match read_array(data, p) {
        Err(e) => Err(DecodeError::Minicbor(e)),
        Ok((None, _)) => Err(DecodeError::InvalidFormat),
        Ok((Some(n), p1)) => read_strs(data, p1, n, acc),
    }
}

fn decode_metadata(data: &[u8], p: usize) -> (r: Result<(PeerMetadata, usize), DecodeError>)
    ensures
        match r {
            Ok((m, q)) => spec_decode_metadata(data@, p as nat)
                == Ok::<(PeerMetadataView, nat), DecodeErrorView>((m@, q as nat)),
            Err(e) => spec_decode_metadata(data@, p as nat)
                == Err::<(PeerMetadataView, nat), DecodeErrorView>(e@),
        },
{
    let (len, p1) = match read_map(data, p) {
        Err(e) => {
            return Err(DecodeError::Minicbor(e));
        },
        Ok((None, _)) => {
            return Err(DecodeError::InvalidFormat);
        },
        Ok((Some(n), p1)) => (n, p1),
    };
    let mut storage_id: Option<StorageId> = None;
    let mut is_ephemeral = false;
    let mut pos = p1;
    let mut i: u64 = 0;
    let ghost start = spec_meta_entries(data@, p1 as nat, len as nat, None, false);
    assert(spec_decode_metadata(data@, p as nat) == start);
    while i < len
        invariant
            i <= len,
            start == spec_meta_entries(data@, p1 as nat, len as nat, None, false),
            spec_decode_metadata(data@, p as nat) == start,
            start == spec_meta_entries(data@, pos as nat, (len - i) as nat,
                crate::wire_protocol::opt_storage_view(storage_id), is_ephemeral),
        decreases len - i,
    {
        let (key, q1) = match read_str(data, pos) {
            Err(e) => {
                return Err(DecodeError::Minicbor(e));
            },
            Ok(x) => x,
        };
        if str_eq(key.as_str(), "storageId") {
            match read_str(data, q1) {
                Ok((s, q2)) => {
                    storage_id = Some(StorageId::from_string(s));
                    pos = q2;
                },
                Err(e) => {
                    return Err(DecodeError::Minicbor(e));
                },
            }
        } else if str_eq(key.as_str(), "isEphemeral") {
            match read_bool(data, q1) {
                Ok((b, q2)) => {
                    is_ephemeral = b;
                    pos = q2;
                },
                Err(e) => {
                    return Err(DecodeError::Minicbor(e));
                },
            }
        } else {
            match skip_item(data, q1) {
                Ok(q2) => {
                    pos = q2;
                },
                Err(e) => {
                    return Err(DecodeError::Minicbor(e));
                },
            }
        }
        i = i + 1;
    }
    Ok((PeerMetadata { storage_id, is_ephemeral }, pos))
}

fn decode_heads_info(data: &[u8], p: usize, len: u64) -> (r: Result<(HeadsInfo, usize), DecodeError>)
    ensures
        match r {
            Ok((h, q)) => spec_heads_entries(data@, p as nat, len as nat, Seq::empty(), 0)
                == Ok::<(HeadsInfoView, nat), DecodeErrorView>((h@, q as nat)),
            Err(e) => spec_heads_entries(data@, p as nat, len as nat, Seq::empty(), 0)
                == Err::<(HeadsInfoView, nat), DecodeErrorView>(e@),
        },
{
    let mut heads: Vec<String> = Vec::new();
    let mut timestamp: u64 = 0;
    let mut pos = p;
    let mut i: u64 = 0;
    let ghost start = spec_heads_entries(data@, p as nat, len as nat, Seq::empty(), 0);
    proof {
        assert(heads.deep_view() =~= Seq::<Seq<char>>::empty());
    }
    while i < len
        invariant
            i <= len,
            start == spec_heads_entries(data@, p as nat, len as nat, Seq::empty(), 0),
            start == spec_heads_entries(data@, pos as nat, (len - i) as nat, heads.deep_view(), timestamp),
        decreases len - i,
    {
        let (key, q1) = match read_str(data, pos) {
            Err(e) => {
                return Err(DecodeError::Minicbor(e));
            },
            Ok(x) => x,
        };
        if str_eq(key.as_str(), "heads") {
            match read_str_array(data, q1, heads) {
                Ok((h, q2)) => {
                    heads = h;
                    pos = q2;
                },
                Err(e) => {
                    return Err(e);
                },
            }
        } else if str_eq(key.as_str(), "timestamp") {
            match read_u64(data, q1) {
                Ok((t, q2)) => {
                    timestamp = t;
                    pos = q2;
                },
                Err(e) => {
                    return Err(DecodeError::Minicbor(e));
                },
            }
        } else {
            match skip_item(data, q1) {
                Ok(q2) => {
                    pos = q2;
                },
                Err(e) => {
                    return Err(DecodeError::Minicbor(e));
                },
            }
        }
        i = i + 1;
    }
    Ok((HeadsInfo { heads, timestamp }, pos))
}

fn assoc_insert_heads(acc: &mut Vec<(StorageId, HeadsInfo)>, k: StorageId, v: HeadsInfo)
    ensures
        heads_list_view(final(acc)@) == assoc_insert(heads_list_view(old(acc)@), k@, v@),
{
    let ghost a = heads_list_view(acc@);
    let mut i: usize = 0;
    while i < acc.len()
        invariant
            i <= acc@.len(),
            a == heads_list_view(acc@),
            a == heads_list_view(old(acc)@),
            key_index(a, k@, 0) == key_index(a, k@, i as nat),
        decreases acc@.len() - i,
    {
        if acc[i].0.same_as(&k) {
            let ghost before = acc@;
            acc.set(i, (k, v));
            proof {
                assert(key_index(a, k@, i as nat) == Some(i as nat));
                assert(heads_list_view(acc@) =~= a.update(i as int, (k@, v@)));
            }
            return;
        }
        i = i + 1;
    }
    let ghost before = acc@;
    acc.push((k, v));
    proof {
        assert(key_index(a, k@, i as nat) is None);
        assert(heads_list_view(acc@) =~= a.push((k@, v@)));
    }
}

fn decode_new_heads(data: &[u8], p: usize) -> (r: Result<(Vec<(StorageId, HeadsInfo)>, usize), DecodeError>)
    ensures
        match r {
            Ok((h, q)) => spec_decode_new_heads(data@, p as nat)
                == Ok::<(Seq<(Seq<char>, HeadsInfoView)>, nat), DecodeErrorView>((heads_list_view(h@), q as nat)),
            Err(e) => spec_decode_new_heads(data@, p as nat)
                == Err::<(Seq<(Seq<char>, HeadsInfoView)>, nat), DecodeErrorView>(e@),
        },
{
    let (len, p1) = match read_map(data, p) {
        Err(e) => {
            return Err(DecodeError::Minicbor(e));
        },
        Ok((None, _)) => {
            return Err(DecodeError::InvalidFormat);
        },
        Ok((Some(n), p1)) => (n, p1),
    };
    let mut new_heads: Vec<(StorageId, HeadsInfo)> = Vec::new();
    let mut pos = p1;
    let mut i: u64 = 0;
    let ghost start = spec_new_heads_entries(data@, p1 as nat, len as nat, Seq::empty());
    assert(spec_decode_new_heads(data@, p as nat) == start);
    proof {
        assert(heads_list_view(new_heads@) =~= Seq::<(Seq<char>, HeadsInfoView)>::empty());
    }
    while i < len
        invariant
            i <= len,
            start == spec_new_heads_entries(data@, p1 as nat, len as nat, Seq::empty()),
            spec_decode_new_heads(data@, p as nat) == start,
            start == spec_new_heads_entries(data@, pos as nat, (len - i) as nat, heads_list_view(new_heads@)),
        decreases len - i,
    {
        let (sid, q1) = match read_str(data, pos) {
            Err(e) => {
                return Err(DecodeError::Minicbor(e));
            },
            Ok(x) => x,
        };
        let (heads_len, q2) = match read_map(data, q1) {
            Err(e) => {
                return Err(DecodeError::Minicbor(e));
            },
            Ok((None, _)) => {
                return Err(DecodeError::InvalidFormat);
            },
            Ok((Some(m), q2)) => (m, q2),
        };
        match decode_heads_info(data, q2, heads_len) {
            Ok((info, q3)) => {
                assoc_insert_heads(&mut new_heads, StorageId::from_string(sid), info);
                pos = q3;
            },
            Err(e) => {
                return Err(e);
            },
        }
        i = i + 1;
    }
    Ok((new_heads, pos))
}

/// The slot for the field named `k`, or `None` for a name messages do not use.
fn key_slot_of(k: &str) -> (r: Option<usize>)
    ensures
        match r {
            Some(s) => key_slot(k@) == Some(s as nat) && s < NUM_SLOTS,
            None => key_slot(k@) is None,
        },
{
    if str_eq(k, "type") {
        Some(0)
    } else if str_eq(k, "senderId") {
        Some(1)
    } else if str_eq(k, "targetId") {
        Some(2)
    } else if str_eq(k, "selectedProtocolVersion") {
        Some(3)
    } else if str_eq(k, "message") {
        Some(4)
    } else if str_eq(k, "sessionId") {
        Some(5)
    } else if str_eq(k, "documentId") {
        Some(6)
    } else if str_eq(k, "supportedProtocolVersions") {
        Some(7)
    } else if str_eq(k, "add") {
        Some(8)
    } else if str_eq(k, "remove") {
        Some(9)
    } else if str_eq(k, "data") {
        Some(10)
    } else if str_eq(k, "count") {
        Some(11)
    } else if str_eq(k, "timestamp") {
        Some(12)
    } else if str_eq(k, "metadata") {
        Some(13)
    } else if str_eq(k, "newHeads") {
        Some(14)
    } else {
        None
    }
}

fn decode_value(data: &[u8], p: usize, slot: usize) -> (r: Result<(FieldValue, usize), DecodeError>)
    ensures
        match r {
            Ok((v, q)) => spec_decode_value(data@, p as nat, slot as nat)
                == Ok::<(FieldValueView, nat), DecodeErrorView>((v@, q as nat)),
            Err(e) => spec_decode_value(data@, p as nat, slot as nat)
                == Err::<(FieldValueView, nat), DecodeErrorView>(e@),
        },
{
    if slot <= 5 {
        match read_str(data, p) {
            Ok((s, p1)) => Ok((FieldValue::String(s), p1)),
            Err(e) => Err(DecodeError::Minicbor(e)),
        }
    } else if slot == 6 {
        match read_str(data, p) {
            Ok((s, p1)) => Ok((FieldValue::String(s), p1)),
            Err(_) => match read_bytes(data, p) {
                Ok((b, p1)) => Ok((FieldValue::Bytes(b), p1)),
                Err(e) => Err(DecodeError::Minicbor(e)),
            },
        }
    } else if slot <= 9 {
        let empty: Vec<String> = Vec::new();
        proof {
            assert(empty.deep_view() =~= Seq::<Seq<char>>::empty());
        }
        match read_str_array(data, p, empty) {
            Ok((a, p1)) => Ok((FieldValue::StringArray(a), p1)),
            Err(e) => Err(e),
        }
    } else if slot == 10 {
        match read_bytes(data, p) {
            Ok((b, p1)) => Ok((FieldValue::Bytes(b), p1)),
            Err(e) => Err(DecodeError::Minicbor(e)),
        }
    } else if slot <= 12 {
        match read_u64(data, p) {
            Ok((u, p1)) => Ok((FieldValue::Uint(u), p1)),
            Err(e) => Err(DecodeError::Minicbor(e)),
        }
    } else if slot == 13 {
        match decode_metadata(data, p) {
            Ok((m, p1)) => Ok((FieldValue::Metadata(m), p1)),
            Err(e) => Err(e),
        }
    } else {
        match decode_new_heads(data, p) {
            Ok((h, p1)) => Ok((FieldValue::NewHeads(h), p1)),
            Err(e) => Err(e),
        }
    }
}

fn decode_entries(data: &[u8], p: usize, n: u64) -> (r: Result<(Vec<Option<FieldValue>>, usize), DecodeError>)
    ensures
        match r {
            Ok((f, q)) => spec_decode_entries(data@, p as nat, n as nat, empty_fields())
                == Ok::<(Seq<Option<FieldValueView>>, nat), DecodeErrorView>((fields_view(f@), q as nat))
                && f@.len() == NUM_SLOTS,
            Err(e) => spec_decode_entries(data@, p as nat, n as nat, empty_fields())
                == Err::<(Seq<Option<FieldValueView>>, nat), DecodeErrorView>(e@),
        },
{
    let mut fields: Vec<Option<FieldValue>> = Vec::new();
    let mut k: usize = 0;
    while k < NUM_SLOTS
        invariant
            k <= NUM_SLOTS,
            fields@.len() == k,
            forall|j: int| 0 <= j < k ==> fields@[j] is None,
        decreases NUM_SLOTS - k,
    {
        fields.push(None);
        k = k + 1;
    }
    proof {
        assert(fields_view(fields@) =~= empty_fields());
    }
    let mut pos = p;
    let mut i: u64 = 0;
    proof {
        reveal(spec_decode_entries);
    }
    let ghost start = spec_decode_entries(data@, p as nat, n as nat, empty_fields());
    while i < n
        invariant
            i <= n,
            fields@.len() == NUM_SLOTS,
            start == spec_decode_entries(data@, p as nat, n as nat, empty_fields()),
            start == spec_decode_entries(data@, pos as nat, (n - i) as nat, fields_view(fields@)),
        decreases n - i,
    {
        proof {
            reveal(spec_decode_entries);
        }
        let (key, q1) = match read_str(data, pos) {
            Err(e) => {
                return Err(DecodeError::Minicbor(e));
            },
            Ok(x) => x,
        };
        match key_slot_of(key.as_str()) {
            None => match skip_item(data, q1) {
                Ok(q2) => {
                    pos = q2;
                },
                Err(e) => {
                    return Err(DecodeError::Minicbor(e));
                },
            },
            Some(slot) => match decode_value(data, q1, slot) {
                Ok((v, q2)) => {
                    let ghost before = fields@;
                    fields.set(slot, Some(v));
                    proof {
                        assert(fields_view(fields@) =~= fields_view(before).update(slot as int, Some(v@)));
                    }
                    pos = q2;
                },
                Err(e) => {
                    return Err(e);
                },
            },
        }
        i = i + 1;
    }
    Ok((fields, pos))
}

impl FieldValue {
    /// The text of a string value.
    pub fn as_string(&self) -> (r: Option<&String>)
        ensures
            match r {
                Some(s) => field_string(Some(self@)) == Some(s@),
                None => field_string(Some(self@)) is None,
            },
    {
        match self {
            FieldValue::String(s) => Some(s),
            _ => None,
        }
    }

    /// The strings of a string array value.
    pub fn as_string_array(&self) -> (r: Option<&Vec<String>>)
        ensures
            match r {
                Some(a) => field_strings(Some(self@)) == Some(a.deep_view()),
                None => field_strings(Some(self@)) is None,
            },
    {
        match self {
            FieldValue::StringArray(a) => Some(a),
            _ => None,
        }
    }

    /// The bytes of a byte string value.
    pub fn as_bytes(&self) -> (r: Option<&Vec<u8>>)
        ensures
            match r {
                Some(b) => field_bytes(Some(self@)) == Some(b@),
                None => field_bytes(Some(self@)) is None,
            },
    {
        match self {
            FieldValue::Bytes(b) => Some(b),
            _ => None,
        }
    }

    /// The number of an unsigned integer value.
    pub fn as_uint(&self) -> (r: Option<u64>)
        ensures
            r == field_uint(Some(self@)),
    {
        match self {
            FieldValue::Uint(u) => Some(*u),
            _ => None,
        }
    }

    /// The metadata of a metadata value.
    pub fn as_metadata(&self) -> (r: Option<&PeerMetadata>)
        ensures
            match r {
                Some(m) => field_metadata(Some(self@)) == Some(m@),
                None => field_metadata(Some(self@)) is None,
            },
    {
        match self {
            FieldValue::Metadata(m) => Some(m),
            _ => None,
        }
    }

    /// The heads of a `newHeads` value.
    pub fn as_new_heads(&self) -> (r: Option<&Vec<(StorageId, HeadsInfo)>>)
        ensures
            match r {
                Some(h) => field_new_heads(Some(self@)) == Some(heads_list_view(h@)),
                None => field_new_heads(Some(self@)) is None,
            },
    {
        match self {
            FieldValue::NewHeads(h) => Some(h),
            _ => None,
        }
    }
}

fn opt_string(f: &Option<FieldValue>) -> (r: Option<&String>)
    ensures
        match r {
            Some(s) => field_string(opt_field_view(*f)) == Some(s@),
            None => field_string(opt_field_view(*f)) is None,
        },
{
    match f {
        Some(v) => v.as_string(),
        None => None,
    }
}

fn opt_strings(f: &Option<FieldValue>) -> (r: Option<&Vec<String>>)
    ensures
        match r {
            Some(a) => field_strings(opt_field_view(*f)) == Some(a.deep_view()),
            None => field_strings(opt_field_view(*f)) is None,
        },
{
    match f {
        Some(v) => v.as_string_array(),
        None => None,
    }
}

fn opt_bytes(f: &Option<FieldValue>) -> (r: Option<&Vec<u8>>)
    ensures
        match r {
            Some(b) => field_bytes(opt_field_view(*f)) == Some(b@),
            None => field_bytes(opt_field_view(*f)) is None,
        },
{
    match f {
        Some(v) => v.as_bytes(),
        None => None,
    }
}

fn opt_metadata(f: &Option<FieldValue>) -> (r: Option<PeerMetadata>)
    ensures
        opt_meta_view(r) == field_metadata(opt_field_view(*f)),
{
    match f {
        Some(v) => match v.as_metadata() {
            Some(m) => Some(m.duplicate()),
            None => None,
        },
        None => None,
    }
}

fn missing(key: &str) -> (r: DecodeError)
    ensures
        r@ == DecodeErrorView::MissingField(key@),
{
    DecodeError::MissingField(key.to_owned())
}

/// Reads the peer ID in a field, which must be present.
pub fn get_peer_id(field: &Option<FieldValue>, key: &str) -> (r: Result<PeerId, DecodeError>)
    ensures
        match r {
            Ok(p) => spec_get_peer_id(opt_field_view(*field), key@) == Ok::<Seq<char>, DecodeErrorView>(p@),
            Err(e) => spec_get_peer_id(opt_field_view(*field), key@) == Err::<Seq<char>, DecodeErrorView>(e@),
        },
{
    match opt_string(field) {
        Some(s) => Ok(PeerId::from_str(s.as_str())),
        None => Err(missing(key)),
    }
}

/// Reads the document ID in a field, which must be present and valid.
pub fn get_document_id(field: &Option<FieldValue>, key: &str) -> (r: Result<DocumentId, DecodeError>)
    ensures
        match r {
            Ok(d) => spec_get_document_id(opt_field_view(*field), key@) == Ok::<Seq<u8>, DecodeErrorView>(d@),
            Err(e) => spec_get_document_id(opt_field_view(*field), key@) == Err::<Seq<u8>, DecodeErrorView>(e@),
        },
{
    match field {
        None => Err(missing(key)),
        Some(FieldValue::String(s)) => match DocumentId::from_str(s.as_str()) {
            Ok(d) => Ok(d),
            Err(_) => Err(DecodeError::InvalidDocumentId),
        },
        Some(FieldValue::Bytes(b)) => match DocumentId::try_from_bytes(b.clone()) {
            Ok(d) => Ok(d),
            Err(_) => Err(DecodeError::InvalidDocumentId),
        },
        _ => Err(DecodeError::InvalidDocumentId),
    }
}

fn message_from_fields(f: &Vec<Option<FieldValue>>) -> (r: Result<WireMessage, DecodeError>)
    requires
        f@.len() == NUM_SLOTS,
    ensures
        match r {
            Ok(m) => spec_message_from_fields(fields_view(f@)) == Ok::<WireMessageView, DecodeErrorView>(m@),
            Err(e) => spec_message_from_fields(fields_view(f@)) == Err::<WireMessageView, DecodeErrorView>(e@),
        },
{
    proof {
        reveal(spec_message_from_fields);
    }
    let ghost fv = fields_view(f@);
    assert(forall|i: int| 0 <= i < NUM_SLOTS ==> fv[i] == opt_field_view(#[trigger] f@[i]));
    let t = match opt_string(&f[0]) {
        Some(t) => t.as_str(),
        None => {
            return Err(DecodeError::MissingType);
        },
    };
    if str_eq(t, "join") {
        let sender_id = get_peer_id(&f[1], "senderId")?;
        let versions = match opt_strings(&f[7]) {
            Some(v) => v.clone(),
            None => {
                return Err(missing("supportedProtocolVersions"));
            },
        };
        let metadata = opt_metadata(&f[13]);
        proof {
            assert(versions.deep_view() =~= field_strings(fv[7]).unwrap());
        }
        Ok(WireMessage::Join { sender_id, supported_protocol_versions: versions, metadata })
    } else if str_eq(t, "peer") {
        let sender_id = get_peer_id(&f[1], "senderId")?;
        let target_id = get_peer_id(&f[2], "targetId")?;
        let selected = match opt_string(&f[3]) {
            Some(s) => s.clone(),
            None => {
                return Err(missing("selectedProtocolVersion"));
            },
        };
        let metadata = opt_metadata(&f[13]);
        Ok(WireMessage::Peer { sender_id, selected_protocol_version: selected, target_id, metadata })
    } else if str_eq(t, "leave") {
        let sender_id = get_peer_id(&f[1], "senderId")?;
        Ok(WireMessage::Leave { sender_id })
    } else if str_eq(t, "request") {
        let document_id = get_document_id(&f[6], "documentId")?;
        let sender_id = get_peer_id(&f[1], "senderId")?;
        let target_id = get_peer_id(&f[2], "targetId")?;
        let data = match opt_bytes(&f[10]) {
            Some(b) => b.clone(),
            None => {
                return Err(missing("data"));
            },
        };
        Ok(WireMessage::Request { document_id, sender_id, target_id, data })
    } else if str_eq(t, "sync") {
        proof {
            reveal_strlit("sync");
            reveal_strlit("request");
        }
        let document_id = get_document_id(&f[6], "documentId")?;
        let sender_id = get_peer_id(&f[1], "senderId")?;
        let target_id = get_peer_id(&f[2], "targetId")?;
        let data = match opt_bytes(&f[10]) {
            Some(b) => b.clone(),
            None => {
                return Err(missing("data"));
            },
        };
        Ok(WireMessage::Sync { document_id, sender_id, target_id, data })
    } else if str_eq(t, "doc-unavailable") {
        let sender_id = get_peer_id(&f[1], "senderId")?;
        let target_id = get_peer_id(&f[2], "targetId")?;
        let document_id = get_document_id(&f[6], "documentId")?;
        Ok(WireMessage::DocUnavailable { sender_id, target_id, document_id })
    } else if str_eq(t, "ephemeral") {
        let sender_id = get_peer_id(&f[1], "senderId")?;
        let target_id = get_peer_id(&f[2], "targetId")?;
        let count = match &f[11] {
            Some(v) => match v.as_uint() {
                Some(c) => c,
                None => {
                    return Err(missing("count"));
                },
            },
            None => {
                return Err(missing("count"));
            },
        };
        let session_id = match opt_string(&f[5]) {
            Some(s) => s.clone(),
            None => {
                return Err(missing("sessionId"));
            },
        };
        let document_id = get_document_id(&f[6], "documentId")?;
        let data = match opt_bytes(&f[10]) {
            Some(b) => b.clone(),
            None => {
                return Err(missing("data"));
            },
        };
        Ok(WireMessage::Ephemeral { sender_id, target_id, count, session_id, document_id, data })
    } else if str_eq(t, "error") {
        let message = match opt_string(&f[4]) {
            Some(s) => s.clone(),
            None => {
                return Err(missing("message"));
            },
        };
        Ok(WireMessage::Error { message })
    } else if str_eq(t, "remote-subscription-change") {
        let sender_id = get_peer_id(&f[1], "senderId")?;
        let target_id = get_peer_id(&f[2], "targetId")?;
        let add = match opt_strings(&f[8]) {
            Some(a) => Some(strings_to_storage_ids(a)),
            None => None,
        };
        let remove = match opt_strings(&f[9]) {
            Some(a) => strings_to_storage_ids(a),
            None => {
                return Err(missing("remove"));
            },
        };
        Ok(WireMessage::RemoteSubscriptionChange { sender_id, target_id, add, remove })
    } else if str_eq(t, "remote-heads-changed") {
        let sender_id = get_peer_id(&f[1], "senderId")?;
        let target_id = get_peer_id(&f[2], "targetId")?;
        let document_id = get_document_id(&f[6], "documentId")?;
        let new_heads = match &f[14] {
            Some(v) => match v.as_new_heads() {
                Some(h) => copy_heads_list(h),
                None => {
                    return Err(missing("newHeads"));
                },
            },
            None => {
                return Err(missing("newHeads"));
            },
        };
        Ok(WireMessage::RemoteHeadsChanged { sender_id, target_id, document_id, new_heads })
    } else {
        Err(DecodeError::UnknownType(t.to_owned()))
    }
}

fn strings_to_storage_ids(a: &Vec<String>) -> (r: Vec<StorageId>)
    ensures
        storage_ids_view(r@) == a.deep_view(),
{
    let mut out: Vec<StorageId> = Vec::new();
    let mut i: usize = 0;
    while i < a.len()
        invariant
            i <= a@.len(),
            out@.len() == i,
            forall|j: int| 0 <= j < i ==> #[trigger] out@[j]@ == a@[j]@,
        decreases a@.len() - i,
    {
        out.push(StorageId::from_str(a[i].as_str()));
        i = i + 1;
    }
    proof {
        assert(storage_ids_view(out@) =~= a.deep_view());
    }
    out
}

impl WireMessage {
    /// Reads a message from its CBOR encoding.
    pub fn decode(data: &[u8]) -> (r: Result<WireMessage, DecodeError>)
        ensures
            match r {
                Ok(m) => spec_decode(data@) == Ok::<WireMessageView, DecodeErrorView>(m@),
                Err(e) => spec_decode(data@) == Err::<WireMessageView, DecodeErrorView>(e@),
            },
    {
        proof {
            reveal(spec_decode);
        }
        let (len, p) = match read_map(data, 0) {
            Err(e) => {
                return Err(DecodeError::Minicbor(e));
            },
            Ok((None, _)) => {
                return Err(DecodeError::MissingLen);
            },
            Ok((Some(n), p)) => (n, p),
        };
        let (fields, _) = decode_entries(data, p, len)?;
        message_from_fields(&fields)
    }
}

} // verus!
