//! Reading a message back from its encoding gives the message.

use vstd::prelude::*;
use vstd::utf8::encode_utf8;

use crate::cbor::{
    spec_read_map,
    array_head, bool_item, bytes_item, lemma_read_array, lemma_read_bool, lemma_read_bytes,
    lemma_read_map, lemma_read_str, lemma_read_u64, map_head, text_item, uint_item,
};
use crate::ids::{
    lemma_document_id_text_roundtrip, document_id_text, spec_parse_document_id, BadDocumentId,
    DOCUMENT_ID_LEN,
};
use crate::wire_decode::{
    assoc_insert, empty_fields, key_index, key_slot, spec_decode, spec_decode_entries,
    spec_decode_metadata, spec_decode_new_heads, spec_decode_value, spec_heads_entries,
    spec_message_from_fields, spec_meta_entries, spec_new_heads_entries, spec_read_str_array,
    spec_read_strs, DecodeErrorView, FieldValueView,
};
use crate::wire_protocol::{
    ephemeral_enc, error_enc, heads_changed_enc, heads_info_enc, join_enc, kv, leave_enc, meta_enc,
    new_heads_enc, new_heads_entries_enc, opt_add_enc, opt_meta_enc, peer_enc, spec_encode,
    str_array_enc, strs_enc, subscription_enc, sync_like_enc, unavailable_enc, HeadsInfoView,
    PeerMetadataView, WireMessageView,
};

verus! {

/// A length that fits in memory.
pub open spec fn fits(n: nat) -> bool {
    n <= usize::MAX
}

/// A string whose UTF-8 encoding fits in memory.
pub open spec fn text_ok(s: Seq<char>) -> bool {
    fits(encode_utf8(s).len())
}

/// A list of strings that fits in memory.
pub open spec fn strs_ok(xs: Seq<Seq<char>>) -> bool {
    &&& fits(xs.len())
    &&& forall|i: int| 0 <= i < xs.len() ==> text_ok(#[trigger] xs[i])
}

/// Metadata whose strings fit in memory.
pub open spec fn meta_ok(m: PeerMetadataView) -> bool {
    match m.storage_id {
        Some(s) => text_ok(s),
        None => true,
    }
}

/// Optional metadata whose strings fit in memory.
pub open spec fn opt_meta_ok(m: Option<PeerMetadataView>) -> bool {
    match m {
        Some(x) => meta_ok(x),
        None => true,
    }
}

/// Heads per storage ID that fit in memory, one entry per storage ID (as in
/// a map).
pub open spec fn new_heads_ok(xs: Seq<(Seq<char>, HeadsInfoView)>) -> bool {
    &&& fits(xs.len())
    &&& forall|i: int| 0 <= i < xs.len() ==> text_ok(#[trigger] xs[i].0) && strs_ok(xs[i].1.heads)
    &&& forall|i: int, j: int| 0 <= i < j < xs.len() ==> #[trigger] xs[i].0 != #[trigger] xs[j].0
}

/// A message whose parts fit in memory, whose document IDs have sixteen
/// bytes, and whose heads have one entry per storage ID.
pub open spec fn wire_message_wf(m: WireMessageView) -> bool {
    match m {
        WireMessageView::Join { sender_id, supported_protocol_versions, metadata } =>
            text_ok(sender_id) && strs_ok(supported_protocol_versions) && opt_meta_ok(metadata),
        WireMessageView::Peer { sender_id, selected_protocol_version, target_id, metadata } =>
            text_ok(sender_id) && text_ok(selected_protocol_version) && text_ok(target_id) && opt_meta_ok(metadata),
        WireMessageView::Leave { sender_id } => text_ok(sender_id),
        WireMessageView::Request { document_id, sender_id, target_id, data } =>
            document_id.len() == DOCUMENT_ID_LEN && text_ok(sender_id) && text_ok(target_id) && fits(data.len()),
        WireMessageView::Sync { document_id, sender_id, target_id, data } =>
            document_id.len() == DOCUMENT_ID_LEN && text_ok(sender_id) && text_ok(target_id) && fits(data.len()),
        WireMessageView::DocUnavailable { sender_id, target_id, document_id } =>
            document_id.len() == DOCUMENT_ID_LEN && text_ok(sender_id) && text_ok(target_id),
        WireMessageView::Ephemeral { sender_id, target_id, count, session_id, document_id, data } =>
            document_id.len() == DOCUMENT_ID_LEN && text_ok(sender_id) && text_ok(target_id) && text_ok(session_id)
                && fits(data.len()),
        WireMessageView::Error { message } => text_ok(message),
        WireMessageView::RemoteSubscriptionChange { sender_id, target_id, add, remove } =>
            text_ok(sender_id) && text_ok(target_id) && strs_ok(remove) && match add {
                Some(a) => strs_ok(a),
                None => true,
            },
        WireMessageView::RemoteHeadsChanged { sender_id, target_id, document_id, new_heads } =>
            document_id.len() == DOCUMENT_ID_LEN && text_ok(sender_id) && text_ok(target_id) && new_heads_ok(new_heads),
    }
}

proof fn lemma_key_slots()
    ensures
        key_slot("type"@) == Some(0nat),
        key_slot("senderId"@) == Some(1nat),
        key_slot("targetId"@) == Some(2nat),
        key_slot("selectedProtocolVersion"@) == Some(3nat),
        key_slot("message"@) == Some(4nat),
        key_slot("sessionId"@) == Some(5nat),
        key_slot("documentId"@) == Some(6nat),
        key_slot("supportedProtocolVersions"@) == Some(7nat),
        key_slot("add"@) == Some(8nat),
        key_slot("remove"@) == Some(9nat),
        key_slot("data"@) == Some(10nat),
        key_slot("count"@) == Some(11nat),
        key_slot("timestamp"@) == Some(12nat),
        key_slot("metadata"@) == Some(13nat),
        key_slot("newHeads"@) == Some(14nat),
        text_ok("type"@),
        text_ok("senderId"@),
        text_ok("targetId"@),
        text_ok("selectedProtocolVersion"@),
        text_ok("message"@),
        text_ok("sessionId"@),
        text_ok("documentId"@),
        text_ok("supportedProtocolVersions"@),
        text_ok("add"@),
        text_ok("remove"@),
        text_ok("data"@),
        text_ok("count"@),
        text_ok("timestamp"@),
        text_ok("metadata"@),
        text_ok("newHeads"@),
{
    reveal_strlit("type");
    reveal_strlit("senderId");
    reveal_strlit("targetId");
    reveal_strlit("selectedProtocolVersion");
    reveal_strlit("message");
    reveal_strlit("sessionId");
    reveal_strlit("documentId");
    reveal_strlit("supportedProtocolVersions");
    reveal_strlit("add");
    reveal_strlit("remove");
    reveal_strlit("data");
    reveal_strlit("count");
    reveal_strlit("timestamp");
    reveal_strlit("metadata");
    reveal_strlit("newHeads");
    lemma_ascii_text_ok("type"@);
    lemma_ascii_text_ok("senderId"@);
    lemma_ascii_text_ok("targetId"@);
    lemma_ascii_text_ok("selectedProtocolVersion"@);
    lemma_ascii_text_ok("message"@);
    lemma_ascii_text_ok("sessionId"@);
    lemma_ascii_text_ok("documentId"@);
    lemma_ascii_text_ok("supportedProtocolVersions"@);
    lemma_ascii_text_ok("add"@);
    lemma_ascii_text_ok("remove"@);
    lemma_ascii_text_ok("data"@);
    lemma_ascii_text_ok("count"@);
    lemma_ascii_text_ok("timestamp"@);
    lemma_ascii_text_ok("metadata"@);
    lemma_ascii_text_ok("newHeads"@);
}

/// A short string's encoding fits in memory: a character takes at most four
/// bytes.
proof fn lemma_ascii_text_ok(s: Seq<char>)
    requires
        s.len() < 64,
    ensures
        text_ok(s),
{
    lemma_utf8_len_bound(s);
}

proof fn lemma_utf8_len_bound(s: Seq<char>)
    ensures
        encode_utf8(s).len() <= 4 * s.len(),
    decreases s.len(),
{
    if s.len() > 0 {
        lemma_utf8_len_bound(s.drop_first());
        assert(vstd::utf8::encode_scalar(s[0] as u32).len() <= 4);
    }
}

proof fn lemma_strs_rt(data: Seq<u8>, p: nat, xs: Seq<Seq<char>>, acc: Seq<Seq<char>>, rest: Seq<u8>)
    requires
        p <= data.len(),
        data.skip(p as int) == strs_enc(xs) + rest,
        forall|i: int| 0 <= i < xs.len() ==> text_ok(#[trigger] xs[i]),
    ensures
        spec_read_strs(data, p, xs.len(), acc) == Ok::<(Seq<Seq<char>>, nat), DecodeErrorView>(
            (acc + xs, p + strs_enc(xs).len())),
        data.skip((p + strs_enc(xs).len()) as int) == rest,
        p + strs_enc(xs).len() <= data.len(),
    decreases xs.len(),
{
    if xs.len() == 0 {
        assert(acc + xs =~= acc);
        assert(strs_enc(xs) + rest =~= rest);
    } else {
        let t = text_item(xs[0]);
        let tail = strs_enc(xs.skip(1));
        assert(strs_enc(xs) + rest =~= t + (tail + rest));
        assert(text_ok(xs[0]));
        lemma_read_str(data, p, xs[0], tail + rest);
        let p1 = p + t.len();
        assert forall|i: int| 0 <= i < xs.skip(1).len() implies text_ok(#[trigger] xs.skip(1)[i]) by {
            assert(xs.skip(1)[i] == xs[i + 1]);
        }
        lemma_strs_rt(data, p1, xs.skip(1), acc.push(xs[0]), rest);
        assert(acc.push(xs[0]) + xs.skip(1) =~= acc + xs);
    }
}

proof fn lemma_str_array_rt(data: Seq<u8>, p: nat, xs: Seq<Seq<char>>, acc: Seq<Seq<char>>, rest: Seq<u8>)
    requires
        p <= data.len(),
        data.skip(p as int) == str_array_enc(xs) + rest,
        strs_ok(xs),
    ensures
        spec_read_str_array(data, p, acc) == Ok::<(Seq<Seq<char>>, nat), DecodeErrorView>(
            (acc + xs, p + str_array_enc(xs).len())),
        data.skip((p + str_array_enc(xs).len()) as int) == rest,
        p + str_array_enc(xs).len() <= data.len(),
{
    let h = array_head(xs.len());
    assert(str_array_enc(xs) + rest =~= h + (strs_enc(xs) + rest));
    lemma_read_array(data, p, xs.len(), strs_enc(xs) + rest);
    lemma_strs_rt(data, p + h.len(), xs, acc, rest);
}

proof fn lemma_meta_keys()
    ensures
        "storageId"@ != "isEphemeral"@,
        text_ok("storageId"@),
        text_ok("isEphemeral"@),
        "heads"@ != "timestamp"@,
        text_ok("heads"@),
        text_ok("timestamp"@),
{
    reveal_strlit("storageId");
    reveal_strlit("isEphemeral");
    reveal_strlit("heads");
    reveal_strlit("timestamp");
    lemma_ascii_text_ok("storageId"@);
    lemma_ascii_text_ok("isEphemeral"@);
    lemma_ascii_text_ok("heads"@);
    lemma_ascii_text_ok("timestamp"@);
}

proof fn lemma_meta_rt(data: Seq<u8>, p: nat, m: PeerMetadataView, rest: Seq<u8>)
    requires
        p <= data.len(),
        data.skip(p as int) == meta_enc(m) + rest,
        meta_ok(m),
    ensures
        spec_decode_metadata(data, p) == Ok::<(PeerMetadataView, nat), DecodeErrorView>((m, p + meta_enc(m).len())),
        data.skip((p + meta_enc(m).len()) as int) == rest,
        p + meta_enc(m).len() <= data.len(),
{
    lemma_meta_keys();
    let eph = kv("isEphemeral"@, bool_item(m.is_ephemeral));
    match m.storage_id {
        Some(sid) => {
            let h = map_head(2);
            let st = kv("storageId"@, text_item(sid));
            assert(meta_enc(m) + rest =~= h + (text_item("storageId"@) + (text_item(sid) + (
            text_item("isEphemeral"@) + (bool_item(m.is_ephemeral) + rest)))));
            lemma_read_map(data, p, 2, text_item("storageId"@) + (text_item(sid) + (text_item(
                "isEphemeral"@) + (bool_item(m.is_ephemeral) + rest))));
            let p1 = p + h.len();
            lemma_read_str(data, p1, "storageId"@, text_item(sid) + (text_item("isEphemeral"@) + (
            bool_item(m.is_ephemeral) + rest)));
            let p2 = p1 + text_item("storageId"@).len();
            lemma_read_str(data, p2, sid, text_item("isEphemeral"@) + (bool_item(m.is_ephemeral)
                + rest));
            let p3 = p2 + text_item(sid).len();
            lemma_read_str(data, p3, "isEphemeral"@, bool_item(m.is_ephemeral) + rest);
            let p4 = p3 + text_item("isEphemeral"@).len();
            lemma_read_bool(data, p4, m.is_ephemeral, rest);
            let p5 = p4 + 1;
            assert(spec_meta_entries(data, p5, 0, Some(sid), m.is_ephemeral) == Ok::<
                (PeerMetadataView, nat),
                DecodeErrorView,
            >((m, p5)));
            assert(spec_meta_entries(data, p3, 1, Some(sid), false) == spec_meta_entries(
                data,
                p5,
                0,
                Some(sid),
                m.is_ephemeral,
            ));
            assert(spec_meta_entries(data, p1, 2, None, false) == spec_meta_entries(
                data,
                p3,
                1,
                Some(sid),
                false,
            ));
            assert(meta_enc(m).len() == p5 - p);
        },
        None => {
            let h = map_head(1);
            assert(meta_enc(m) + rest =~= h + (text_item("isEphemeral"@) + (bool_item(m.is_ephemeral)
                + rest)));
            lemma_read_map(data, p, 1, text_item("isEphemeral"@) + (bool_item(m.is_ephemeral) + rest));
            let p1 = p + h.len();
            lemma_read_str(data, p1, "isEphemeral"@, bool_item(m.is_ephemeral) + rest);
            let p2 = p1 + text_item("isEphemeral"@).len();
            lemma_read_bool(data, p2, m.is_ephemeral, rest);
            let p3 = p2 + 1;
            assert(spec_meta_entries(data, p3, 0, None, m.is_ephemeral) == Ok::<
                (PeerMetadataView, nat),
                DecodeErrorView,
            >((m, p3)));
            assert(spec_meta_entries(data, p1, 1, None, false) == spec_meta_entries(
                data,
                p3,
                0,
                None,
                m.is_ephemeral,
            ));
            assert(meta_enc(m).len() == p3 - p);
        },
    }
}

proof fn lemma_heads_info_rt(data: Seq<u8>, p: nat, h: HeadsInfoView, rest: Seq<u8>)
    requires
        p <= data.len(),
        data.skip(p as int) == (kv("heads"@, str_array_enc(h.heads)) + kv("timestamp"@, uint_item(h.timestamp as nat))) + rest,
        strs_ok(h.heads),
    ensures
        spec_heads_entries(data, p, 2, Seq::empty(), 0) == Ok::<(HeadsInfoView, nat), DecodeErrorView>(
            (h, p + (kv("heads"@, str_array_enc(h.heads)) + kv("timestamp"@, uint_item(h.timestamp as nat))).len())),
        data.skip((p + (kv("heads"@, str_array_enc(h.heads)) + kv("timestamp"@, uint_item(h.timestamp as nat))).len()) as int) == rest,
        p + (kv("heads"@, str_array_enc(h.heads)) + kv("timestamp"@, uint_item(h.timestamp as nat))).len() <= data.len(),
{
    lemma_meta_keys();
    let ts = uint_item(h.timestamp as nat);
    let arr = str_array_enc(h.heads);
    assert((kv("heads"@, arr) + kv("timestamp"@, ts)) + rest =~= text_item("heads"@) + (arr + (text_item("timestamp"@) + (ts + rest))));
    lemma_read_str(data, p, "heads"@, arr + (text_item("timestamp"@) + (ts + rest)));
    let p1 = p + text_item("heads"@).len();
    lemma_str_array_rt(data, p1, h.heads, Seq::empty(), text_item("timestamp"@) + (ts + rest));
    assert(Seq::<Seq<char>>::empty() + h.heads =~= h.heads);
    let p2 = p1 + arr.len();
    lemma_read_str(data, p2, "timestamp"@, ts + rest);
    let p3 = p2 + text_item("timestamp"@).len();
    lemma_read_u64(data, p3, h.timestamp, rest);
    let p4 = p3 + ts.len();
    assert(spec_heads_entries(data, p4, 0, h.heads, h.timestamp) == Ok::<(HeadsInfoView, nat), DecodeErrorView>((h, p4)));
    assert(spec_heads_entries(data, p2, 1, h.heads, 0) == spec_heads_entries(data, p4, 0, h.heads, h.timestamp));
    assert(spec_heads_entries(data, p, 2, Seq::empty(), 0) == spec_heads_entries(data, p2, 1, h.heads, 0));
}

proof fn lemma_key_index_none<V>(acc: Seq<(Seq<char>, V)>, k: Seq<char>, i: nat)
    requires
        forall|j: int| i <= j < acc.len() ==> #[trigger] acc[j].0 != k,
    ensures
        key_index(acc, k, i) is None,
    decreases acc.len() - i,
{
    if i < acc.len() {
        lemma_key_index_none(acc, k, i + 1);
    }
}

proof fn lemma_new_heads_entries_rt(
    data: Seq<u8>,
    p: nat,
    xs: Seq<(Seq<char>, HeadsInfoView)>,
    acc: Seq<(Seq<char>, HeadsInfoView)>,
    rest: Seq<u8>,
)
    requires
        p <= data.len(),
        data.skip(p as int) == new_heads_entries_enc(xs) + rest,
        forall|i: int| 0 <= i < xs.len() ==> text_ok(#[trigger] xs[i].0) && strs_ok(xs[i].1.heads),
        forall|i: int, j: int| 0 <= i < j < xs.len() ==> #[trigger] xs[i].0 != #[trigger] xs[j].0,
        forall|i: int, j: int| 0 <= i < acc.len() && 0 <= j < xs.len() ==> #[trigger] acc[i].0 != #[trigger] xs[j].0,
    ensures
        spec_new_heads_entries(data, p, xs.len(), acc) == Ok::<(Seq<(Seq<char>, HeadsInfoView)>, nat), DecodeErrorView>(
            (acc + xs, p + new_heads_entries_enc(xs).len())),
        data.skip((p + new_heads_entries_enc(xs).len()) as int) == rest,
        p + new_heads_entries_enc(xs).len() <= data.len(),
    decreases xs.len(),
{
    if xs.len() == 0 {
        assert(acc + xs =~= acc);
        assert(new_heads_entries_enc(xs) + rest =~= rest);
    } else {
        let x = xs[0];
        let tail = new_heads_entries_enc(xs.skip(1));
        let body = kv("heads"@, str_array_enc(x.1.heads)) + kv("timestamp"@, uint_item(x.1.timestamp as nat));
        assert(new_heads_entries_enc(xs) + rest =~= text_item(x.0) + (map_head(2) + (body + (tail + rest))));
        lemma_read_str(data, p, x.0, map_head(2) + (body + (tail + rest)));
        let p1 = p + text_item(x.0).len();
        lemma_read_map(data, p1, 2, body + (tail + rest));
        let p2 = p1 + map_head(2).len();
        lemma_heads_info_rt(data, p2, x.1, tail + rest);
        let p3 = p2 + body.len();
        lemma_key_index_none(acc, x.0, 0);
        assert(assoc_insert(acc, x.0, x.1) == acc.push(x));
        assert(spec_new_heads_entries(data, p, xs.len(), acc) == spec_new_heads_entries(data, p3, (xs.len() - 1) as nat, acc.push(x)));
        assert forall|i: int, j: int| 0 <= i < acc.push(x).len() && 0 <= j < xs.skip(1).len() implies #[trigger] acc.push(x)[i].0 != #[trigger] xs.skip(1)[j].0 by {
            assert(xs.skip(1)[j] == xs[j + 1]);
            if i < acc.len() {
                assert(acc[i].0 != xs[j + 1].0);
            } else {
                assert(xs[0].0 != xs[j + 1].0);
            }
        }
        assert forall|i: int, j: int| 0 <= i < j < xs.skip(1).len() implies #[trigger] xs.skip(1)[i].0 != #[trigger] xs.skip(1)[j].0 by {
            assert(xs.skip(1)[i] == xs[i + 1]);
            assert(xs.skip(1)[j] == xs[j + 1]);
        }
        assert forall|i: int| 0 <= i < xs.skip(1).len() implies text_ok(#[trigger] xs.skip(1)[i].0) && strs_ok(xs.skip(1)[i].1.heads) by {
            assert(xs.skip(1)[i] == xs[i + 1]);
        }
        lemma_new_heads_entries_rt(data, p3, xs.skip(1), acc.push(x), rest);
        assert(acc.push(x) + xs.skip(1) =~= acc + xs);
        assert(new_heads_entries_enc(xs).len() == text_item(x.0).len() + map_head(2).len() + body.len() + tail.len());
    }
}

proof fn lemma_new_heads_rt(data: Seq<u8>, p: nat, xs: Seq<(Seq<char>, HeadsInfoView)>, rest: Seq<u8>)
    requires
        p <= data.len(),
        data.skip(p as int) == new_heads_enc(xs) + rest,
        new_heads_ok(xs),
    ensures
        spec_decode_new_heads(data, p) == Ok::<(Seq<(Seq<char>, HeadsInfoView)>, nat), DecodeErrorView>(
            (xs, p + new_heads_enc(xs).len())),
        data.skip((p + new_heads_enc(xs).len()) as int) == rest,
        p + new_heads_enc(xs).len() <= data.len(),
{
    let h = map_head(xs.len());
    assert(new_heads_enc(xs) + rest =~= h + (new_heads_entries_enc(xs) + rest));
    lemma_read_map(data, p, xs.len(), new_heads_entries_enc(xs) + rest);
    lemma_new_heads_entries_rt(data, p + h.len(), xs, Seq::empty(), rest);
    assert(Seq::<(Seq<char>, HeadsInfoView)>::empty() + xs =~= xs);
}

proof fn lemma_entry_text(data: Seq<u8>, p: nat, k: Seq<char>, v: Seq<char>, slot: nat, n: nat, f: Seq<Option<FieldValueView>>, rest: Seq<u8>)
    requires
        p <= data.len(),
        data.skip(p as int) == kv(k, text_item(v)) + rest,
        text_ok(k),
        text_ok(v),
        key_slot(k) == Some(slot),
        slot <= 6,
    ensures
        spec_decode_entries(data, p, n + 1, f) == spec_decode_entries(data, p + kv(k, text_item(v)).len(), n, f.update(slot as int, Some(FieldValueView::String(v)))),
        data.skip((p + kv(k, text_item(v)).len()) as int) == rest,
        p + kv(k, text_item(v)).len() <= data.len(),
{
    reveal(spec_decode_entries);
    assert(kv(k, text_item(v)) + rest =~= text_item(k) + (text_item(v) + rest));
    lemma_read_str(data, p, k, text_item(v) + rest);
    let p1 = p + text_item(k).len();
    lemma_read_str(data, p1, v, rest);
    assert(spec_decode_value(data, p1, slot) == Ok::<(FieldValueView, nat), DecodeErrorView>((FieldValueView::String(v), p1 + text_item(v).len())));
}

proof fn lemma_entry_strs(data: Seq<u8>, p: nat, k: Seq<char>, v: Seq<Seq<char>>, slot: nat, n: nat, f: Seq<Option<FieldValueView>>, rest: Seq<u8>)
    requires
        p <= data.len(),
        data.skip(p as int) == kv(k, str_array_enc(v)) + rest,
        text_ok(k),
        strs_ok(v),
        key_slot(k) == Some(slot),
        7 <= slot <= 9,
    ensures
        spec_decode_entries(data, p, n + 1, f) == spec_decode_entries(data, p + kv(k, str_array_enc(v)).len(), n, f.update(slot as int, Some(FieldValueView::StringArray(v)))),
        data.skip((p + kv(k, str_array_enc(v)).len()) as int) == rest,
        p + kv(k, str_array_enc(v)).len() <= data.len(),
{
    reveal(spec_decode_entries);
    assert(kv(k, str_array_enc(v)) + rest =~= text_item(k) + (str_array_enc(v) + rest));
    lemma_read_str(data, p, k, str_array_enc(v) + rest);
    let p1 = p + text_item(k).len();
    lemma_str_array_rt(data, p1, v, Seq::empty(), rest);
    assert(Seq::<Seq<char>>::empty() + v =~= v);
    assert(spec_decode_value(data, p1, slot) == Ok::<(FieldValueView, nat), DecodeErrorView>((FieldValueView::StringArray(v), p1 + str_array_enc(v).len())));
}

proof fn lemma_entry_bytes(data: Seq<u8>, p: nat, k: Seq<char>, v: Seq<u8>, n: nat, f: Seq<Option<FieldValueView>>, rest: Seq<u8>)
    requires
        p <= data.len(),
        data.skip(p as int) == kv(k, bytes_item(v)) + rest,
        text_ok(k),
        fits(v.len()),
        key_slot(k) == Some(10nat),
    ensures
        spec_decode_entries(data, p, n + 1, f) == spec_decode_entries(data, p + kv(k, bytes_item(v)).len(), n, f.update(10, Some(FieldValueView::Bytes(v)))),
        data.skip((p + kv(k, bytes_item(v)).len()) as int) == rest,
        p + kv(k, bytes_item(v)).len() <= data.len(),
{
    reveal(spec_decode_entries);
    assert(kv(k, bytes_item(v)) + rest =~= text_item(k) + (bytes_item(v) + rest));
    lemma_read_str(data, p, k, bytes_item(v) + rest);
    let p1 = p + text_item(k).len();
    lemma_read_bytes(data, p1, v, rest);
    assert(spec_decode_value(data, p1, 10) == Ok::<(FieldValueView, nat), DecodeErrorView>((FieldValueView::Bytes(v), p1 + bytes_item(v).len())));
}

proof fn lemma_entry_u64(data: Seq<u8>, p: nat, k: Seq<char>, v: u64, slot: nat, n: nat, f: Seq<Option<FieldValueView>>, rest: Seq<u8>)
    requires
        p <= data.len(),
        data.skip(p as int) == kv(k, uint_item(v as nat)) + rest,
        text_ok(k),
        key_slot(k) == Some(slot),
        11 <= slot <= 12,
    ensures
        spec_decode_entries(data, p, n + 1, f) == spec_decode_entries(data, p + kv(k, uint_item(v as nat)).len(), n, f.update(slot as int, Some(FieldValueView::Uint(v)))),
        data.skip((p + kv(k, uint_item(v as nat)).len()) as int) == rest,
        p + kv(k, uint_item(v as nat)).len() <= data.len(),
{
    reveal(spec_decode_entries);
    assert(kv(k, uint_item(v as nat)) + rest =~= text_item(k) + (uint_item(v as nat) + rest));
    lemma_read_str(data, p, k, uint_item(v as nat) + rest);
    let p1 = p + text_item(k).len();
    lemma_read_u64(data, p1, v, rest);
    assert(spec_decode_value(data, p1, slot) == Ok::<(FieldValueView, nat), DecodeErrorView>((FieldValueView::Uint(v), p1 + uint_item(v as nat).len())));
}

proof fn lemma_entry_meta(data: Seq<u8>, p: nat, k: Seq<char>, v: PeerMetadataView, n: nat, f: Seq<Option<FieldValueView>>, rest: Seq<u8>)
    requires
        p <= data.len(),
        data.skip(p as int) == kv(k, meta_enc(v)) + rest,
        text_ok(k),
        meta_ok(v),
        key_slot(k) == Some(13nat),
    ensures
        spec_decode_entries(data, p, n + 1, f) == spec_decode_entries(data, p + kv(k, meta_enc(v)).len(), n, f.update(13, Some(FieldValueView::Metadata(v)))),
        data.skip((p + kv(k, meta_enc(v)).len()) as int) == rest,
        p + kv(k, meta_enc(v)).len() <= data.len(),
{
    reveal(spec_decode_entries);
    assert(kv(k, meta_enc(v)) + rest =~= text_item(k) + (meta_enc(v) + rest));
    lemma_read_str(data, p, k, meta_enc(v) + rest);
    let p1 = p + text_item(k).len();
    lemma_meta_rt(data, p1, v, rest);
    assert(spec_decode_value(data, p1, 13) == Ok::<(FieldValueView, nat), DecodeErrorView>((FieldValueView::Metadata(v), p1 + meta_enc(v).len())));
}

#[verifier::rlimit(50)]
proof fn lemma_entry_new_heads(data: Seq<u8>, p: nat, k: Seq<char>, v: Seq<(Seq<char>, HeadsInfoView)>, n: nat, f: Seq<Option<FieldValueView>>, rest: Seq<u8>)
    requires
        p <= data.len(),
        data.skip(p as int) == kv(k, new_heads_enc(v)) + rest,
        text_ok(k),
        new_heads_ok(v),
        key_slot(k) == Some(14nat),
    ensures
        spec_decode_entries(data, p, n + 1, f) == spec_decode_entries(data, p + kv(k, new_heads_enc(v)).len(), n, f.update(14, Some(FieldValueView::NewHeads(v)))),
        data.skip((p + kv(k, new_heads_enc(v)).len()) as int) == rest,
        p + kv(k, new_heads_enc(v)).len() <= data.len(),
{
    reveal(spec_decode_entries);
    assert(kv(k, new_heads_enc(v)) + rest =~= text_item(k) + (new_heads_enc(v) + rest));
    lemma_read_str(data, p, k, new_heads_enc(v) + rest);
    let p1 = p + text_item(k).len();
    let q = (p1 + new_heads_enc(v).len()) as nat;
    assert(spec_decode_new_heads(data, p1) == Ok::<(Seq<(Seq<char>, HeadsInfoView)>, nat), DecodeErrorView>((v, q))
        && data.skip(q as int) == rest && q <= data.len()) by {
        lemma_new_heads_rt(data, p1, v, rest);
    }
    assert(spec_decode_value(data, p1, 14) == Ok::<(FieldValueView, nat), DecodeErrorView>((FieldValueView::NewHeads(v), q)));
}

proof fn lemma_type_names_ok()
    ensures
        text_ok("join"@),
        text_ok("peer"@),
        text_ok("leave"@),
        text_ok("request"@),
        text_ok("sync"@),
        text_ok("doc-unavailable"@),
        text_ok("ephemeral"@),
        text_ok("error"@),
        text_ok("remote-subscription-change"@),
        text_ok("remote-heads-changed"@),
{
    lemma_type_names();
}

proof fn lemma_type_names()
    ensures
        text_ok("join"@),
        text_ok("peer"@),
        text_ok("leave"@),
        text_ok("request"@),
        text_ok("sync"@),
        text_ok("doc-unavailable"@),
        text_ok("ephemeral"@),
        text_ok("error"@),
        text_ok("remote-subscription-change"@),
        text_ok("remote-heads-changed"@),
        "peer"@ != "join"@,
        "leave"@ != "join"@,
        "leave"@ != "peer"@,
        "request"@ != "join"@,
        "request"@ != "peer"@,
        "request"@ != "leave"@,
        "sync"@ != "join"@,
        "sync"@ != "peer"@,
        "sync"@ != "leave"@,
        "sync"@ != "request"@,
        "doc-unavailable"@ != "join"@,
        "doc-unavailable"@ != "peer"@,
        "doc-unavailable"@ != "leave"@,
        "doc-unavailable"@ != "request"@,
        "doc-unavailable"@ != "sync"@,
        "ephemeral"@ != "join"@,
        "ephemeral"@ != "peer"@,
        "ephemeral"@ != "leave"@,
        "ephemeral"@ != "request"@,
        "ephemeral"@ != "sync"@,
        "ephemeral"@ != "doc-unavailable"@,
        "error"@ != "join"@,
        "error"@ != "peer"@,
        "error"@ != "leave"@,
        "error"@ != "request"@,
        "error"@ != "sync"@,
        "error"@ != "doc-unavailable"@,
        "error"@ != "ephemeral"@,
        "remote-subscription-change"@ != "join"@,
        "remote-subscription-change"@ != "peer"@,
        "remote-subscription-change"@ != "leave"@,
        "remote-subscription-change"@ != "request"@,
        "remote-subscription-change"@ != "sync"@,
        "remote-subscription-change"@ != "doc-unavailable"@,
        "remote-subscription-change"@ != "ephemeral"@,
        "remote-subscription-change"@ != "error"@,
        "remote-heads-changed"@ != "join"@,
        "remote-heads-changed"@ != "peer"@,
        "remote-heads-changed"@ != "leave"@,
        "remote-heads-changed"@ != "request"@,
        "remote-heads-changed"@ != "sync"@,
        "remote-heads-changed"@ != "doc-unavailable"@,
        "remote-heads-changed"@ != "ephemeral"@,
        "remote-heads-changed"@ != "error"@,
        "remote-heads-changed"@ != "remote-subscription-change"@,
{
    reveal_strlit("join");
    reveal_strlit("peer");
    reveal_strlit("leave");
    reveal_strlit("request");
    reveal_strlit("sync");
    reveal_strlit("doc-unavailable");
    reveal_strlit("ephemeral");
    reveal_strlit("error");
    reveal_strlit("remote-subscription-change");
    reveal_strlit("remote-heads-changed");
    lemma_ascii_text_ok("join"@);
    lemma_ascii_text_ok("peer"@);
    lemma_ascii_text_ok("leave"@);
    lemma_ascii_text_ok("request"@);
    lemma_ascii_text_ok("sync"@);
    lemma_ascii_text_ok("doc-unavailable"@);
    lemma_ascii_text_ok("ephemeral"@);
    lemma_ascii_text_ok("error"@);
    lemma_ascii_text_ok("remote-subscription-change"@);
    lemma_ascii_text_ok("remote-heads-changed"@);
    assert("peer"@[0] != "join"@[0]);
    assert("remote-heads-changed"@[7] != "remote-subscription-change"@[7]);
}


/// A document ID's text is short, and reads back as the ID.
proof fn lemma_doc_text(d: Seq<u8>)
    requires
        d.len() == DOCUMENT_ID_LEN,
    ensures
        text_ok(document_id_text(d)),
        spec_parse_document_id(document_id_text(d)) == Ok::<Seq<u8>, BadDocumentId>(d),
{
    lemma_document_id_text_roundtrip(d);
    lemma_ascii_text_ok(document_id_text(d));
}

proof fn lemma_skip_zero(s: Seq<u8>)
    ensures
        s.skip(0) == s,
{
    assert(s.skip(0) =~= s);
}

proof fn lemma_append_empty(s: Seq<u8>)
    ensures
        s + Seq::<u8>::empty() == s,
{
    assert(s + Seq::<u8>::empty() =~= s);
}

/// Reading a map head, its entries, then the message the fields make.
proof fn lemma_decode_parts(buf: Seq<u8>, c: nat, p1: nat, f: Seq<Option<FieldValueView>>, q: nat, m: WireMessageView)
    requires
        spec_read_map(buf, 0) == Ok::<(Option<nat>, nat), Seq<char>>((Some(c), p1)),
        spec_decode_entries(buf, p1, c, empty_fields()) == spec_decode_entries(buf, q, 0, f),
        spec_message_from_fields(f) == Ok::<WireMessageView, DecodeErrorView>(m),
    ensures
        spec_decode(buf) == Ok::<WireMessageView, DecodeErrorView>(m),
{
    reveal(spec_decode);
    lemma_entries_done(buf, q, f);
}

proof fn lemma_entries_done(buf: Seq<u8>, q: nat, f: Seq<Option<FieldValueView>>)
    ensures
        spec_decode_entries(buf, q, 0, f) == Ok::<(Seq<Option<FieldValueView>>, nat), DecodeErrorView>((f, q)),
{
    reveal(spec_decode_entries);
}

proof fn lemma_leave_rt(sender_id: Seq<char>)
    requires
        text_ok(sender_id),
    ensures
        spec_decode(leave_enc(sender_id)) == Ok::<WireMessageView, DecodeErrorView>(WireMessageView::Leave { sender_id }),
{
    lemma_key_slots();
    lemma_type_names();
    let buf = leave_enc(sender_id);
    let e1 = kv("type"@, text_item("leave"@));
    let e2 = kv("senderId"@, text_item(sender_id));
    assert(buf.skip(0) =~= map_head(2) + (e1 + e2));
    lemma_read_map(buf, 0, 2, e1 + e2);
    let p1 = map_head(2).len();
    let f0 = empty_fields();
    lemma_entry_text(buf, p1, "type"@, "leave"@, 0, 1, f0, e2);
    let p2 = p1 + e1.len();
    let f1 = f0.update(0, Some(FieldValueView::String("leave"@)));
    assert(e2 =~= e2 + Seq::<u8>::empty());
    lemma_entry_text(buf, p2, "senderId"@, sender_id, 1, 0, f1, Seq::empty());
    let f2 = f1.update(1, Some(FieldValueView::String(sender_id)));
    lemma_fields_leave(f2, sender_id);
    lemma_decode_parts(buf, 2, p1, f2, p2 + e2.len(), WireMessageView::Leave { sender_id });
}

proof fn lemma_fields_leave(f: Seq<Option<FieldValueView>>, sender_id: Seq<char>)
    requires
        f[0] == Some(FieldValueView::String("leave"@)),
        f[1] == Some(FieldValueView::String(sender_id)),
    ensures
        spec_message_from_fields(f) == Ok::<WireMessageView, DecodeErrorView>(WireMessageView::Leave { sender_id }),
{
    reveal(spec_message_from_fields);
    lemma_type_names();
}

proof fn lemma_error_rt(message: Seq<char>)
    requires
        text_ok(message),
    ensures
        spec_decode(error_enc(message)) == Ok::<WireMessageView, DecodeErrorView>(WireMessageView::Error { message }),
{
    lemma_key_slots();
    lemma_type_names();
    let buf = error_enc(message);
    let e1 = kv("type"@, text_item("error"@));
    let e2 = kv("message"@, text_item(message));
    assert(buf.skip(0) =~= map_head(2) + (e1 + e2));
    lemma_read_map(buf, 0, 2, e1 + e2);
    let p1 = map_head(2).len();
    let f0 = empty_fields();
    lemma_entry_text(buf, p1, "type"@, "error"@, 0, 1, f0, e2);
    let p2 = p1 + e1.len();
    let f1 = f0.update(0, Some(FieldValueView::String("error"@)));
    assert(e2 =~= e2 + Seq::<u8>::empty());
    lemma_entry_text(buf, p2, "message"@, message, 4, 0, f1, Seq::empty());
    let f2 = f1.update(4, Some(FieldValueView::String(message)));
    lemma_fields_error(f2, message);
    lemma_decode_parts(buf, 2, p1, f2, p2 + e2.len(), WireMessageView::Error { message });
}

proof fn lemma_fields_error(f: Seq<Option<FieldValueView>>, message: Seq<char>)
    requires
        f[0] == Some(FieldValueView::String("error"@)),
        f[4] == Some(FieldValueView::String(message)),
    ensures
        spec_message_from_fields(f) == Ok::<WireMessageView, DecodeErrorView>(WireMessageView::Error { message }),
{
    reveal(spec_message_from_fields);
    lemma_type_names();
}

proof fn lemma_join_rt(sender_id: Seq<char>, versions: Seq<Seq<char>>, metadata: Option<PeerMetadataView>)
    requires
        text_ok(sender_id),
        strs_ok(versions),
        opt_meta_ok(metadata),
    ensures
        spec_decode(join_enc(sender_id, versions, metadata)) == Ok::<WireMessageView, DecodeErrorView>(
            WireMessageView::Join { sender_id, supported_protocol_versions: versions, metadata }),
{
    match metadata {
        Some(md) => lemma_join_meta_rt(sender_id, versions, md),
        None => lemma_join_plain_rt(sender_id, versions),
    }
}

proof fn lemma_join_meta_rt(sender_id: Seq<char>, versions: Seq<Seq<char>>, md: PeerMetadataView)
    requires
        text_ok(sender_id),
        strs_ok(versions),
        meta_ok(md),
    ensures
        spec_decode(join_enc(sender_id, versions, Some(md))) == Ok::<WireMessageView, DecodeErrorView>(
            WireMessageView::Join { sender_id, supported_protocol_versions: versions, metadata: Some(md) }),
{
    lemma_key_slots();
    lemma_type_names_ok();
    let buf = join_enc(sender_id, versions, Some(md));
    let e1 = kv("type"@, text_item("join"@));
    let e2 = kv("senderId"@, text_item(sender_id));
    let e3 = kv("supportedProtocolVersions"@, str_array_enc(versions));
    let e4 = kv("metadata"@, meta_enc(md));
    let f0 = empty_fields();
    let f1 = f0.update(0, Some(FieldValueView::String("join"@)));
    let f2 = f1.update(1, Some(FieldValueView::String(sender_id)));
    let f3 = f2.update(7, Some(FieldValueView::StringArray(versions)));
    let f4 = f3.update(13, Some(FieldValueView::Metadata(md)));
    lemma_skip_zero(buf);
    lemma_read_map(buf, 0, 4, e1 + (e2 + (e3 + e4)));
    let p1 = map_head(4).len();
    lemma_entry_text(buf, p1, "type"@, "join"@, 0, 3, f0, e2 + (e3 + e4));
    let p2 = p1 + e1.len();
    lemma_entry_text(buf, p2, "senderId"@, sender_id, 1, 2, f1, e3 + e4);
    let p3 = p2 + e2.len();
    lemma_entry_strs(buf, p3, "supportedProtocolVersions"@, versions, 7, 1, f2, e4);
    let p4 = p3 + e3.len();
    lemma_append_empty(e4);
    lemma_entry_meta(buf, p4, "metadata"@, md, 0, f3, Seq::empty());
    lemma_fields_join(f4, sender_id, versions, Some(md));
    lemma_decode_parts(buf, 4, p1, f4, p4 + e4.len(), WireMessageView::Join { sender_id, supported_protocol_versions: versions, metadata: Some(md) });
}

proof fn lemma_join_plain_rt(sender_id: Seq<char>, versions: Seq<Seq<char>>)
    requires
        text_ok(sender_id),
        strs_ok(versions),
    ensures
        spec_decode(join_enc(sender_id, versions, None)) == Ok::<WireMessageView, DecodeErrorView>(
            WireMessageView::Join { sender_id, supported_protocol_versions: versions, metadata: None }),
{
    lemma_key_slots();
    lemma_type_names_ok();
    let buf = join_enc(sender_id, versions, None);
    let e1 = kv("type"@, text_item("join"@));
    let e2 = kv("senderId"@, text_item(sender_id));
    let e3 = kv("supportedProtocolVersions"@, str_array_enc(versions));
    let f0 = empty_fields();
    let f1 = f0.update(0, Some(FieldValueView::String("join"@)));
    let f2 = f1.update(1, Some(FieldValueView::String(sender_id)));
    let f3 = f2.update(7, Some(FieldValueView::StringArray(versions)));
    lemma_skip_zero(buf);
    assert(buf == map_head(3) + (e1 + (e2 + (e3 + Seq::empty())))) by {
        lemma_append_empty(e3);
    }
    lemma_read_map(buf, 0, 3, e1 + (e2 + (e3 + Seq::empty())));
    let p1 = map_head(3).len();
    lemma_entry_text(buf, p1, "type"@, "join"@, 0, 2, f0, e2 + (e3 + Seq::empty()));
    let p2 = p1 + e1.len();
    lemma_entry_text(buf, p2, "senderId"@, sender_id, 1, 1, f1, e3 + Seq::empty());
    let p3 = p2 + e2.len();
    lemma_entry_strs(buf, p3, "supportedProtocolVersions"@, versions, 7, 0, f2, Seq::empty());
    let p4 = p3 + e3.len();
    lemma_fields_join(f3, sender_id, versions, None);
    lemma_decode_parts(buf, 3, p1, f3, p4, WireMessageView::Join { sender_id, supported_protocol_versions: versions, metadata: None });
}

proof fn lemma_fields_join(f: Seq<Option<FieldValueView>>, sender_id: Seq<char>, versions: Seq<Seq<char>>, metadata: Option<PeerMetadataView>)
    requires
        f[0] == Some(FieldValueView::String("join"@)),
        f[1] == Some(FieldValueView::String(sender_id)),
        f[7] == Some(FieldValueView::StringArray(versions)),
        f[13] == match metadata {
            Some(md) => Some(FieldValueView::Metadata(md)),
            None => None::<FieldValueView>,
        },
    ensures
        spec_message_from_fields(f) == Ok::<WireMessageView, DecodeErrorView>(
            WireMessageView::Join { sender_id, supported_protocol_versions: versions, metadata }),
{
    reveal(spec_message_from_fields);
    lemma_type_names();
}


proof fn lemma_peer_meta_rt(sender_id: Seq<char>, selected: Seq<char>, target_id: Seq<char>, md: PeerMetadataView)
    requires
        text_ok(sender_id),
        text_ok(selected),
        text_ok(target_id),
        meta_ok(md),
    ensures
        spec_decode(peer_enc(sender_id, selected, target_id, Some(md))) == Ok::<WireMessageView, DecodeErrorView>(
            WireMessageView::Peer { sender_id, selected_protocol_version: selected, target_id, metadata: Some(md) }),
{
    lemma_key_slots();
    lemma_type_names_ok();
    let buf = peer_enc(sender_id, selected, target_id, Some(md));
    let e1 = kv("type"@, text_item("peer"@));
    let e2 = kv("senderId"@, text_item(sender_id));
    let e3 = kv("selectedProtocolVersion"@, text_item(selected));
    let e4 = kv("targetId"@, text_item(target_id));
    let e5 = kv("metadata"@, meta_enc(md));
    let f0 = empty_fields();
    let f1 = f0.update(0, Some(FieldValueView::String("peer"@)));
    let f2 = f1.update(1, Some(FieldValueView::String(sender_id)));
    let f3 = f2.update(3, Some(FieldValueView::String(selected)));
    let f4 = f3.update(2, Some(FieldValueView::String(target_id)));
    let f5 = f4.update(13, Some(FieldValueView::Metadata(md)));
    lemma_skip_zero(buf);
    lemma_read_map(buf, 0, 5, e1 + (e2 + (e3 + (e4 + e5))));
    let p1 = map_head(5).len();
    lemma_entry_text(buf, p1, "type"@, "peer"@, 0, 4, f0, e2 + (e3 + (e4 + e5)));
    let p2 = p1 + e1.len();
    lemma_entry_text(buf, p2, "senderId"@, sender_id, 1, 3, f1, e3 + (e4 + e5));
    let p3 = p2 + e2.len();
    lemma_entry_text(buf, p3, "selectedProtocolVersion"@, selected, 3, 2, f2, e4 + e5);
    let p4 = p3 + e3.len();
    lemma_entry_text(buf, p4, "targetId"@, target_id, 2, 1, f3, e5);
    let p5 = p4 + e4.len();
    lemma_append_empty(e5);
    lemma_entry_meta(buf, p5, "metadata"@, md, 0, f4, Seq::empty());
    lemma_fields_peer(f5, sender_id, selected, target_id, Some(md));
    lemma_decode_parts(buf, 5, p1, f5, p5 + e5.len(),
        WireMessageView::Peer { sender_id, selected_protocol_version: selected, target_id, metadata: Some(md) });
}

proof fn lemma_peer_plain_rt(sender_id: Seq<char>, selected: Seq<char>, target_id: Seq<char>)
    requires
        text_ok(sender_id),
        text_ok(selected),
        text_ok(target_id),
    ensures
        spec_decode(peer_enc(sender_id, selected, target_id, None)) == Ok::<WireMessageView, DecodeErrorView>(
            WireMessageView::Peer { sender_id, selected_protocol_version: selected, target_id, metadata: None }),
{
    lemma_key_slots();
    lemma_type_names_ok();
    let buf = peer_enc(sender_id, selected, target_id, None);
    let e1 = kv("type"@, text_item("peer"@));
    let e2 = kv("senderId"@, text_item(sender_id));
    let e3 = kv("selectedProtocolVersion"@, text_item(selected));
    let e4 = kv("targetId"@, text_item(target_id));
    let f0 = empty_fields();
    let f1 = f0.update(0, Some(FieldValueView::String("peer"@)));
    let f2 = f1.update(1, Some(FieldValueView::String(sender_id)));
    let f3 = f2.update(3, Some(FieldValueView::String(selected)));
    let f4 = f3.update(2, Some(FieldValueView::String(target_id)));
    lemma_skip_zero(buf);
    assert(buf == map_head(4) + (e1 + (e2 + (e3 + (e4 + Seq::empty()))))) by {
        lemma_append_empty(e4);
    }
    lemma_read_map(buf, 0, 4, e1 + (e2 + (e3 + (e4 + Seq::empty()))));
    let p1 = map_head(4).len();
    lemma_entry_text(buf, p1, "type"@, "peer"@, 0, 3, f0, e2 + (e3 + (e4 + Seq::empty())));
    let p2 = p1 + e1.len();
    lemma_entry_text(buf, p2, "senderId"@, sender_id, 1, 2, f1, e3 + (e4 + Seq::empty()));
    let p3 = p2 + e2.len();
    lemma_entry_text(buf, p3, "selectedProtocolVersion"@, selected, 3, 1, f2, e4 + Seq::empty());
    let p4 = p3 + e3.len();
    lemma_entry_text(buf, p4, "targetId"@, target_id, 2, 0, f3, Seq::empty());
    let p5 = p4 + e4.len();
    lemma_fields_peer(f4, sender_id, selected, target_id, None);
    lemma_decode_parts(buf, 4, p1, f4, p5,
        WireMessageView::Peer { sender_id, selected_protocol_version: selected, target_id, metadata: None });
}

proof fn lemma_fields_peer(f: Seq<Option<FieldValueView>>, sender_id: Seq<char>, selected: Seq<char>, target_id: Seq<char>, metadata: Option<PeerMetadataView>)
    requires
        f[0] == Some(FieldValueView::String("peer"@)),
        f[1] == Some(FieldValueView::String(sender_id)),
        f[2] == Some(FieldValueView::String(target_id)),
        f[3] == Some(FieldValueView::String(selected)),
        f[13] == match metadata {
            Some(md) => Some(FieldValueView::Metadata(md)),
            None => None::<FieldValueView>,
        },
    ensures
        spec_message_from_fields(f) == Ok::<WireMessageView, DecodeErrorView>(
            WireMessageView::Peer { sender_id, selected_protocol_version: selected, target_id, metadata }),
{
    reveal(spec_message_from_fields);
    lemma_type_names();
}

proof fn lemma_sync_like_rt(ty: Seq<char>, document_id: Seq<u8>, sender_id: Seq<char>, target_id: Seq<char>, data: Seq<u8>)
    requires
        ty == "request"@ || ty == "sync"@,
        document_id.len() == DOCUMENT_ID_LEN,
        text_ok(sender_id),
        text_ok(target_id),
        fits(data.len()),
    ensures
        spec_decode(sync_like_enc(ty, document_id, sender_id, target_id, data)) == Ok::<WireMessageView, DecodeErrorView>(
            if ty == "request"@ {
                WireMessageView::Request { document_id, sender_id, target_id, data }
            } else {
                WireMessageView::Sync { document_id, sender_id, target_id, data }
            }),
{
    lemma_key_slots();
    lemma_type_names_ok();
    lemma_doc_text(document_id);
    let d = document_id_text(document_id);
    let buf = sync_like_enc(ty, document_id, sender_id, target_id, data);
    let e1 = kv("type"@, text_item(ty));
    let e2 = kv("documentId"@, text_item(d));
    let e3 = kv("senderId"@, text_item(sender_id));
    let e4 = kv("targetId"@, text_item(target_id));
    let e5 = kv("data"@, bytes_item(data));
    let f0 = empty_fields();
    let f1 = f0.update(0, Some(FieldValueView::String(ty)));
    let f2 = f1.update(6, Some(FieldValueView::String(d)));
    let f3 = f2.update(1, Some(FieldValueView::String(sender_id)));
    let f4 = f3.update(2, Some(FieldValueView::String(target_id)));
    let f5 = f4.update(10, Some(FieldValueView::Bytes(data)));
    lemma_skip_zero(buf);
    lemma_read_map(buf, 0, 5, e1 + (e2 + (e3 + (e4 + e5))));
    let p1 = map_head(5).len();
    lemma_entry_text(buf, p1, "type"@, ty, 0, 4, f0, e2 + (e3 + (e4 + e5)));
    let p2 = p1 + e1.len();
    lemma_entry_text(buf, p2, "documentId"@, d, 6, 3, f1, e3 + (e4 + e5));
    let p3 = p2 + e2.len();
    lemma_entry_text(buf, p3, "senderId"@, sender_id, 1, 2, f2, e4 + e5);
    let p4 = p3 + e3.len();
    lemma_entry_text(buf, p4, "targetId"@, target_id, 2, 1, f3, e5);
    let p5 = p4 + e4.len();
    lemma_append_empty(e5);
    lemma_entry_bytes(buf, p5, "data"@, data, 0, f4, Seq::empty());
    lemma_fields_sync_like(f5, ty, document_id, sender_id, target_id, data);
    lemma_decode_parts(buf, 5, p1, f5, p5 + e5.len(),
        if ty == "request"@ {
            WireMessageView::Request { document_id, sender_id, target_id, data }
        } else {
            WireMessageView::Sync { document_id, sender_id, target_id, data }
        });
}

proof fn lemma_fields_sync_like(f: Seq<Option<FieldValueView>>, ty: Seq<char>, document_id: Seq<u8>, sender_id: Seq<char>, target_id: Seq<char>, data: Seq<u8>)
    requires
        ty == "request"@ || ty == "sync"@,
        document_id.len() == DOCUMENT_ID_LEN,
        f[0] == Some(FieldValueView::String(ty)),
        f[1] == Some(FieldValueView::String(sender_id)),
        f[2] == Some(FieldValueView::String(target_id)),
        f[6] == Some(FieldValueView::String(document_id_text(document_id))),
        f[10] == Some(FieldValueView::Bytes(data)),
    ensures
        spec_message_from_fields(f) == Ok::<WireMessageView, DecodeErrorView>(
            if ty == "request"@ {
                WireMessageView::Request { document_id, sender_id, target_id, data }
            } else {
                WireMessageView::Sync { document_id, sender_id, target_id, data }
            }),
{
    reveal(spec_message_from_fields);
    lemma_type_names();
    lemma_doc_text(document_id);
}

proof fn lemma_unavailable_rt(sender_id: Seq<char>, target_id: Seq<char>, document_id: Seq<u8>)
    requires
        document_id.len() == DOCUMENT_ID_LEN,
        text_ok(sender_id),
        text_ok(target_id),
    ensures
        spec_decode(unavailable_enc(sender_id, target_id, document_id)) == Ok::<WireMessageView, DecodeErrorView>(
            WireMessageView::DocUnavailable { sender_id, target_id, document_id }),
{
    lemma_key_slots();
    lemma_type_names_ok();
    lemma_doc_text(document_id);
    let d = document_id_text(document_id);
    let buf = unavailable_enc(sender_id, target_id, document_id);
    let e1 = kv("type"@, text_item("doc-unavailable"@));
    let e2 = kv("senderId"@, text_item(sender_id));
    let e3 = kv("targetId"@, text_item(target_id));
    let e4 = kv("documentId"@, text_item(d));
    let f0 = empty_fields();
    let f1 = f0.update(0, Some(FieldValueView::String("doc-unavailable"@)));
    let f2 = f1.update(1, Some(FieldValueView::String(sender_id)));
    let f3 = f2.update(2, Some(FieldValueView::String(target_id)));
    let f4 = f3.update(6, Some(FieldValueView::String(d)));
    lemma_skip_zero(buf);
    lemma_read_map(buf, 0, 4, e1 + (e2 + (e3 + e4)));
    let p1 = map_head(4).len();
    lemma_entry_text(buf, p1, "type"@, "doc-unavailable"@, 0, 3, f0, e2 + (e3 + e4));
    let p2 = p1 + e1.len();
    lemma_entry_text(buf, p2, "senderId"@, sender_id, 1, 2, f1, e3 + e4);
    let p3 = p2 + e2.len();
    lemma_entry_text(buf, p3, "targetId"@, target_id, 2, 1, f2, e4);
    let p4 = p3 + e3.len();
    lemma_append_empty(e4);
    lemma_entry_text(buf, p4, "documentId"@, d, 6, 0, f3, Seq::empty());
    lemma_fields_unavailable(f4, sender_id, target_id, document_id);
    lemma_decode_parts(buf, 4, p1, f4, p4 + e4.len(), WireMessageView::DocUnavailable { sender_id, target_id, document_id });
}

proof fn lemma_fields_unavailable(f: Seq<Option<FieldValueView>>, sender_id: Seq<char>, target_id: Seq<char>, document_id: Seq<u8>)
    requires
        document_id.len() == DOCUMENT_ID_LEN,
        f[0] == Some(FieldValueView::String("doc-unavailable"@)),
        f[1] == Some(FieldValueView::String(sender_id)),
        f[2] == Some(FieldValueView::String(target_id)),
        f[6] == Some(FieldValueView::String(document_id_text(document_id))),
    ensures
        spec_message_from_fields(f) == Ok::<WireMessageView, DecodeErrorView>(
            WireMessageView::DocUnavailable { sender_id, target_id, document_id }),
{
    reveal(spec_message_from_fields);
    lemma_type_names();
    lemma_doc_text(document_id);
}


proof fn lemma_ephemeral_rt(sender_id: Seq<char>, target_id: Seq<char>, count: u64, session_id: Seq<char>, document_id: Seq<u8>, data: Seq<u8>)
    requires
        document_id.len() == DOCUMENT_ID_LEN,
        text_ok(sender_id),
        text_ok(target_id),
        text_ok(session_id),
        fits(data.len()),
    ensures
        spec_decode(ephemeral_enc(sender_id, target_id, count, session_id, document_id, data)) == Ok::<WireMessageView, DecodeErrorView>(
            WireMessageView::Ephemeral { sender_id, target_id, count, session_id, document_id, data }),
{
    lemma_key_slots();
    lemma_type_names_ok();
    lemma_doc_text(document_id);
    let d = document_id_text(document_id);
    let buf = ephemeral_enc(sender_id, target_id, count, session_id, document_id, data);
    let e1 = kv("type"@, text_item("ephemeral"@));
    let e2 = kv("senderId"@, text_item(sender_id));
    let e3 = kv("targetId"@, text_item(target_id));
    let e4 = kv("count"@, uint_item(count as nat));
    let e5 = kv("sessionId"@, text_item(session_id));
    let e6 = kv("documentId"@, text_item(d));
    let e7 = kv("data"@, bytes_item(data));
    let f0 = empty_fields();
    let f1 = f0.update(0, Some(FieldValueView::String("ephemeral"@)));
    let f2 = f1.update(1, Some(FieldValueView::String(sender_id)));
    let f3 = f2.update(2, Some(FieldValueView::String(target_id)));
    let f4 = f3.update(11, Some(FieldValueView::Uint(count)));
    let f5 = f4.update(5, Some(FieldValueView::String(session_id)));
    let f6 = f5.update(6, Some(FieldValueView::String(d)));
    let f7 = f6.update(10, Some(FieldValueView::Bytes(data)));
    lemma_skip_zero(buf);
    lemma_read_map(buf, 0, 7, e1 + (e2 + (e3 + (e4 + (e5 + (e6 + e7))))));
    let p1 = map_head(7).len();
    lemma_entry_text(buf, p1, "type"@, "ephemeral"@, 0, 6, f0, e2 + (e3 + (e4 + (e5 + (e6 + e7)))));
    let p2 = p1 + e1.len();
    lemma_entry_text(buf, p2, "senderId"@, sender_id, 1, 5, f1, e3 + (e4 + (e5 + (e6 + e7))));
    let p3 = p2 + e2.len();
    lemma_entry_text(buf, p3, "targetId"@, target_id, 2, 4, f2, e4 + (e5 + (e6 + e7)));
    let p4 = p3 + e3.len();
    lemma_entry_u64(buf, p4, "count"@, count, 11, 3, f3, e5 + (e6 + e7));
    let p5 = p4 + e4.len();
    lemma_entry_text(buf, p5, "sessionId"@, session_id, 5, 2, f4, e6 + e7);
    let p6 = p5 + e5.len();
    lemma_entry_text(buf, p6, "documentId"@, d, 6, 1, f5, e7);
    let p7 = p6 + e6.len();
    lemma_append_empty(e7);
    lemma_entry_bytes(buf, p7, "data"@, data, 0, f6, Seq::empty());
    lemma_fields_ephemeral(f7, sender_id, target_id, count, session_id, document_id, data);
    lemma_decode_parts(buf, 7, p1, f7, p7 + e7.len(),
        WireMessageView::Ephemeral { sender_id, target_id, count, session_id, document_id, data });
}

proof fn lemma_fields_ephemeral(f: Seq<Option<FieldValueView>>, sender_id: Seq<char>, target_id: Seq<char>, count: u64, session_id: Seq<char>, document_id: Seq<u8>, data: Seq<u8>)
    requires
        document_id.len() == DOCUMENT_ID_LEN,
        f[0] == Some(FieldValueView::String("ephemeral"@)),
        f[1] == Some(FieldValueView::String(sender_id)),
        f[2] == Some(FieldValueView::String(target_id)),
        f[5] == Some(FieldValueView::String(session_id)),
        f[6] == Some(FieldValueView::String(document_id_text(document_id))),
        f[10] == Some(FieldValueView::Bytes(data)),
        f[11] == Some(FieldValueView::Uint(count)),
    ensures
        spec_message_from_fields(f) == Ok::<WireMessageView, DecodeErrorView>(
            WireMessageView::Ephemeral { sender_id, target_id, count, session_id, document_id, data }),
{
    reveal(spec_message_from_fields);
    lemma_type_names();
    lemma_doc_text(document_id);
}

proof fn lemma_subscription_add_rt(sender_id: Seq<char>, target_id: Seq<char>, add: Seq<Seq<char>>, remove: Seq<Seq<char>>)
    requires
        text_ok(sender_id),
        text_ok(target_id),
        strs_ok(add),
        strs_ok(remove),
    ensures
        spec_decode(subscription_enc(sender_id, target_id, Some(add), remove)) == Ok::<WireMessageView, DecodeErrorView>(
            WireMessageView::RemoteSubscriptionChange { sender_id, target_id, add: Some(add), remove }),
{
    lemma_key_slots();
    lemma_type_names_ok();
    let buf = subscription_enc(sender_id, target_id, Some(add), remove);
    let e1 = kv("type"@, text_item("remote-subscription-change"@));
    let e2 = kv("senderId"@, text_item(sender_id));
    let e3 = kv("targetId"@, text_item(target_id));
    let e4 = kv("add"@, str_array_enc(add));
    let e5 = kv("remove"@, str_array_enc(remove));
    let f0 = empty_fields();
    let f1 = f0.update(0, Some(FieldValueView::String("remote-subscription-change"@)));
    let f2 = f1.update(1, Some(FieldValueView::String(sender_id)));
    let f3 = f2.update(2, Some(FieldValueView::String(target_id)));
    let f4 = f3.update(8, Some(FieldValueView::StringArray(add)));
    let f5 = f4.update(9, Some(FieldValueView::StringArray(remove)));
    lemma_skip_zero(buf);
    lemma_read_map(buf, 0, 5, e1 + (e2 + (e3 + (e4 + e5))));
    let p1 = map_head(5).len();
    lemma_entry_text(buf, p1, "type"@, "remote-subscription-change"@, 0, 4, f0, e2 + (e3 + (e4 + e5)));
    let p2 = p1 + e1.len();
    lemma_entry_text(buf, p2, "senderId"@, sender_id, 1, 3, f1, e3 + (e4 + e5));
    let p3 = p2 + e2.len();
    lemma_entry_text(buf, p3, "targetId"@, target_id, 2, 2, f2, e4 + e5);
    let p4 = p3 + e3.len();
    lemma_entry_strs(buf, p4, "add"@, add, 8, 1, f3, e5);
    let p5 = p4 + e4.len();
    lemma_append_empty(e5);
    lemma_entry_strs(buf, p5, "remove"@, remove, 9, 0, f4, Seq::empty());
    lemma_fields_subscription(f5, sender_id, target_id, Some(add), remove);
    lemma_decode_parts(buf, 5, p1, f5, p5 + e5.len(),
        WireMessageView::RemoteSubscriptionChange { sender_id, target_id, add: Some(add), remove });
}

proof fn lemma_subscription_plain_rt(sender_id: Seq<char>, target_id: Seq<char>, remove: Seq<Seq<char>>)
    requires
        text_ok(sender_id),
        text_ok(target_id),
        strs_ok(remove),
    ensures
        spec_decode(subscription_enc(sender_id, target_id, None, remove)) == Ok::<WireMessageView, DecodeErrorView>(
            WireMessageView::RemoteSubscriptionChange { sender_id, target_id, add: None, remove }),
{
    lemma_key_slots();
    lemma_type_names_ok();
    let buf = subscription_enc(sender_id, target_id, None, remove);
    let e1 = kv("type"@, text_item("remote-subscription-change"@));
    let e2 = kv("senderId"@, text_item(sender_id));
    let e3 = kv("targetId"@, text_item(target_id));
    let e5 = kv("remove"@, str_array_enc(remove));
    let f0 = empty_fields();
    let f1 = f0.update(0, Some(FieldValueView::String("remote-subscription-change"@)));
    let f2 = f1.update(1, Some(FieldValueView::String(sender_id)));
    let f3 = f2.update(2, Some(FieldValueView::String(target_id)));
    let f5 = f3.update(9, Some(FieldValueView::StringArray(remove)));
    lemma_skip_zero(buf);
    assert(buf == map_head(4) + (e1 + (e2 + (e3 + e5)))) by {
        assert(Seq::<u8>::empty() + e5 =~= e5);
    }
    lemma_read_map(buf, 0, 4, e1 + (e2 + (e3 + e5)));
    let p1 = map_head(4).len();
    lemma_entry_text(buf, p1, "type"@, "remote-subscription-change"@, 0, 3, f0, e2 + (e3 + e5));
    let p2 = p1 + e1.len();
    lemma_entry_text(buf, p2, "senderId"@, sender_id, 1, 2, f1, e3 + e5);
    let p3 = p2 + e2.len();
    lemma_entry_text(buf, p3, "targetId"@, target_id, 2, 1, f2, e5);
    let p5 = p3 + e3.len();
    lemma_append_empty(e5);
    lemma_entry_strs(buf, p5, "remove"@, remove, 9, 0, f3, Seq::empty());
    lemma_fields_subscription(f5, sender_id, target_id, None, remove);
    lemma_decode_parts(buf, 4, p1, f5, p5 + e5.len(),
        WireMessageView::RemoteSubscriptionChange { sender_id, target_id, add: None, remove });
}

proof fn lemma_fields_subscription(f: Seq<Option<FieldValueView>>, sender_id: Seq<char>, target_id: Seq<char>, add: Option<Seq<Seq<char>>>, remove: Seq<Seq<char>>)
    requires
        f[0] == Some(FieldValueView::String("remote-subscription-change"@)),
        f[1] == Some(FieldValueView::String(sender_id)),
        f[2] == Some(FieldValueView::String(target_id)),
        f[8] == match add {
            Some(a) => Some(FieldValueView::StringArray(a)),
            None => None::<FieldValueView>,
        },
        f[9] == Some(FieldValueView::StringArray(remove)),
    ensures
        spec_message_from_fields(f) == Ok::<WireMessageView, DecodeErrorView>(
            WireMessageView::RemoteSubscriptionChange { sender_id, target_id, add, remove }),
{
    reveal(spec_message_from_fields);
    lemma_type_names();
}

proof fn lemma_heads_changed_rt(sender_id: Seq<char>, target_id: Seq<char>, document_id: Seq<u8>, new_heads: Seq<(Seq<char>, HeadsInfoView)>)
    requires
        document_id.len() == DOCUMENT_ID_LEN,
        text_ok(sender_id),
        text_ok(target_id),
        new_heads_ok(new_heads),
    ensures
        spec_decode(heads_changed_enc(sender_id, target_id, document_id, new_heads)) == Ok::<WireMessageView, DecodeErrorView>(
            WireMessageView::RemoteHeadsChanged { sender_id, target_id, document_id, new_heads }),
{
    lemma_key_slots();
    lemma_type_names_ok();
    lemma_doc_text(document_id);
    let d = document_id_text(document_id);
    let buf = heads_changed_enc(sender_id, target_id, document_id, new_heads);
    let e1 = kv("type"@, text_item("remote-heads-changed"@));
    let e2 = kv("senderId"@, text_item(sender_id));
    let e3 = kv("targetId"@, text_item(target_id));
    let e4 = kv("documentId"@, text_item(d));
    let e5 = kv("newHeads"@, new_heads_enc(new_heads));
    let f0 = empty_fields();
    let f1 = f0.update(0, Some(FieldValueView::String("remote-heads-changed"@)));
    let f2 = f1.update(1, Some(FieldValueView::String(sender_id)));
    let f3 = f2.update(2, Some(FieldValueView::String(target_id)));
    let f4 = f3.update(6, Some(FieldValueView::String(d)));
    let f5 = f4.update(14, Some(FieldValueView::NewHeads(new_heads)));
    lemma_skip_zero(buf);
    lemma_read_map(buf, 0, 5, e1 + (e2 + (e3 + (e4 + e5))));
    let p1 = map_head(5).len();
    lemma_entry_text(buf, p1, "type"@, "remote-heads-changed"@, 0, 4, f0, e2 + (e3 + (e4 + e5)));
    let p2 = p1 + e1.len();
    lemma_entry_text(buf, p2, "senderId"@, sender_id, 1, 3, f1, e3 + (e4 + e5));
    let p3 = p2 + e2.len();
    lemma_entry_text(buf, p3, "targetId"@, target_id, 2, 2, f2, e4 + e5);
    let p4 = p3 + e3.len();
    lemma_entry_text(buf, p4, "documentId"@, d, 6, 1, f3, e5);
    let p5 = p4 + e4.len();
    lemma_append_empty(e5);
    lemma_entry_new_heads(buf, p5, "newHeads"@, new_heads, 0, f4, Seq::empty());
    lemma_fields_heads_changed(f5, sender_id, target_id, document_id, new_heads);
    lemma_decode_parts(buf, 5, p1, f5, p5 + e5.len(),
        WireMessageView::RemoteHeadsChanged { sender_id, target_id, document_id, new_heads });
}

proof fn lemma_fields_heads_changed(f: Seq<Option<FieldValueView>>, sender_id: Seq<char>, target_id: Seq<char>, document_id: Seq<u8>, new_heads: Seq<(Seq<char>, HeadsInfoView)>)
    requires
        document_id.len() == DOCUMENT_ID_LEN,
        f[0] == Some(FieldValueView::String("remote-heads-changed"@)),
        f[1] == Some(FieldValueView::String(sender_id)),
        f[2] == Some(FieldValueView::String(target_id)),
        f[6] == Some(FieldValueView::String(document_id_text(document_id))),
        f[14] == Some(FieldValueView::NewHeads(new_heads)),
    ensures
        spec_message_from_fields(f) == Ok::<WireMessageView, DecodeErrorView>(
            WireMessageView::RemoteHeadsChanged { sender_id, target_id, document_id, new_heads }),
{
    reveal(spec_message_from_fields);
    lemma_type_names();
    lemma_doc_text(document_id);
}

/// Decoding the encoding of a message gives the message back, for every
/// message whose parts fit in memory, whose document IDs have sixteen bytes
/// and whose heads list each storage ID once.
pub proof fn lemma_decode_encode(m: WireMessageView)
    requires
        wire_message_wf(m),
    ensures
        spec_decode(spec_encode(m)) == Ok::<WireMessageView, DecodeErrorView>(m),
{
    match m {
        WireMessageView::Join { sender_id, supported_protocol_versions, metadata } =>
            lemma_join_rt(sender_id, supported_protocol_versions, metadata),
        WireMessageView::Peer { sender_id, selected_protocol_version, target_id, metadata } => match metadata {
            Some(md) => lemma_peer_meta_rt(sender_id, selected_protocol_version, target_id, md),
            None => lemma_peer_plain_rt(sender_id, selected_protocol_version, target_id),
        },
        WireMessageView::Leave { sender_id } => lemma_leave_rt(sender_id),
        WireMessageView::Request { document_id, sender_id, target_id, data } => {
            lemma_type_names();
            lemma_sync_like_rt("request"@, document_id, sender_id, target_id, data);
        },
        WireMessageView::Sync { document_id, sender_id, target_id, data } => {
            lemma_type_names();
            lemma_sync_like_rt("sync"@, document_id, sender_id, target_id, data);
        },
        WireMessageView::DocUnavailable { sender_id, target_id, document_id } =>
            lemma_unavailable_rt(sender_id, target_id, document_id),
        WireMessageView::Ephemeral { sender_id, target_id, count, session_id, document_id, data } =>
            lemma_ephemeral_rt(sender_id, target_id, count, session_id, document_id, data),
        WireMessageView::Error { message } => lemma_error_rt(message),
        WireMessageView::RemoteSubscriptionChange { sender_id, target_id, add, remove } => match add {
            Some(a) => lemma_subscription_add_rt(sender_id, target_id, a, remove),
            None => lemma_subscription_plain_rt(sender_id, target_id, remove),
        },
        WireMessageView::RemoteHeadsChanged { sender_id, target_id, document_id, new_heads } =>
            lemma_heads_changed_rt(sender_id, target_id, document_id, new_heads),
    }
}

} // verus!
