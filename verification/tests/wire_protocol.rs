use samod::ids::{DocumentId, PeerId, StorageId};
use samod::wire_decode::DecodeError;
use samod::wire_protocol::{HeadsInfo, PeerMetadata, WireMessage, PROTOCOL_VERSION};

fn roundtrip(msg: WireMessage) {
    let encoded = msg.encode();
    let decoded = WireMessage::decode(&encoded).unwrap();
    assert_eq!(msg, decoded);
}

#[test]
fn test_join_message_roundtrip() {
    let msg = WireMessage::Join {
        sender_id: PeerId::from_str("test-peer"),
        supported_protocol_versions: vec![PROTOCOL_VERSION.to_string()],
        metadata: Some(PeerMetadata { storage_id: Some(StorageId::new()), is_ephemeral: false }),
    };

    let encoded = msg.encode();
    let decoded = WireMessage::decode(&encoded).unwrap();
    assert_eq!(msg, decoded);
}

#[test]
fn test_peer_message_roundtrip() {
    let msg = WireMessage::Peer {
        sender_id: PeerId::from_str("sender"),
        selected_protocol_version: PROTOCOL_VERSION.to_string(),
        target_id: PeerId::from_str("target"),
        metadata: None,
    };

    let encoded = msg.encode();
    let decoded = WireMessage::decode(&encoded).unwrap();
    assert_eq!(msg, decoded);
}

#[test]
fn test_error_message_roundtrip() {
    let msg = WireMessage::Error { message: "Protocol error".to_string() };

    let encoded = msg.encode();
    let decoded = WireMessage::decode(&encoded).unwrap();
    assert_eq!(msg, decoded);
}

#[test]
fn leave_message_roundtrip() {
    roundtrip(WireMessage::Leave { sender_id: PeerId::from_str("bye") });
}

#[test]
fn sync_and_request_roundtrip() {
    let doc = DocumentId::new();
    roundtrip(WireMessage::Request {
        document_id: doc.clone(),
        sender_id: PeerId::from_str("a"),
        target_id: PeerId::from_str("b"),
        data: vec![1, 2, 3],
    });
    roundtrip(WireMessage::Sync {
        document_id: doc,
        sender_id: PeerId::from_str("a"),
        target_id: PeerId::from_str("b"),
        data: vec![],
    });
}

#[test]
fn doc_unavailable_and_ephemeral_roundtrip() {
    roundtrip(WireMessage::DocUnavailable {
        sender_id: PeerId::from_str("a"),
        target_id: PeerId::from_str("b"),
        document_id: DocumentId::new(),
    });
    roundtrip(WireMessage::Ephemeral {
        sender_id: PeerId::from_str("a"),
        target_id: PeerId::from_str("b"),
        count: 7,
        session_id: "session".to_string(),
        document_id: DocumentId::new(),
        data: vec![9, 9],
    });
}

#[test]
fn subscription_and_heads_roundtrip() {
    roundtrip(WireMessage::RemoteSubscriptionChange {
        sender_id: PeerId::from_str("a"),
        target_id: PeerId::from_str("b"),
        add: Some(vec![StorageId::from_str("s1")]),
        remove: vec![StorageId::from_str("s2"), StorageId::from_str("s3")],
    });
    roundtrip(WireMessage::RemoteSubscriptionChange {
        sender_id: PeerId::from_str("a"),
        target_id: PeerId::from_str("b"),
        add: None,
        remove: vec![],
    });
    roundtrip(WireMessage::RemoteHeadsChanged {
        sender_id: PeerId::from_str("a"),
        target_id: PeerId::from_str("b"),
        document_id: DocumentId::new(),
        new_heads: vec![(StorageId::from_str("s1"), HeadsInfo { heads: vec!["h".to_string()], timestamp: 42 })],
    });
}

#[test]
fn empty_input_is_an_error() {
    assert!(WireMessage::decode(&[]).is_err());
}

#[test]
fn non_map_input_is_a_reader_error() {
    // A CBOR unsigned integer, not a map.
    let r = WireMessage::decode(&[0x01]);
    assert!(matches!(r, Err(DecodeError::Minicbor(_))));
}

#[test]
fn map_without_type_is_missing_type() {
    // An empty CBOR map.
    let r = WireMessage::decode(&[0xa0]);
    assert!(matches!(r, Err(DecodeError::MissingType)));
}

#[test]
fn unknown_type_is_reported() {
    // {"type": "nope"}
    let mut bytes = vec![0xa1, 0x64];
    bytes.extend_from_slice(b"type");
    bytes.push(0x64);
    bytes.extend_from_slice(b"nope");
    let r = WireMessage::decode(&bytes);
    match r {
        Err(e) => assert_eq!(e.to_string(), "unknown type nope"),
        Ok(_) => panic!("decoding an unknown type succeeded"),
    }
}

#[test]
fn leave_without_sender_is_missing_field() {
    // {"type": "leave"}
    let mut bytes = vec![0xa1, 0x64];
    bytes.extend_from_slice(b"type");
    bytes.push(0x65);
    bytes.extend_from_slice(b"leave");
    let r = WireMessage::decode(&bytes);
    match r {
        Err(e) => assert_eq!(e.to_string(), "missing field: senderId"),
        Ok(_) => panic!("decoding a leave message without sender succeeded"),
    }
}

#[test]
fn error_texts() {
    assert_eq!(DecodeError::MissingLen.to_string(), "missing len");
    assert_eq!(DecodeError::InvalidFormat.to_string(), "invalid format");
    assert_eq!(DecodeError::MissingType.to_string(), "no type field");
    assert_eq!(DecodeError::InvalidDocumentId.to_string(), "invalid document ID");
}

fn text(out: &mut Vec<u8>, s: &str) {
    assert!(s.len() < 256);
    if s.len() < 24 {
        out.push(0x60 + s.len() as u8);
    } else {
        out.push(0x78);
        out.push(s.len() as u8);
    }
    out.extend_from_slice(s.as_bytes());
}

#[test]
fn an_indefinite_top_level_map_is_missing_len() {
    let r = WireMessage::decode(&[0xbf, 0xff]);
    assert!(matches!(r, Err(DecodeError::MissingLen)));
}

#[test]
fn an_indefinite_nested_array_is_invalid_format() {
    let mut bytes = vec![0xa1];
    text(&mut bytes, "supportedProtocolVersions");
    bytes.extend_from_slice(&[0x9f, 0xff]);
    let r = WireMessage::decode(&bytes);
    assert!(matches!(r, Err(DecodeError::InvalidFormat)));
}

#[test]
fn a_bad_document_id_is_reported() {
    let mut bytes = vec![0xa2];
    text(&mut bytes, "type");
    text(&mut bytes, "sync");
    text(&mut bytes, "documentId");
    text(&mut bytes, "zz");
    let r = WireMessage::decode(&bytes);
    assert!(matches!(r, Err(DecodeError::InvalidDocumentId)));
}
