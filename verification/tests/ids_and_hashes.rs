use samod::hashes::{ChangeHash, CompactionHash};
use samod::hex;
use samod::ids::{BadDocumentId, DocumentId, PeerId, StorageId};
use samod::UnixTimestamp;

#[test]
fn hex_encode_is_lower_case() {
    assert_eq!(hex::encode(&[0x00, 0x0f, 0xab, 0xff]), "000fabff");
    assert_eq!(hex::encode(&[]), "");
}

#[test]
fn hex_decode_reads_both_cases() {
    assert_eq!(hex::decode("000fABff"), Some(vec![0x00, 0x0f, 0xab, 0xff]));
    assert_eq!(hex::decode(""), Some(vec![]));
}

#[test]
fn hex_decode_refuses_bad_input() {
    assert_eq!(hex::decode("abc"), None);
    assert_eq!(hex::decode("zz"), None);
}

#[test]
fn hex_roundtrip() {
    let bytes: Vec<u8> = (0..=255).collect();
    assert_eq!(hex::decode(&hex::encode(&bytes)), Some(bytes));
}

#[test]
fn document_id_text_roundtrip() {
    let id = DocumentId::new();
    let text = id.to_string();
    assert_eq!(text.len(), 32);
    let back = DocumentId::from_str(&text).unwrap();
    assert_eq!(back, id);
    assert!(back.same_as(&id));
}

#[test]
fn document_id_errors() {
    assert_eq!(DocumentId::from_str("xyz"), Err(BadDocumentId::NotHex));
    assert_eq!(DocumentId::from_str("abcd"), Err(BadDocumentId::WrongLength));
    assert_eq!(DocumentId::try_from_bytes(vec![1, 2, 3]), Err(BadDocumentId::WrongLength));
    let bytes: Vec<u8> = (0..16).collect();
    let id = DocumentId::try_from_bytes(bytes.clone()).unwrap();
    assert_eq!(id.as_bytes(), &bytes[..]);
    assert_eq!(id.to_string(), "000102030405060708090a0b0c0d0e0f");
}

#[test]
fn fresh_ids_differ() {
    assert_ne!(DocumentId::new(), DocumentId::new());
    assert_ne!(StorageId::new(), StorageId::new());
    assert_eq!(StorageId::new().as_str().len(), 32);
}

#[test]
fn peer_ids_compare_by_text() {
    let a = PeerId::from_str("alice");
    assert!(a.same_as(&PeerId::from_string("alice".to_string())));
    assert!(!a.same_as(&PeerId::from_str("bob")));
    assert_eq!(a.as_str(), "alice");
}

#[test]
fn change_hash_text_is_hex() {
    let h = ChangeHash::from_bytes(vec![0xde, 0xad]);
    assert_eq!(h.to_string(), "dead");
    assert_eq!(h.as_bytes(), &[0xde, 0xad]);
}

#[test]
fn compaction_hash_is_sha256_of_the_hashes() {
    // SHA-256 of the empty input.
    let empty = CompactionHash::new(&[]);
    assert_eq!(empty.to_string(), "e3b0c44298fc1c149afbf4c8996fb92427ae41e4649b934ca495991b7852b855");
    // SHA-256 of "abc", fed as two hashes.
    let h = CompactionHash::new(&[ChangeHash::from_bytes(b"ab".to_vec()), ChangeHash::from_bytes(b"c".to_vec())]);
    assert_eq!(h.to_string(), "ba7816bf8f01cfea414140de5dae2223b00361a396177a9cb410ff61f20015ad");
}

#[test]
fn timestamps_add_and_subtract() {
    let t = UnixTimestamp::from_millis(1_000);
    assert_eq!(t.as_millis(), 1_000);
    assert_eq!(t.add_millis(10).as_millis(), 1_010);
    assert_eq!(t.sub_millis(1_000).as_millis(), 0);
    assert_eq!(t.add_millis(500).millis_since(&t), 500);
    assert_eq!(t.to_i64(), 1_000);
}
