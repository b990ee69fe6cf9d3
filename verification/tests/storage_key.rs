use samod::hashes::{ChangeHash, CompactionHash};
use samod::ids::DocumentId;
use samod::StorageKey;

fn key(parts: &[&str]) -> StorageKey {
    StorageKey::from_parts(parts)
}

#[test]
fn prefix_relationships() {
    let key1 = key(&["users", "123", "profile"]);
    let key2 = key(&["users", "123", "settings"]);
    let prefix = key(&["users", "123"]);
    assert!(prefix.is_prefix_of(&key1));
    assert!(prefix.is_prefix_of(&key2));
    assert!(!key1.is_prefix_of(&prefix));
    assert!(key1.is_prefix_of(&key1));
    assert!(key(&[]).is_prefix_of(&key1));
    assert!(!key(&["users", "12"]).is_prefix_of(&key1));
}

#[test]
fn onelevel_deeper() {
    let prefix = key(&["a", "b"]);
    assert_eq!(key(&["a", "b", "c", "d"]).onelevel_deeper(&prefix), Some(key(&["a", "b", "c"])));
    assert_eq!(key(&["a", "b"]).onelevel_deeper(&prefix), None);
    assert_eq!(key(&["x", "b", "c"]).onelevel_deeper(&prefix), None);
}

#[test]
fn suffix_and_component() {
    let k = key(&["a"]);
    assert_eq!(k.with_suffix(key(&["b", "c"])), key(&["a", "b", "c"]));
    assert_eq!(k.with_component("z".to_string()), key(&["a", "z"]));
}

#[test]
fn well_known_paths() {
    assert_eq!(StorageKey::storage_id_path(), key(&["storage-adapter-id"]));
    let doc = DocumentId::try_from_bytes((0..16).collect()).unwrap();
    let hash = CompactionHash::new(&[]);
    assert_eq!(
        StorageKey::snapshot_path(&doc, &hash),
        key(&[
            "000102030405060708090a0b0c0d0e0f",
            "snapshot",
            "e3b0c44298fc1c149afbf4c8996fb92427ae41e4649b934ca495991b7852b855",
        ])
    );
    let change = ChangeHash::from_bytes(vec![0xab, 0xcd]);
    assert_eq!(
        StorageKey::incremental_path(&doc, &change),
        key(&["000102030405060708090a0b0c0d0e0f", "incremental", "abcd"])
    );
}

#[test]
fn storage_id_path_text_form() {
    assert_eq!(StorageKey::storage_id_path().to_string(), "storage-adapter-id");
}

#[test]
fn key_text_form_joins_components_with_slashes() {
    let key = StorageKey::from_parts(&["doc", "incremental", "abc"]);
    assert_eq!(key.to_string(), "doc/incremental/abc");
    assert_eq!(StorageKey::from_parts(&[]).to_string(), "");
}
