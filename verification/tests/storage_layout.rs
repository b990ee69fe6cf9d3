use samod::io::{StorageResult, StorageTask};
use samod::storage::{dispatch_storage_task, key_to_path, FilesystemStorage, Storage, WasiStorage};
use samod::memory_storage::MemoryStorage;
use samod::StorageKey;

fn key(parts: &[&str]) -> StorageKey {
    StorageKey::from_parts(parts)
}

fn strings(parts: &[&str]) -> Vec<String> {
    parts.iter().map(|s| s.to_string()).collect()
}

#[test]
fn test_storage_key_to_path_consistency() {
    let test_cases: Vec<(Vec<&str>, Vec<&str>)> = vec![
        (vec!["ab"], vec!["ab"]),
        (vec!["abc"], vec!["ab", "c"]),
        (vec!["abcdef"], vec!["ab", "cdef"]),
        (vec!["abcdef", "file"], vec!["ab", "cdef", "file"]),
        (vec!["abcdef", "nested", "file.txt"], vec!["ab", "cdef", "nested", "file.txt"]),
    ];

    for (input, expected) in test_cases {
        let components = key_to_path(&key(&input));
        assert_eq!(components, strings(&expected), "Key splaying failed for input: {:?}", input);
    }
}

#[test]
fn test_wasi_storage_path_logic() {
    let test_cases: Vec<(Vec<&str>, Vec<&str>)> = vec![
        (vec!["simple"], vec!["simple"]),
        (vec!["ab"], vec!["ab"]),
        (vec!["abc"], vec!["ab", "c"]),
        (vec!["abcdef"], vec!["ab", "cdef"]),
        (vec!["abcdef", "file"], vec!["ab", "cdef", "file"]),
    ];

    for (input, expected) in test_cases {
        let components = key_to_path(&key(&input));
        assert_eq!(components, strings(&expected), "WASI path logic failed for input: {:?}", input);
    }
}

#[test]
fn test_key_splaying_validation() {
    let k = key(&["abcdef", "file.txt"]);
    assert_eq!(key_to_path(&k), strings(&["ab", "cdef", "file.txt"]));
}

fn generate_test_data(size: usize) -> Vec<u8> {
    (0..size).map(|i| (i % 256) as u8).collect()
}

fn create_test_key_set() -> Vec<(StorageKey, Vec<u8>)> {
    vec![
        (key(&["test_prefix", "file1"]), b"data1".to_vec()),
        (key(&["test_prefix", "file2"]), b"data2".to_vec()),
        (key(&["test_prefix", "subdir", "file3"]), b"data3".to_vec()),
        (key(&["test_prefix", "subdir", "deeper", "file4"]), b"data4".to_vec()),
        (key(&["other_prefix", "file5"]), b"data5".to_vec()),
    ]
}

#[test]
fn test_test_data_generation() {
    let data = generate_test_data(10);
    assert_eq!(data.len(), 10);
    assert_eq!(data, vec![0, 1, 2, 3, 4, 5, 6, 7, 8, 9]);
}

#[test]
fn test_key_set_creation() {
    let key_set = create_test_key_set();
    assert_eq!(key_set.len(), 5);

    let prefix = key(&["test_prefix"]);
    let matching_count = key_set.iter().filter(|(k, _)| prefix.is_prefix_of(k)).count();
    assert_eq!(matching_count, 4);
}

#[test]
fn empty_key_has_empty_path() {
    assert_eq!(key_to_path(&key(&[])), Vec::<String>::new());
}

#[test]
fn single_hex_character_is_not_split() {
    assert_eq!(key_to_path(&key(&["a", "x"])), strings(&["a", "x"]));
}

#[test]
fn storage_id_key_is_not_splayed() {
    let k = StorageKey::storage_id_path();
    assert_eq!(key_to_path(&k), strings(&["storage-adapter-id"]));
}

#[test]
fn filesystem_storage_prefixes_the_data_directory() {
    let storage = FilesystemStorage::new("/tmp/data".to_string());
    assert_eq!(storage.data_dir_str(), "/tmp/data");
    let path = storage.key_to_path(&key(&["abcdef", "snapshot", "h1"]));
    assert_eq!(path, strings(&["/tmp/data", "ab", "cdef", "snapshot", "h1"]));
}

#[test]
fn wasi_storage_prefixes_the_base_path() {
    let storage = WasiStorage::new("/base".to_string());
    let path = storage.key_to_fs_path(&key(&["0123ab", "incremental"]));
    assert_eq!(path, strings(&["/base", "01", "23ab", "incremental"]));
}

#[test]
fn memory_storage_through_the_storage_trait() {
    let mut s = MemoryStorage::new();
    Storage::put(&mut s, key(&["a", "b"]), b"one".to_vec());
    Storage::put(&mut s, key(&["a", "c"]), b"two".to_vec());
    Storage::put(&mut s, key(&["z"]), b"three".to_vec());
    assert_eq!(Storage::load(&s, key(&["a", "b"])), Some(b"one".to_vec()));
    let range = Storage::load_range(&s, key(&["a"]));
    assert_eq!(range.len(), 2);
    assert_eq!(range[0], (key(&["a", "b"]), b"one".to_vec()));
    assert_eq!(range[1], (key(&["a", "c"]), b"two".to_vec()));
    Storage::delete(&mut s, key(&["a", "b"]));
    assert_eq!(Storage::load(&s, key(&["a", "b"])), None);
    assert_eq!(Storage::load(&s, key(&["z"])), Some(b"three".to_vec()));
}

#[test]
fn storage_requests_are_dispatched() {
    let mut s = MemoryStorage::new();
    let r = dispatch_storage_task(StorageTask::Put { key: key(&["a", "b"]), value: vec![5] }, &mut s);
    assert!(matches!(r, StorageResult::Put));
    let r = dispatch_storage_task(StorageTask::Load { key: key(&["a", "b"]) }, &mut s);
    assert!(matches!(r, StorageResult::Load { value: Some(v) } if v == vec![5]));
    let r = dispatch_storage_task(StorageTask::LoadRange { prefix: key(&["a"]) }, &mut s);
    assert!(matches!(r, StorageResult::LoadRange { values } if values.len() == 1));
    let r = dispatch_storage_task(StorageTask::Delete { key: key(&["a", "b"]) }, &mut s);
    assert!(matches!(r, StorageResult::Delete));
    let r = dispatch_storage_task(StorageTask::Load { key: key(&["a", "b"]) }, &mut s);
    assert!(matches!(r, StorageResult::Load { value: None }));
}
