use samod::ids::{DocumentId, PeerId};
use samod::io::{IoResult, IoTaskId, StorageResult, StorageTask};
use samod::load::Load;
use samod::loader::{LoaderError, LoaderState, SamodLoader};
use samod::memory_storage::MemoryStorage;
use samod::{StorageKey, UnixTimestamp};

fn now() -> UnixTimestamp {
    UnixTimestamp::from_millis(0)
}

#[test]
fn loader_reads_then_writes_a_new_storage_id() {
    let mut storage = MemoryStorage::new();
    let mut loader = SamodLoader::new(PeerId::from_str("alice"));
    let tasks = match loader.step(now()) {
        LoaderState::NeedIo(tasks) => tasks,
        LoaderState::Loaded(_) => panic!("loaded without reading storage"),
    };
    assert_eq!(tasks.len(), 1);
    let task = tasks.into_iter().next().unwrap();
    assert!(matches!(&task.action, StorageTask::Load { key } if *key == StorageKey::storage_id_path()));
    let id = task.task_id;
    let payload = storage.handle_task(task.action);
    assert_eq!(loader.provide_io_result(IoResult { task_id: id, payload }), Ok(()));

    let tasks = match loader.step(now()) {
        LoaderState::NeedIo(tasks) => tasks,
        LoaderState::Loaded(_) => panic!("loaded without a storage id"),
    };
    assert_eq!(tasks.len(), 1);
    let task = tasks.into_iter().next().unwrap();
    let id = task.task_id;
    let payload = storage.handle_task(task.action);
    assert_eq!(loader.provide_io_result(IoResult { task_id: id, payload }), Ok(()));

    match loader.step(now()) {
        LoaderState::Loaded(hub) => {
            let stored = storage.load(&StorageKey::storage_id_path()).unwrap();
            assert_eq!(hub.storage_id().as_str().as_bytes(), &stored[..]);
            assert_eq!(hub.peer_id().as_str(), "alice");
        },
        LoaderState::NeedIo(_) => panic!("still loading"),
    }
}

#[test]
fn loader_waits_without_asking_again() {
    let mut loader = SamodLoader::new(PeerId::from_str("alice"));
    let _ = loader.step(now());
    match loader.step(now()) {
        LoaderState::NeedIo(tasks) => assert!(tasks.is_empty()),
        LoaderState::Loaded(_) => panic!("loaded without a result"),
    }
}

#[test]
fn loader_errors() {
    let mut loader = SamodLoader::new(PeerId::from_str("alice"));
    assert_eq!(
        loader.provide_io_result(IoResult { task_id: IoTaskId::from_u64(1), payload: StorageResult::Put }),
        Err(LoaderError::UnexpectedIoCompletion)
    );
    let tasks = match loader.step(now()) {
        LoaderState::NeedIo(tasks) => tasks,
        LoaderState::Loaded(_) => panic!("loaded"),
    };
    let expected = tasks[0].task_id;
    let other = IoTaskId::from_u64(expected.as_u64().wrapping_add(1));
    assert_eq!(
        loader.provide_io_result(IoResult { task_id: other, payload: StorageResult::Load { value: None } }),
        Err(LoaderError::TaskIdMismatch { expected, received: other })
    );
    assert_eq!(
        loader.provide_io_result(IoResult { task_id: expected, payload: StorageResult::Put }),
        Err(LoaderError::UnexpectedStorageResult)
    );
    assert_eq!(
        loader.provide_io_result(IoResult { task_id: expected, payload: StorageResult::Load { value: Some(b"id".to_vec()) } }),
        Ok(())
    );
    match loader.step(now()) {
        LoaderState::Loaded(hub) => assert_eq!(hub.storage_id().as_str(), "id"),
        LoaderState::NeedIo(_) => panic!("a stored id is used at once"),
    }
}

#[test]
fn document_load_reads_snapshots_and_incrementals() {
    let doc = DocumentId::try_from_bytes((0..16).collect()).unwrap();
    let text = doc.to_string();
    let mut storage = MemoryStorage::new();
    storage.put(StorageKey::from_parts(&[&text, "snapshot", "s1"]), vec![1]);
    storage.put(StorageKey::from_parts(&[&text, "incremental", "c1"]), vec![2]);
    storage.put(StorageKey::from_parts(&[&text, "incremental", "c2"]), vec![3]);
    storage.put(StorageKey::from_parts(&["other", "snapshot", "s9"]), vec![9]);

    let mut load = Load::new(doc);
    assert!(load.step().is_empty());
    load.begin();
    let tasks = load.step();
    assert_eq!(tasks.len(), 2);
    assert!(load.has_task(tasks[0].task_id));
    assert!(load.has_task(tasks[1].task_id));
    assert!(load.take_complete().is_none());
    for task in tasks {
        let id = task.task_id;
        let result = storage.handle_task(task.action);
        load.handle_result(id, result);
    }
    let done = load.take_complete().unwrap();
    assert_eq!(done.snapshots, vec![(StorageKey::from_parts(&[&text, "snapshot", "s1"]), vec![1])]);
    assert_eq!(done.incrementals.len(), 2);
    assert!(load.take_complete().is_none());
}
