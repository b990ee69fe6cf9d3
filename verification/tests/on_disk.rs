use automerge::transaction::Transactable;
use samod::doc_actor_result::{DocActorResult, DocumentError, DocumentIoTask};
use samod::ephemera::EphemeralSession;
use samod::hashes::{ChangeHash, CompactionHash};
use samod::ids::{DocumentId, PeerId};
use samod::io::{IoTaskId, StorageResult, StorageTask};
use samod::messages::EphemeralMessage;
use samod::on_disk_state::OnDiskState;
use samod::StorageKey;

fn doc() -> DocumentId {
    DocumentId::try_from_bytes((0..16).collect()).unwrap()
}

fn hash(b: u8) -> ChangeHash {
    ChangeHash::from_bytes(vec![b; 32])
}

fn puts(out: &DocActorResult) -> Vec<(IoTaskId, StorageKey)> {
    out.io_tasks
        .iter()
        .filter_map(|t| match &t.action {
            DocumentIoTask::Storage(StorageTask::Put { key, .. }) => Some((t.task_id, key.clone())),
            _ => None,
        })
        .collect()
}

fn deletes(out: &DocActorResult) -> Vec<StorageKey> {
    out.io_tasks
        .iter()
        .filter_map(|t| match &t.action {
            DocumentIoTask::Storage(StorageTask::Delete { key }) => Some(key.clone()),
            _ => None,
        })
        .collect()
}

#[test]
fn few_changes_are_written_one_by_one() {
    let mut state = OnDiskState::new();
    let mut out = DocActorResult::new();
    assert!(!state.compaction_due(2));
    let changes = vec![(hash(1), vec![1]), (hash(2), vec![2])];
    state.record_save(&mut out, &doc(), changes, vec![hash(2)], None);
    let p = puts(&out);
    assert_eq!(p.len(), 2);
    assert_eq!(p[0].1, StorageKey::incremental_path(&doc(), &hash(1)));
    assert_eq!(p[1].1, StorageKey::incremental_path(&doc(), &hash(2)));
    assert!(!state.is_flushed());
    assert!(state.has_task(p[0].0));
    assert_eq!(state.task_complete(p[0].0, StorageResult::Put), Ok(()));
    assert_eq!(state.task_complete(p[1].0, StorageResult::Put), Ok(()));
    assert!(state.is_flushed());
    assert_eq!(
        state.task_complete(p[1].0, StorageResult::Put),
        Err(DocumentError::UnexpectedStorageResult(p[1].0))
    );
}

#[test]
fn many_changes_are_compacted_into_one_snapshot() {
    let mut state = OnDiskState::new();
    let mut out = DocActorResult::new();
    let changes: Vec<(ChangeHash, Vec<u8>)> = (0..11).map(|i| (hash(i), vec![i])).collect();
    assert!(state.compaction_due(changes.len()));
    state.record_save(&mut out, &doc(), changes, vec![hash(10)], Some(vec![42]));
    let p = puts(&out);
    assert_eq!(p.len(), 1);
    assert_eq!(p[0].1, StorageKey::snapshot_path(&doc(), &CompactionHash::new(&[hash(10)])));
    assert!(!state.compaction_due(11));
}

#[test]
fn compaction_does_not_delete_its_own_snapshot() {
    let snapshot = StorageKey::snapshot_path(&doc(), &CompactionHash::new(&[hash(99)]));
    let mut state = OnDiskState::new();
    let mut keys: Vec<StorageKey> = (0..10).map(|i| StorageKey::incremental_path(&doc(), &hash(i))).collect();
    keys.push(snapshot.clone());
    state.add_keys(keys);
    assert!(state.compaction_due(0));

    let mut out = DocActorResult::new();
    state.record_save(&mut out, &doc(), vec![], vec![hash(99)], Some(vec![7]));
    let p = puts(&out);
    assert_eq!(p.len(), 1);
    assert_eq!(p[0].1, snapshot);
    assert_eq!(state.task_complete(p[0].0, StorageResult::Put), Ok(()));

    let mut out2 = DocActorResult::new();
    state.record_save(&mut out2, &doc(), vec![], vec![hash(99)], None);
    let d = deletes(&out2);
    assert_eq!(d.len(), 10);
    assert!(!d.contains(&snapshot));
}

#[test]
fn wrong_results_are_errors() {
    let mut state = OnDiskState::new();
    let id = IoTaskId::from_u64(5);
    assert_eq!(state.task_complete(id, StorageResult::Delete), Err(DocumentError::UnexpectedStorageResult(id)));
    assert_eq!(
        state.task_complete(id, StorageResult::Load { value: None }),
        Err(DocumentError::UnexpectedStorageResult(id))
    );
}

#[test]
fn actor_results_collect_io_and_messages() {
    let mut out = DocActorResult::new();
    assert!(out.io_tasks.is_empty() && !out.stopped);
    let a = out.put(StorageKey::from_parts(&["k"]), vec![1]);
    let b = out.delete(StorageKey::from_parts(&["k"]));
    let c = out.check_announce_policy(PeerId::from_str("bob"));
    assert_eq!(out.io_tasks.len(), 3);
    assert_eq!(out.io_tasks[0].task_id, a);
    assert_eq!(out.io_tasks[1].task_id, b);
    assert_eq!(out.io_tasks[2].task_id, c);
    assert!(matches!(&out.io_tasks[2].action, DocumentIoTask::CheckAnnouncePolicy { peer_id } if peer_id.as_str() == "bob"));
    out.emit_ephemeral_message(vec![9]);
    assert_eq!(out.ephemeral_messages, vec![vec![9]]);
    out.emit_doc_changed(vec![hash(1)]);
    assert_eq!(out.change_events.len(), 1);
}

fn message(sender: &str, session: &str, count: u64) -> EphemeralMessage {
    EphemeralMessage { sender_id: PeerId::from_str(sender), session_id: session.to_string(), count, data: vec![1] }
}

#[test]
fn ephemeral_messages_are_numbered() {
    let mut s = EphemeralSession::new();
    let a = s.next_message_session_details();
    let b = s.next_message_session_details();
    assert_eq!(a.counter, 1);
    assert_eq!(b.counter, 2);
    assert_eq!(a.session_id, b.session_id);
    assert_eq!(a.session_id.len(), 32);
}

#[test]
fn repeated_ephemeral_messages_are_dropped() {
    let mut s = EphemeralSession::new();
    assert!(s.receive_message(message("bob", "x", 1)).is_some());
    assert!(s.receive_message(message("bob", "x", 1)).is_none());
    assert!(s.receive_message(message("bob", "x", 0)).is_none());
    assert!(s.receive_message(message("bob", "x", 2)).is_some());
    assert!(s.receive_message(message("bob", "y", 1)).is_some());
    assert!(s.receive_message(message("carol", "x", 1)).is_some());
}

fn document_with_changes(n: usize) -> (automerge::Automerge, Vec<(ChangeHash, Vec<u8>)>) {
    let mut d = automerge::Automerge::new();
    let mut changes = Vec::new();
    for i in 0..n {
        d.transact(|tx| {
            tx.put(automerge::ROOT, "foo", format!("bar {}", i))?;
            Ok::<_, automerge::AutomergeError>(())
        })
        .unwrap();
        let change = d.get_last_local_change().unwrap();
        changes.push((ChangeHash::from_bytes(change.hash().0.to_vec()), change.raw_bytes().to_vec()));
    }
    (d, changes)
}

fn heads_of(d: &automerge::Automerge) -> Vec<ChangeHash> {
    d.get_heads().iter().map(|h| ChangeHash::from_bytes(h.0.to_vec())).collect()
}

fn put_values(out: &DocActorResult) -> Vec<(IoTaskId, StorageKey, Vec<u8>)> {
    out.io_tasks
        .iter()
        .filter_map(|t| match &t.action {
            DocumentIoTask::Storage(StorageTask::Put { key, value }) => Some((t.task_id, key.clone(), value.clone())),
            _ => None,
        })
        .collect()
}

#[test]
fn few_document_changes_are_saved_one_by_one() {
    let (d, changes) = document_with_changes(3);
    let mut state = OnDiskState::new();
    let mut out = DocActorResult::new();
    state.save_new_changes(&mut out, &doc(), &d);
    let p = put_values(&out);
    assert_eq!(p.len(), 3);
    for (i, (hash, bytes)) in changes.iter().enumerate() {
        assert_eq!(p[i].1, StorageKey::incremental_path(&doc(), hash));
        assert_eq!(&p[i].2, bytes);
    }
    // Saving the unchanged document again writes nothing.
    let mut again = DocActorResult::new();
    state.save_new_changes(&mut again, &doc(), &d);
    assert!(again.io_tasks.is_empty());
}

#[test]
fn many_changes_are_compacted() {
    let (d, _changes) = document_with_changes(100);
    let mut state = OnDiskState::new();
    let mut out = DocActorResult::new();
    state.save_new_changes(&mut out, &doc(), &d);
    let p = put_values(&out);
    assert_eq!(p.len(), 1);
    assert_eq!(p[0].1, StorageKey::snapshot_path(&doc(), &CompactionHash::new(&heads_of(&d))));
    assert_eq!(p[0].2, d.save());
    assert!(out.io_tasks.len() < 100);
}

#[test]
fn many_changes_compact_but_do_not_delete_existing_snapshot() {
    let (d, changes) = document_with_changes(100);
    let snapshot_key = StorageKey::snapshot_path(&doc(), &CompactionHash::new(&heads_of(&d)));
    let mut keys: Vec<StorageKey> = changes.iter().map(|(h, _)| StorageKey::incremental_path(&doc(), h)).collect();
    keys.push(snapshot_key.clone());
    let mut state = OnDiskState::new();
    state.add_keys(keys);

    let mut out = DocActorResult::new();
    state.save_new_changes(&mut out, &doc(), &d);
    let p = put_values(&out);
    assert_eq!(p.len(), 1);
    assert_eq!(p[0].1, snapshot_key);
    assert_eq!(state.task_complete(p[0].0, StorageResult::Put), Ok(()));

    let mut next = DocActorResult::new();
    state.save_new_changes(&mut next, &doc(), &d);
    assert!(put_values(&next).is_empty());
    let gone = deletes(&next);
    assert_eq!(gone.len(), 100);
    assert!(!gone.contains(&snapshot_key));
}
