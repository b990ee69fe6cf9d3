use automerge::transaction::Transactable;
use samod::doc_actor_result::{DocActorResult, DocumentError, DocumentIoTask};
use samod::document_actor::{ActorInput, DocumentActor, DocumentIoResult};
use samod::ids::{DocumentId, PeerId};
use samod::io::{IoResult, IoTaskId, StorageResult, StorageTask};
use samod::messages::{Broadcast, DocToHubMsgPayload, DocumentActorId, DocumentStatus, HubToDocMsgPayload, SpawnArgs};
use samod::network::ConnectionId;
use samod::{StorageKey, UnixTimestamp};

fn now() -> UnixTimestamp {
    UnixTimestamp::from_millis(0)
}

fn spawn(content: Option<automerge::Automerge>, conns: Vec<(ConnectionId, PeerId)>) -> (DocumentActor, DocActorResult, DocumentId) {
    let doc_id = DocumentId::new();
    let args = SpawnArgs {
        actor_id: DocumentActorId::from_u64(1),
        local_peer_id: PeerId::from_str("alice"),
        document_id: doc_id.duplicate(),
        initial_content: content,
        initial_connections: conns.into_iter().map(|(c, p)| (c, p, None)).collect(),
    };
    let (actor, out) = DocumentActor::new(now(), args);
    (actor, out, doc_id)
}

fn load_tasks(out: &DocActorResult) -> Vec<(IoTaskId, StorageKey)> {
    out.io_tasks
        .iter()
        .filter_map(|t| match &t.action {
            DocumentIoTask::Storage(StorageTask::LoadRange { prefix }) => Some((t.task_id, prefix.duplicate())),
            _ => None,
        })
        .collect()
}

fn policy_tasks(out: &DocActorResult) -> Vec<(IoTaskId, String)> {
    out.io_tasks
        .iter()
        .filter_map(|t| match &t.action {
            DocumentIoTask::CheckAnnouncePolicy { peer_id } => Some((t.task_id, peer_id.as_str().to_string())),
            _ => None,
        })
        .collect()
}

#[test]
fn new_actor_starts_loading_its_document() {
    let (actor, out, doc_id) = spawn(None, vec![]);
    let loads = load_tasks(&out);
    assert_eq!(loads.len(), 2);
    assert_eq!(loads[0].1, StorageKey::from_parts(&[&doc_id.to_string(), "snapshot"]));
    assert_eq!(loads[1].1, StorageKey::from_parts(&[&doc_id.to_string(), "incremental"]));
    assert!(out.outgoing_messages.is_empty());
    assert!(!out.stopped);
    assert!(!actor.is_stopped());
    assert!(actor.document_id().same_as(&doc_id));
}

#[test]
fn new_actor_with_content_is_ready_at_once() {
    let (_actor, out, _) = spawn(Some(automerge::Automerge::new()), vec![]);
    assert_eq!(out.outgoing_messages.len(), 1);
    assert!(matches!(
        out.outgoing_messages[0],
        DocToHubMsgPayload::DocumentStatusChanged { new_status: DocumentStatus::Ready }
    ));
}

#[test]
fn initial_connections_are_asked_about() {
    let (_actor, out, _) = spawn(None, vec![(ConnectionId::from_u64(3), PeerId::from_str("bob"))]);
    let asked = policy_tasks(&out);
    assert_eq!(asked.len(), 1);
    assert_eq!(asked[0].1, "bob");
}

#[test]
fn terminate_with_no_writes_stops_at_once() {
    let (mut actor, _, _) = spawn(None, vec![]);
    let mut out = DocActorResult::new();
    assert_eq!(actor.handle_input(now(), ActorInput::Terminate, &mut out), Ok(()));
    assert!(actor.is_stopped());
    assert!(out.stopped);
    assert_eq!(out.outgoing_messages.len(), 1);
    assert!(matches!(out.outgoing_messages[0], DocToHubMsgPayload::Terminated));
}

#[test]
fn stopped_actor_refuses_io() {
    let (mut actor, _, _) = spawn(None, vec![]);
    let mut out = DocActorResult::new();
    actor.handle_input(now(), ActorInput::Terminate, &mut out).unwrap();
    let r = actor.handle_io_complete(
        now(),
        IoResult { task_id: IoTaskId::from_u64(5), payload: DocumentIoResult::Storage(StorageResult::Put) },
    );
    assert_eq!(r.err(), Some(DocumentError::ActorStopped));
    let r = actor.handle_message(now(), HubToDocMsgPayload::Terminate);
    assert_eq!(r.err(), Some(DocumentError::ActorStopped));
}

#[test]
fn unexpected_storage_result_is_refused() {
    let (mut actor, _, _) = spawn(None, vec![]);
    let id = IoTaskId::from_u64(12345);
    let r = actor.handle_io_complete(now(), IoResult { task_id: id, payload: DocumentIoResult::Storage(StorageResult::Put) });
    assert_eq!(r.err(), Some(DocumentError::UnexpectedStorageResult(id)));
}

#[test]
fn unexpected_policy_answer_is_refused() {
    let (mut actor, _, _) = spawn(None, vec![]);
    let id = IoTaskId::from_u64(777);
    let r = actor.handle_io_complete(now(), IoResult { task_id: id, payload: DocumentIoResult::CheckAnnouncePolicy(true) });
    assert_eq!(r.err(), Some(DocumentError::UnexpectedPolicyCompletion(id)));
}

#[test]
fn load_completes_after_both_range_loads() {
    let (mut actor, out, doc_id) = spawn(None, vec![]);
    let loads = load_tasks(&out);
    let key = StorageKey::from_parts(&[&doc_id.to_string(), "incremental", "aa"]);
    let first = actor.handle_io_complete(
        now(),
        IoResult { task_id: loads[0].0, payload: DocumentIoResult::Storage(StorageResult::LoadRange { values: vec![] }) },
    );
    assert!(first.is_ok());
    let second = actor.handle_io_complete(
        now(),
        IoResult {
            task_id: loads[1].0,
            payload: DocumentIoResult::Storage(StorageResult::LoadRange { values: vec![(key, vec![1, 2])] }),
        },
    );
    assert!(second.is_ok());
    // The load is done: nothing waits for its tasks any more.
    let again = actor.handle_io_complete(
        now(),
        IoResult { task_id: loads[1].0, payload: DocumentIoResult::Storage(StorageResult::Put) },
    );
    assert_eq!(again.err(), Some(DocumentError::UnexpectedStorageResult(loads[1].0)));
}

#[test]
fn policy_answer_is_taken_once() {
    let (mut actor, _, _) = spawn(None, vec![]);
    let out = actor
        .handle_message(now(), HubToDocMsgPayload::NewConnection { connection_id: ConnectionId::from_u64(4), peer_id: PeerId::from_str("carol") })
        .unwrap();
    let asked = policy_tasks(&out);
    assert_eq!(asked.len(), 1);
    assert_eq!(asked[0].1, "carol");
    let id = asked[0].0;
    let r = actor.handle_io_complete(now(), IoResult { task_id: id, payload: DocumentIoResult::CheckAnnouncePolicy(true) });
    assert!(r.is_ok());
    assert!(policy_tasks(&r.unwrap()).is_empty());
    let r = actor.handle_io_complete(now(), IoResult { task_id: id, payload: DocumentIoResult::CheckAnnouncePolicy(true) });
    assert_eq!(r.err(), Some(DocumentError::UnexpectedPolicyCompletion(id)));
}

#[test]
fn closed_connection_is_not_broadcast_to() {
    let (mut actor, _, _) = spawn(
        None,
        vec![(ConnectionId::from_u64(1), PeerId::from_str("bob")), (ConnectionId::from_u64(2), PeerId::from_str("carol"))],
    );
    actor.handle_message(now(), HubToDocMsgPayload::ConnectionClosed { connection_id: ConnectionId::from_u64(1) }).unwrap();
    let out = actor.broadcast(now(), vec![42]);
    assert_eq!(out.outgoing_messages.len(), 1);
    match &out.outgoing_messages[0] {
        DocToHubMsgPayload::Broadcast { connections, msg: Broadcast::New { msg } } => {
            assert_eq!(connections.iter().map(|c| c.as_u64()).collect::<Vec<_>>(), vec![2]);
            assert_eq!(msg, &vec![42]);
        },
        other => panic!("unexpected message {:?}", other),
    }
}

#[test]
fn terminating_waits_for_the_last_write() {
    let mut content = automerge::Automerge::new();
    content
        .transact(|tx| {
            tx.put(automerge::ROOT, "k", 1_i64)?;
            Ok::<_, automerge::AutomergeError>(())
        })
        .unwrap();
    let (mut actor, out, _) = spawn(Some(content), vec![]);
    assert!(actor.is_document_ready());
    let writes: Vec<IoTaskId> = out
        .io_tasks
        .iter()
        .filter_map(|t| match &t.action {
            DocumentIoTask::Storage(StorageTask::Put { .. }) => Some(t.task_id),
            _ => None,
        })
        .collect();
    assert_eq!(writes.len(), 1);
    let r = actor.handle_message(now(), HubToDocMsgPayload::Terminate).unwrap();
    assert!(!r.stopped);
    assert!(r.outgoing_messages.is_empty());
    assert!(!actor.is_stopped());
    let r = actor
        .handle_io_complete(now(), IoResult { task_id: writes[0], payload: DocumentIoResult::Storage(StorageResult::Put) })
        .unwrap();
    assert!(r.stopped);
    assert!(matches!(r.outgoing_messages[0], DocToHubMsgPayload::Terminated));
    assert!(actor.is_stopped());
    assert_eq!(
        actor.handle_message(now(), HubToDocMsgPayload::Terminate).err(),
        Some(DocumentError::ActorStopped)
    );
}

#[test]
fn an_actor_without_content_is_not_ready() {
    let (actor, _, _) = spawn(None, vec![]);
    assert!(!actor.is_document_ready());
}
