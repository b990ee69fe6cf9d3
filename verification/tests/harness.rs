use samod::harness::SamodWrapper;
use samod::hub::HubEvent;
use samod::ids::{DocumentId, PeerId};
use samod::memory_storage::MemoryStorage;
use samod::network::{ConnectionEvent, ConnectionId};
use samod::{StorageKey, UnixTimestamp};

fn wrapper(name: &str) -> SamodWrapper {
    SamodWrapper::new(name.to_string(), UnixTimestamp::from_millis(1_000))
}

/// Delivers what each side sent to the other until both are quiet.
fn exchange(a: &mut SamodWrapper, a_conn: ConnectionId, b: &mut SamodWrapper, b_conn: ConnectionId) {
    for _ in 0..10 {
        let from_a = a.take_outbox();
        let from_b = b.take_outbox();
        if from_a.is_empty() && from_b.is_empty() {
            return;
        }
        for (c, msg) in from_a {
            assert_eq!(c, a_conn);
            b.push_event(HubEvent::receive(b_conn, msg).event);
        }
        b.handle_events();
        for (c, msg) in from_b {
            assert_eq!(c, b_conn);
            a.push_event(HubEvent::receive(a_conn, msg).event);
        }
        a.handle_events();
    }
    panic!("the peers kept talking");
}

#[test]
fn new_wrapper_stores_its_storage_id() {
    let w = wrapper("alice");
    let id = w.storage_id();
    assert_eq!(id.as_str().len(), 32);
    let stored = w.storage().load(&StorageKey::storage_id_path());
    assert_eq!(stored, Some(id.as_str().as_bytes().to_vec()));
    assert_eq!(w.peer_id(), PeerId::from_str("alice"));
    assert_eq!(w.actor_count(), 0);
    assert!(w.connections().is_empty());
}

#[test]
fn a_stored_storage_id_is_reused() {
    let mut storage = MemoryStorage::new();
    storage.put(StorageKey::storage_id_path(), b"kept-id".to_vec());
    let w = SamodWrapper::new_with_storage("bob".to_string(), storage, UnixTimestamp::from_millis(5));
    assert_eq!(w.storage_id().as_str(), "kept-id");
    assert_eq!(w.storage().entries().len(), 1);
}

#[test]
fn a_stored_id_that_is_not_text_is_replaced() {
    let mut storage = MemoryStorage::new();
    storage.put(StorageKey::storage_id_path(), vec![0xff, 0xfe]);
    let w = SamodWrapper::new_with_storage("bob".to_string(), storage, UnixTimestamp::from_millis(5));
    let id = w.storage_id();
    assert_eq!(id.as_str().len(), 32);
    assert_eq!(w.storage().load(&StorageKey::storage_id_path()), Some(id.as_str().as_bytes().to_vec()));
}

#[test]
fn an_outgoing_connection_sends_a_join() {
    let mut w = wrapper("alice");
    let conn = w.create_connection();
    assert_eq!(w.connections().len(), 1);
    let sent = w.take_outbox();
    assert_eq!(sent.len(), 1);
    assert_eq!(sent[0].0, conn);
    assert!(w.take_outbox().is_empty());
}

#[test]
fn an_incoming_connection_waits() {
    let mut w = wrapper("bob");
    let _conn = w.create_incoming_connection();
    assert_eq!(w.connections().len(), 1);
    assert!(w.take_outbox().is_empty());
    assert!(w.established_peers().is_empty());
}

#[test]
fn two_peers_complete_the_handshake() {
    let mut alice = wrapper("alice");
    let mut bob = wrapper("bob");
    let a_conn = alice.create_connection();
    let b_conn = bob.create_incoming_connection();
    exchange(&mut alice, a_conn, &mut bob, b_conn);

    assert!(alice.is_connected_to(&PeerId::from_str("bob")));
    assert!(bob.is_connected_to(&PeerId::from_str("alice")));
    assert!(!alice.is_connected_to(&PeerId::from_str("carol")));
    let peers = alice.established_peers();
    assert_eq!(peers.len(), 1);
    assert_eq!(peers[0].0, a_conn);
    assert_eq!(peers[0].1, PeerId::from_str("bob"));
    assert!(alice
        .connection_events()
        .iter()
        .any(|e| matches!(e, ConnectionEvent::HandshakeCompleted { connection_id, .. } if *connection_id == a_conn)));
    alice.clear_connection_events();
    assert!(alice.connection_events().is_empty());
}

#[test]
fn finding_a_document_starts_an_actor() {
    let mut w = wrapper("alice");
    let doc = DocumentId::new();
    let cmd = w.start_find_document(&doc);
    assert_eq!(w.actor_count(), 1);
    // No actor runs here, so the result has not come yet.
    assert_eq!(w.check_find_document_result(cmd), None);
    let cmd2 = w.start_find_document(&doc);
    assert_eq!(w.actor_count(), 1);
    assert_eq!(w.check_find_document_result(cmd2), None);
}

#[test]
fn creating_a_document_starts_an_actor() {
    let mut w = wrapper("alice");
    let cmd = w.start_create_document();
    assert_eq!(w.actor_count(), 1);
    assert!(w.check_create_document_result(cmd).is_none());
}

#[test]
fn storage_can_be_changed_in_place() {
    let mut w = wrapper("alice");
    w.storage_mut().put(StorageKey::from_parts(&["extra"]), vec![1]);
    assert_eq!(w.storage().load(&StorageKey::from_parts(&["extra"])), Some(vec![1]));
    assert_eq!(w.storage().entries().len(), 2);
}

#[test]
fn stopping_a_hub_without_documents() {
    let mut w = wrapper("alice");
    let _ = w.create_connection();
    let _ = w.take_outbox();
    w.stop();
    assert!(w.connections().len() <= 1);
    assert!(w.take_outbox().is_empty());
}

#[test]
fn handshake_event_carries_the_peer_info() {
    let mut alice = wrapper("alice");
    let mut bob = wrapper("bob");
    let a_conn = alice.create_connection();
    let b_conn = bob.create_incoming_connection();
    exchange(&mut alice, a_conn, &mut bob, b_conn);
    let info = alice
        .connection_events()
        .iter()
        .find_map(|e| match e {
            ConnectionEvent::HandshakeCompleted { connection_id, peer_info } if *connection_id == a_conn => Some(peer_info),
            _ => None,
        })
        .expect("no handshake event");
    assert_eq!(info.peer_id, PeerId::from_str("bob"));
    assert_eq!(info.protocol_version, "1");
    assert_eq!(info.metadata.as_ref().map(|m| m.is_ephemeral), Some(false));
}

#[test]
fn the_join_names_the_peer_and_protocol() {
    let mut w = wrapper("alice");
    let conn = w.create_connection();
    let sent = w.take_outbox();
    assert_eq!(sent[0].0, conn);
    match samod::wire_protocol::WireMessage::decode(&sent[0].1) {
        Ok(samod::wire_protocol::WireMessage::Join { sender_id, supported_protocol_versions, metadata }) => {
            assert_eq!(sender_id, PeerId::from_str("alice"));
            assert_eq!(supported_protocol_versions, vec!["1".to_string()]);
            let m = metadata.expect("no metadata");
            assert!(!m.is_ephemeral);
        },
        other => panic!("unexpected message {:?}", other),
    }
}

#[test]
fn a_new_connection_is_handshaking() {
    let mut w = wrapper("alice");
    let conn = w.create_connection();
    let infos = w.connections();
    assert_eq!(infos.len(), 1);
    assert_eq!(infos[0].id, conn);
    assert!(matches!(infos[0].state, samod::network::ConnectionState::Handshaking));
    assert_eq!(w.take_outbox().len(), 1);
}
