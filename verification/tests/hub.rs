use samod::ephemera::EphemeralSession;
use samod::hub::{Hub, HubEvent, RunState};
use samod::hub_results::{CommandResult, HubIoAction, HubResults};
use samod::ids::{DocumentId, PeerId, StorageId};
use samod::network::{ConnDirection, ConnectionEvent, ConnectionId};
use samod::UnixTimestamp;
use samod::wire_protocol::WireMessage;

fn hub() -> Hub {
    Hub::new(StorageId::from_str("store"), PeerId::from_str("me"), EphemeralSession::new())
}

fn now() -> UnixTimestamp {
    UnixTimestamp::from_millis(100)
}

fn run(h: &mut Hub, event: HubEvent) -> HubResults {
    let mut results = HubResults::new();
    h.handle_event(now(), event, &mut results);
    results
}

#[test]
fn receiving_on_an_unknown_connection_is_reported() {
    let mut h = hub();
    let d = HubEvent::receive(ConnectionId::from_u64(77), vec![0xa0]);
    let id = d.command_id;
    let r = run(&mut h, d.event);
    assert_eq!(r.completed_commands.len(), 1);
    assert_eq!(r.completed_commands[0].0, id);
    match &r.completed_commands[0].1 {
        CommandResult::Receive { connection_id, error } => {
            assert_eq!(*connection_id, ConnectionId::from_u64(77));
            assert_eq!(error.as_deref(), Some("Connection not found"));
        },
        other => panic!("unexpected result {other:?}"),
    }
}

fn open(h: &mut Hub, direction: ConnDirection) -> (ConnectionId, HubResults) {
    let d = HubEvent::create_connection(direction);
    let r = run(h, d.event);
    let conn = match &r.completed_commands[0].1 {
        CommandResult::CreateConnection { connection_id } => *connection_id,
        other => panic!("unexpected result {other:?}"),
    };
    (conn, r)
}

#[test]
fn an_outgoing_connection_asks_to_send_a_join() {
    let mut h = hub();
    let (conn, r) = open(&mut h, ConnDirection::Outgoing);
    assert_eq!(r.new_tasks.len(), 1);
    assert!(matches!(&r.new_tasks[0].action, HubIoAction::Send { connection_id, .. } if *connection_id == conn));
    assert_eq!(h.connections().len(), 1);
}

#[test]
fn undecodable_bytes_drop_the_connection() {
    let mut h = hub();
    let (conn, _) = open(&mut h, ConnDirection::Incoming);
    let d = HubEvent::receive(conn, vec![0x01]);
    let r = run(&mut h, d.event);
    match &r.completed_commands[0].1 {
        CommandResult::Receive { error: Some(e), .. } => assert!(e.starts_with("Decode error: ")),
        other => panic!("unexpected result {other:?}"),
    }
    assert!(r
        .connection_events
        .iter()
        .any(|e| matches!(e, ConnectionEvent::ConnectionFailed { connection_id, error } if *connection_id == conn && error.starts_with("Message decode error: "))));
    assert!(h.connections().is_empty());
}

#[test]
fn a_lost_connection_is_reported() {
    let mut h = hub();
    let (conn, _) = open(&mut h, ConnDirection::Outgoing);
    let r = run(&mut h, HubEvent::connection_lost(conn));
    assert!(r
        .connection_events
        .iter()
        .any(|e| matches!(e, ConnectionEvent::ConnectionFailed { connection_id, error } if *connection_id == conn && error == "Connection lost externally")));
    assert!(h.connections().is_empty());
    // Losing it again changes nothing.
    let r = run(&mut h, HubEvent::connection_lost(conn));
    assert!(r.connection_events.is_empty());
}

#[test]
fn finding_a_document_twice_spawns_one_actor() {
    let mut h = hub();
    let doc = DocumentId::new();
    let r1 = run(&mut h, HubEvent::find_document(doc.clone()).event);
    assert_eq!(r1.spawn_actors.len(), 1);
    assert_eq!(r1.spawn_actors[0].document_id, doc);
    assert!(r1.completed_commands.is_empty());
    let r2 = run(&mut h, HubEvent::find_document(doc.clone()).event);
    assert!(r2.spawn_actors.is_empty());
    assert_eq!(h.actor_count(), 1);
}

#[test]
fn stopping_without_actors_stops_at_once() {
    let mut h = hub();
    let r = run(&mut h, HubEvent::tick());
    assert!(!r.stopped);
    let r = run(&mut h, HubEvent::stop());
    assert!(r.stopped);
    assert!(h.is_stopped());
    assert_eq!(h.run_state(), RunState::Stopped);
}

#[test]
fn stopping_with_actors_waits_for_them() {
    let mut h = hub();
    let _ = run(&mut h, HubEvent::find_document(DocumentId::new()).event);
    let r = run(&mut h, HubEvent::stop());
    assert!(!r.stopped);
    assert_eq!(r.actor_messages.len(), 1);
    assert_eq!(h.run_state(), RunState::Stopping);
}

#[test]
fn a_second_stop_sends_nothing() {
    let mut h = hub();
    let _ = run(&mut h, HubEvent::find_document(DocumentId::new()).event);
    let r = run(&mut h, HubEvent::stop());
    assert_eq!(r.actor_messages.len(), 1);
    let r = run(&mut h, HubEvent::stop());
    assert!(r.actor_messages.is_empty());
    assert!(r.new_tasks.is_empty());
    assert_eq!(h.run_state(), RunState::Stopping);
}

#[test]
fn a_second_ensure_connections_announces_nothing() {
    let mut h = hub();
    let _ = run(&mut h, HubEvent::find_document(DocumentId::new()).event);
    let _ = open(&mut h, ConnDirection::Outgoing);
    let _first = h.ensure_connections();
    let second = h.ensure_connections();
    assert!(second.is_empty());
}

fn joined_incoming(h: &mut Hub) -> ConnectionId {
    let (conn, _) = open(h, ConnDirection::Incoming);
    let join = WireMessage::Join {
        sender_id: PeerId::from_str("them"),
        supported_protocol_versions: vec!["1".to_string()],
        metadata: None,
    };
    let _ = run(h, HubEvent::receive(conn, join.encode()).event);
    conn
}

#[test]
fn a_sync_message_for_another_peer_is_ignored() {
    let mut h = hub();
    let conn = joined_incoming(&mut h);
    let msg = WireMessage::Sync {
        document_id: DocumentId::new(),
        sender_id: PeerId::from_str("them"),
        target_id: PeerId::from_str("someone-else"),
        data: vec![1, 2],
    };
    let r = run(&mut h, HubEvent::receive(conn, msg.encode()).event);
    assert!(r.spawn_actors.is_empty());
    assert!(r.actor_messages.is_empty());
    assert_eq!(h.actor_count(), 0);
}

#[test]
fn a_sync_message_for_us_starts_an_actor() {
    let mut h = hub();
    let conn = joined_incoming(&mut h);
    let msg = WireMessage::Sync {
        document_id: DocumentId::new(),
        sender_id: PeerId::from_str("them"),
        target_id: PeerId::from_str("me"),
        data: vec![1, 2],
    };
    let r = run(&mut h, HubEvent::receive(conn, msg.encode()).event);
    assert_eq!(r.spawn_actors.len(), 1);
    assert_eq!(h.actor_count(), 1);
}
