use samod::conn_loop::{connection_step, ConnFinishedReason, ConnLoopAction, ConnLoopEvent};
use samod::hub::{Command, HubEvent, HubInput};
use samod::network::ConnectionId;

fn conn() -> ConnectionId {
    ConnectionId::from_u64(7)
}

fn is_lost(e: &Option<HubEvent>) -> bool {
    matches!(e, Some(HubEvent::Input(HubInput::ConnectionLost { connection_id })) if connection_id.as_u64() == 7)
}

#[test]
fn inbound_message_goes_to_the_hub() {
    match connection_step(conn(), ConnLoopEvent::Inbound(Ok(vec![1, 2, 3]))) {
        ConnLoopAction::ToHub(HubEvent::Input(HubInput::Command { command: Command::Receive { connection_id, msg }, .. })) => {
            assert_eq!(connection_id.as_u64(), 7);
            assert_eq!(msg, vec![1, 2, 3]);
        },
        other => panic!("unexpected action {:?}", other),
    }
}

#[test]
fn inbound_error_finishes_with_error_receiving() {
    match connection_step(conn(), ConnLoopEvent::Inbound(Err("boom".to_string()))) {
        ConnLoopAction::Finish { reason, lost } => {
            assert_eq!(reason, ConnFinishedReason::ErrorReceiving("boom".to_string()));
            assert!(is_lost(&lost));
        },
        other => panic!("unexpected action {:?}", other),
    }
}

#[test]
fn stream_end_finishes_with_they_disconnected() {
    match connection_step(conn(), ConnLoopEvent::InboundEnded) {
        ConnLoopAction::Finish { reason, lost } => {
            assert_eq!(reason, ConnFinishedReason::TheyDisconnected);
            assert!(is_lost(&lost));
        },
        other => panic!("unexpected action {:?}", other),
    }
}

#[test]
fn outbound_message_is_sent() {
    match connection_step(conn(), ConnLoopEvent::Outbound(vec![9])) {
        ConnLoopAction::Send(m) => assert_eq!(m, vec![9]),
        other => panic!("unexpected action {:?}", other),
    }
}

#[test]
fn outbound_end_finishes_with_we_disconnected_and_no_loss() {
    match connection_step(conn(), ConnLoopEvent::OutboundEnded) {
        ConnLoopAction::Finish { reason, lost } => {
            assert_eq!(reason, ConnFinishedReason::WeDisconnected);
            assert!(lost.is_none());
        },
        other => panic!("unexpected action {:?}", other),
    }
}

#[test]
fn send_failure_finishes_with_error_sending() {
    match connection_step(conn(), ConnLoopEvent::SendFailed("closed".to_string())) {
        ConnLoopAction::Finish { reason, lost } => {
            assert_eq!(reason, ConnFinishedReason::ErrorSending("closed".to_string()));
            assert!(is_lost(&lost));
        },
        other => panic!("unexpected action {:?}", other),
    }
}
