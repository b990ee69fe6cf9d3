//! The decisions of the loop that runs one connection of a repository: what
//! each thing that happens on the connection leads to.

use vstd::prelude::*;

use crate::hub::{Command, HubEvent, HubInput};
use crate::network::ConnectionId;

verus! {

/// Why a connection's loop finished.
#[derive(Debug, Clone, PartialEq, Eq)]
pub enum ConnFinishedReason {
    /// The repository stopped.
    Shutdown,
    /// The peer's stream ended.
    TheyDisconnected,
    /// We closed the connection.
    WeDisconnected,
    /// Receiving failed, with the error's text.
    ErrorReceiving(String),
    /// Sending failed, with the error's text.
    ErrorSending(String),
}

/// Something that happened on a connection.
#[derive(Debug)]
pub enum ConnLoopEvent {
    /// The peer's stream gave a message, or an error's text.
    Inbound(Result<Vec<u8>, String>),
    /// The peer's stream ended.
    InboundEnded,
    /// The hub has a message to send.
    Outbound(Vec<u8>),
    /// The hub closed the outbound channel.
    OutboundEnded,
    /// Sending a message failed, with the error's text.
    SendFailed(String),
}

/// What the loop does next.
#[derive(Debug)]
pub enum ConnLoopAction {
    /// Hand this event to the hub, and go on.
    ToHub(HubEvent),
    /// Send these bytes to the peer, and go on.
    Send(Vec<u8>),
    /// Finish with this reason, first handing `lost` to the hub if there
    /// is one.
    Finish { reason: ConnFinishedReason, lost: Option<HubEvent> },
}

/// The loss of connection `c`, unless we closed it ourselves.
pub open spec fn lost_unless_ours(c: ConnectionId, reason: ConnFinishedReason, lost: Option<HubEvent>) -> bool {
    if reason == ConnFinishedReason::WeDisconnected {
        lost is None
    } else {
        lost matches Some(e) && e == HubEvent::Input(HubInput::ConnectionLost { connection_id: c })
    }
}

/// Decides what the loop of connection `connection_id` does with an event:
/// an inbound message goes to the hub as a receive command; an inbound
/// error, the end of the peer's stream, a failed send and the end of the
/// outbound channel finish the loop (with the hub told of the lost
/// connection in every case but the last); an outbound message is sent.
pub fn connection_step(connection_id: ConnectionId, ev: ConnLoopEvent) -> (r: ConnLoopAction)
    ensures
        match ev {
            ConnLoopEvent::Inbound(Ok(msg)) => r matches ConnLoopAction::ToHub(e) && e matches HubEvent::Input(
                HubInput::Command { command: Command::Receive { connection_id: c, msg: m }, .. },
            ) && c == connection_id && m@ == msg@,
            ConnLoopEvent::Inbound(Err(e)) => r matches ConnLoopAction::Finish { reason, lost }
                && reason == ConnFinishedReason::ErrorReceiving(e) && lost_unless_ours(connection_id, reason, lost),
            ConnLoopEvent::InboundEnded => r matches ConnLoopAction::Finish { reason, lost }
                && reason == ConnFinishedReason::TheyDisconnected && lost_unless_ours(connection_id, reason, lost),
            ConnLoopEvent::Outbound(msg) => r matches ConnLoopAction::Send(m) && m@ == msg@,
            ConnLoopEvent::OutboundEnded => r matches ConnLoopAction::Finish { reason, lost }
                && reason == ConnFinishedReason::WeDisconnected && lost_unless_ours(connection_id, reason, lost),
            ConnLoopEvent::SendFailed(e) => r matches ConnLoopAction::Finish { reason, lost }
                && reason == ConnFinishedReason::ErrorSending(e) && lost_unless_ours(connection_id, reason, lost),
        },
{
    match ev {
        ConnLoopEvent::Inbound(Ok(msg)) => ConnLoopAction::ToHub(HubEvent::receive(connection_id, msg).event),
        ConnLoopEvent::Inbound(Err(e)) => ConnLoopAction::Finish {
            reason: ConnFinishedReason::ErrorReceiving(e),
            lost: Some(HubEvent::connection_lost(connection_id)),
        },
        ConnLoopEvent::InboundEnded => ConnLoopAction::Finish {
            reason: ConnFinishedReason::TheyDisconnected,
            lost: Some(HubEvent::connection_lost(connection_id)),
        },
        ConnLoopEvent::Outbound(msg) => ConnLoopAction::Send(msg),
        ConnLoopEvent::OutboundEnded => ConnLoopAction::Finish { reason: ConnFinishedReason::WeDisconnected, lost: None },
        ConnLoopEvent::SendFailed(e) => ConnLoopAction::Finish {
            reason: ConnFinishedReason::ErrorSending(e),
            lost: Some(HubEvent::connection_lost(connection_id)),
        },
    }
}

} // verus!
