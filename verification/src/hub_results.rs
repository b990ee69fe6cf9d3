//! What one step of the hub hands back to the code that drives it.

use vstd::prelude::*;

use crate::ids::{random_u64, DocumentId};
use crate::io::IoTask;
use crate::messages::{DocumentActorId, HubToDocMsgPayload, HubToDocMsgView, SpawnArgs, SpawnArgsView};
use crate::network::{ConnectionEvent, ConnectionEventView, ConnectionId};

verus! {

/// Network I/O the hub asks for.
#[derive(Debug)]
pub enum HubIoAction {
    /// Send bytes on a connection.
    Send { connection_id: ConnectionId, msg: Vec<u8> },
    /// Close a connection.
    Disconnect { connection_id: ConnectionId },
}

/// The abstract value of a [`HubIoAction`].
pub enum HubIoActionView {
    Send { connection_id: u64, msg: Seq<u8> },
    Disconnect { connection_id: u64 },
}

impl View for HubIoAction {
    type V = HubIoActionView;

    open spec fn view(&self) -> HubIoActionView {
        match self {
            HubIoAction::Send { connection_id, msg } => HubIoActionView::Send { connection_id: connection_id.value(), msg: msg@ },
            HubIoAction::Disconnect { connection_id } => HubIoActionView::Disconnect { connection_id: connection_id.value() },
        }
    }
}

/// The result of a network I/O action.
#[derive(Debug)]
pub enum HubIoResult {
    Send,
    Disconnect,
}

/// Identifies a command given to the hub.
#[derive(Debug, Clone, Copy, PartialEq, Eq, Hash, Structural)]
pub struct CommandId {
    id: u64,
}

impl CommandId {
    /// A fresh random command ID.
    pub fn new() -> (r: CommandId) {
        CommandId { id: random_u64() }
    }

    /// The command ID with the given number.
    pub fn from_u64(id: u64) -> (r: CommandId)
        ensures
            r.value() == id,
    {
        CommandId { id }
    }

    /// The number of the command ID.
    pub closed spec fn value(self) -> u64 {
        self.id
    }

    /// The number of the command ID.
    pub fn as_u64(&self) -> (r: u64)
        ensures
            r == self.value(),
    {
        self.id
    }
}

/// Command IDs are equal exactly when their numbers are.
pub proof fn lemma_command_id_eq(a: CommandId, b: CommandId)
    ensures
        (a == b) <==> (a.value() == b.value()),
{
}

/// The outcome of a command.
#[derive(Debug)]
pub enum CommandResult {
    /// A connection was created.
    CreateConnection { connection_id: ConnectionId },
    /// Bytes were received on a connection; `error` says what went wrong.
    Receive { connection_id: ConnectionId, error: Option<String> },
    /// An actor is ready.
    ActorReady,
    /// A document was created and is run by the actor.
    CreateDocument { document_id: DocumentId, actor_id: DocumentActorId },
    /// Whether the document was found, and the actor that looked for it.
    FindDocument { found: bool, actor_id: DocumentActorId },
}

/// The abstract value of a [`CommandResult`].
pub enum CommandResultView {
    CreateConnection { connection_id: u64 },
    Receive { connection_id: u64, error: Option<Seq<char>> },
    ActorReady,
    CreateDocument { document_id: Seq<u8>, actor_id: u64 },
    FindDocument { found: bool, actor_id: u64 },
}

impl View for CommandResult {
    type V = CommandResultView;

    open spec fn view(&self) -> CommandResultView {
        match self {
            CommandResult::CreateConnection { connection_id } => CommandResultView::CreateConnection {
                connection_id: connection_id.value(),
            },
            CommandResult::Receive { connection_id, error } => CommandResultView::Receive {
                connection_id: connection_id.value(),
                error: match error {
                    Some(e) => Some(e@),
                    None => None,
                },
            },
            CommandResult::ActorReady => CommandResultView::ActorReady,
            CommandResult::CreateDocument { document_id, actor_id } => CommandResultView::CreateDocument {
                document_id: document_id@,
                actor_id: actor_id.value(),
            },
            CommandResult::FindDocument { found, actor_id } => CommandResultView::FindDocument {
                found: *found,
                actor_id: actor_id.value(),
            },
        }
    }
}

/// Everything a step of the hub produced.
#[derive(Debug)]
pub struct HubResults {
    /// Network I/O to perform.
    pub new_tasks: Vec<IoTask<HubIoAction>>,
    /// Commands that finished, with their results.
    pub completed_commands: Vec<(CommandId, CommandResult)>,
    /// Document actors to start.
    pub spawn_actors: Vec<SpawnArgs>,
    /// Messages to deliver to document actors.
    pub actor_messages: Vec<(DocumentActorId, HubToDocMsgPayload)>,
    /// Things that happened to connections.
    pub connection_events: Vec<ConnectionEvent>,
    /// Whether the hub has stopped.
    pub stopped: bool,
}

/// The abstract value of [`HubResults`]; I/O tasks are seen by their action.
pub struct HubResultsView {
    pub tasks: Seq<HubIoActionView>,
    pub completed: Seq<(u64, CommandResultView)>,
    pub spawned: Seq<SpawnArgsView>,
    pub actor_messages: Seq<(u64, HubToDocMsgView)>,
    pub events: Seq<ConnectionEventView>,
    pub stopped: bool,
}

/// The actions of a list of tasks.
pub open spec fn tasks_view(v: Seq<IoTask<HubIoAction>>) -> Seq<HubIoActionView> {
    v.map_values(|t: IoTask<HubIoAction>| t.action@)
}

/// The view of finished commands.
pub open spec fn completed_view(v: Seq<(CommandId, CommandResult)>) -> Seq<(u64, CommandResultView)> {
    v.map_values(|e: (CommandId, CommandResult)| (e.0.value(), e.1@))
}

/// The view of spawn requests.
pub open spec fn spawned_view(v: Seq<SpawnArgs>) -> Seq<SpawnArgsView> {
    v.map_values(|a: SpawnArgs| a@)
}

/// The view of messages to actors.
pub open spec fn actor_messages_view(v: Seq<(DocumentActorId, HubToDocMsgPayload)>) -> Seq<(u64, HubToDocMsgView)> {
    v.map_values(|e: (DocumentActorId, HubToDocMsgPayload)| (e.0.value(), e.1@))
}

/// The view of connection events.
pub open spec fn events_view(v: Seq<ConnectionEvent>) -> Seq<ConnectionEventView> {
    v.map_values(|e: ConnectionEvent| e@)
}

impl View for HubResults {
    type V = HubResultsView;

    open spec fn view(&self) -> HubResultsView {
        HubResultsView {
            tasks: tasks_view(self.new_tasks@),
            completed: completed_view(self.completed_commands@),
            spawned: spawned_view(self.spawn_actors@),
            actor_messages: actor_messages_view(self.actor_messages@),
            events: events_view(self.connection_events@),
            stopped: self.stopped,
        }
    }
}

impl HubResultsView {
    /// The same results with one more I/O action.
    pub open spec fn with_task(self, a: HubIoActionView) -> HubResultsView {
        HubResultsView { tasks: self.tasks.push(a), ..self }
    }

    /// The same results with one more connection event.
    pub open spec fn with_event(self, e: ConnectionEventView) -> HubResultsView {
        HubResultsView { events: self.events.push(e), ..self }
    }

    /// The same results with one more message to an actor.
    pub open spec fn with_actor_message(self, actor: u64, m: HubToDocMsgView) -> HubResultsView {
        HubResultsView { actor_messages: self.actor_messages.push((actor, m)), ..self }
    }

    /// The same results with one more finished command.
    pub open spec fn with_completed(self, c: u64, r: CommandResultView) -> HubResultsView {
        HubResultsView { completed: self.completed.push((c, r)), ..self }
    }

    /// The same results with one more actor to start.
    pub open spec fn with_spawn(self, a: SpawnArgsView) -> HubResultsView {
        HubResultsView { spawned: self.spawned.push(a), ..self }
    }
}

impl HubResults {
    /// Results with nothing in them.
    pub fn new() -> (r: HubResults)
        ensures
            r@ == (HubResultsView {
                tasks: Seq::empty(),
                completed: Seq::empty(),
                spawned: Seq::empty(),
                actor_messages: Seq::empty(),
                events: Seq::empty(),
                stopped: false,
            }),
    {
        let r = HubResults {
            new_tasks: Vec::new(),
            completed_commands: Vec::new(),
            spawn_actors: Vec::new(),
            actor_messages: Vec::new(),
            connection_events: Vec::new(),
            stopped: false,
        };
        proof {
            assert(r@.tasks =~= Seq::empty());
            assert(r@.completed =~= Seq::empty());
            assert(r@.spawned =~= Seq::empty());
            assert(r@.actor_messages =~= Seq::empty());
            assert(r@.events =~= Seq::empty());
        }
        r
    }

    /// Asks for `msg` to be sent on a connection.
    pub fn send(&mut self, connection_id: ConnectionId, msg: Vec<u8>)
        ensures
            final(self)@ == old(self)@.with_task(HubIoActionView::Send { connection_id: connection_id.value(), msg: msg@ }),
    {
        self.emit_io_action(HubIoAction::Send { connection_id, msg });
    }

    /// Asks for an I/O action.
    pub fn emit_io_action(&mut self, action: HubIoAction)
        ensures
            final(self)@ == old(self)@.with_task(action@),
    {
        let ghost before = self@;
        self.new_tasks.push(IoTask::new(action));
        proof {
            assert(self@.tasks =~= before.tasks.push(action@));
        }
    }

    /// Records a connection event.
    pub fn emit_connection_event(&mut self, event: ConnectionEvent)
        ensures
            final(self)@ == old(self)@.with_event(event@),
    {
        let ghost before = self@;
        let ghost ev = event@;
        self.connection_events.push(event);
        proof {
            assert(self@.events =~= before.events.push(ev));
        }
    }

    /// Records that a connection failed, with the reason.
    pub fn emit_disconnect_event(&mut self, connection_id: ConnectionId, error: String)
        ensures
            final(self)@ == old(self)@.with_event(ConnectionEventView::ConnectionFailed {
                connection_id: connection_id.value(),
                error: error@,
            }),
    {
        self.emit_connection_event(ConnectionEvent::ConnectionFailed { connection_id, error });
    }

    /// Queues a message for a document actor.
    pub fn send_to_doc_actor(&mut self, actor_id: DocumentActorId, msg: HubToDocMsgPayload)
        ensures
            final(self)@ == old(self)@.with_actor_message(actor_id.value(), msg@),
    {
        let ghost before = self@;
        let ghost mv = msg@;
        self.actor_messages.push((actor_id, msg));
        proof {
            assert(self@.actor_messages =~= before.actor_messages.push((actor_id.value(), mv)));
        }
    }

    /// Asks for a document actor to be started.
    pub fn emit_spawn_actor(&mut self, args: SpawnArgs)
        ensures
            final(self)@ == old(self)@.with_spawn(args@),
    {
        let ghost before = self@;
        let ghost av = args@;
        self.spawn_actors.push(args);
        proof {
            assert(self@.spawned =~= before.spawned.push(av));
        }
    }

    /// Records that a command finished.
    pub fn complete_command(&mut self, command_id: CommandId, result: CommandResult)
        ensures
            final(self)@ == old(self)@.with_completed(command_id.value(), result@),
    {
        let ghost before = self@;
        let ghost rv = result@;
        self.completed_commands.push((command_id, result));
        proof {
            assert(self@.completed =~= before.completed.push((command_id.value(), rv)));
        }
    }
}

} // verus!
