//! What a document actor hands back after each step, and its errors.

use vstd::prelude::*;

use crate::hashes::ChangeHash;
use crate::ids::PeerId;
use crate::io::{IoTask, IoTaskId, StorageTask, StorageTaskView};
use crate::messages::DocToHubMsgPayload;
use crate::network::hashes_view;
use crate::storage_key::StorageKey;

verus! {

/// I/O a document actor asks for.
#[derive(Debug)]
pub enum DocumentIoTask {
    /// A storage request.
    Storage(StorageTask),
    /// Ask whether the document may be announced to a peer.
    CheckAnnouncePolicy { peer_id: PeerId },
}

/// The abstract value of a [`DocumentIoTask`].
pub enum DocumentIoTaskView {
    Storage(StorageTaskView),
    CheckAnnouncePolicy { peer_id: Seq<char> },
}

impl View for DocumentIoTask {
    type V = DocumentIoTaskView;

    open spec fn view(&self) -> DocumentIoTaskView {
        match self {
            DocumentIoTask::Storage(t) => DocumentIoTaskView::Storage(t@),
            DocumentIoTask::CheckAnnouncePolicy { peer_id } => DocumentIoTaskView::CheckAnnouncePolicy { peer_id: peer_id@ },
        }
    }
}

/// The new heads of a document that changed.
#[derive(Debug)]
pub struct DocumentChanged {
    pub new_heads: Vec<ChangeHash>,
}

/// Result of processing a message or an I/O completion.
#[derive(Debug)]
pub struct DocActorResult {
    /// Document I/O tasks that need to be executed by the caller.
    pub io_tasks: Vec<IoTask<DocumentIoTask>>,
    /// Messages to send back to the hub.
    pub outgoing_messages: Vec<DocToHubMsgPayload>,
    /// New ephemeral messages.
    pub ephemeral_messages: Vec<Vec<u8>>,
    /// Change events.
    pub change_events: Vec<DocumentChanged>,
    /// Whether this document actor is stopped.
    pub stopped: bool,
}

/// The tasks of a result, by ID and action.
pub open spec fn doc_tasks_view(v: Seq<IoTask<DocumentIoTask>>) -> Seq<(u64, DocumentIoTaskView)> {
    v.map_values(|t: IoTask<DocumentIoTask>| (t.task_id.value(), t.action@))
}

/// The heads of each change event.
pub open spec fn change_events_view(v: Seq<DocumentChanged>) -> Seq<Seq<Seq<u8>>> {
    v.map_values(|e: DocumentChanged| hashes_view(e.new_heads@))
}

/// The ephemeral messages of a result.
pub open spec fn ephemeral_view(v: Seq<Vec<u8>>) -> Seq<Seq<u8>> {
    v.map_values(|m: Vec<u8>| m@)
}

impl DocActorResult {
    /// The tasks, by ID and action.
    pub open spec fn tasks(&self) -> Seq<(u64, DocumentIoTaskView)> {
        doc_tasks_view(self.io_tasks@)
    }

    /// An empty result.
    pub fn new() -> (r: DocActorResult)
        ensures
            r.tasks().len() == 0,
            r.outgoing_messages@.len() == 0,
            r.ephemeral_messages@.len() == 0,
            r.change_events@.len() == 0,
            !r.stopped,
    {
        DocActorResult {
            io_tasks: Vec::new(),
            outgoing_messages: Vec::new(),
            ephemeral_messages: Vec::new(),
            change_events: Vec::new(),
            stopped: false,
        }
    }

    /// Records a new ephemeral message.
    pub fn emit_ephemeral_message(&mut self, msg: Vec<u8>)
        ensures
            ephemeral_view(final(self).ephemeral_messages@) == ephemeral_view(old(self).ephemeral_messages@).push(msg@),
            final(self).io_tasks@ == old(self).io_tasks@,
            final(self).outgoing_messages@ == old(self).outgoing_messages@,
            final(self).change_events@ == old(self).change_events@,
            final(self).stopped == old(self).stopped,
    {
        let ghost m = msg@;
        let ghost before = self.ephemeral_messages@;
        self.ephemeral_messages.push(msg);
        proof {
            assert(ephemeral_view(self.ephemeral_messages@) =~= ephemeral_view(before).push(m));
        }
    }

    /// Records that the document changed, with its new heads.
    pub fn emit_doc_changed(&mut self, new_heads: Vec<ChangeHash>)
        ensures
            change_events_view(final(self).change_events@) == change_events_view(old(self).change_events@).push(hashes_view(new_heads@)),
            final(self).io_tasks@ == old(self).io_tasks@,
            final(self).outgoing_messages@ == old(self).outgoing_messages@,
            final(self).ephemeral_messages@ == old(self).ephemeral_messages@,
            final(self).stopped == old(self).stopped,
    {
        let ghost h = hashes_view(new_heads@);
        let ghost before = self.change_events@;
        self.change_events.push(DocumentChanged { new_heads });
        proof {
            assert(change_events_view(self.change_events@) =~= change_events_view(before).push(h));
        }
    }

    /// Queues a message for the hub.
    pub fn send_message(&mut self, message: DocToHubMsgPayload)
        ensures
            final(self).outgoing_messages@ == old(self).outgoing_messages@.push(message),
            final(self).io_tasks@ == old(self).io_tasks@,
            final(self).ephemeral_messages@ == old(self).ephemeral_messages@,
            final(self).change_events@ == old(self).change_events@,
            final(self).stopped == old(self).stopped,
    {
        self.outgoing_messages.push(message);
    }

    /// Asks for a value to be written under a key; returns the task's ID.
    pub fn put(&mut self, key: StorageKey, value: Vec<u8>) -> (r: IoTaskId)
        ensures
            final(self).tasks() == old(self).tasks().push(
                (r.value(), DocumentIoTaskView::Storage(StorageTaskView::Put { key: key@, value: value@ })),
            ),
            final(self).outgoing_messages@ == old(self).outgoing_messages@,
            final(self).ephemeral_messages@ == old(self).ephemeral_messages@,
            final(self).change_events@ == old(self).change_events@,
            final(self).stopped == old(self).stopped,
    {
        self.enqueue_task(DocumentIoTask::Storage(StorageTask::Put { key, value }))
    }

    /// Asks for the value under a key to be removed; returns the task's ID.
    pub fn delete(&mut self, key: StorageKey) -> (r: IoTaskId)
        ensures
            final(self).tasks() == old(self).tasks().push(
                (r.value(), DocumentIoTaskView::Storage(StorageTaskView::Delete { key: key@ })),
            ),
            final(self).outgoing_messages@ == old(self).outgoing_messages@,
            final(self).ephemeral_messages@ == old(self).ephemeral_messages@,
            final(self).change_events@ == old(self).change_events@,
            final(self).stopped == old(self).stopped,
    {
        self.enqueue_task(DocumentIoTask::Storage(StorageTask::Delete { key }))
    }

    /// Asks whether the document may be announced to a peer; returns the
    /// task's ID.
    pub fn check_announce_policy(&mut self, peer_id: PeerId) -> (r: IoTaskId)
        ensures
            final(self).tasks() == old(self).tasks().push(
                (r.value(), DocumentIoTaskView::CheckAnnouncePolicy { peer_id: peer_id@ }),
            ),
            final(self).outgoing_messages@ == old(self).outgoing_messages@,
            final(self).ephemeral_messages@ == old(self).ephemeral_messages@,
            final(self).change_events@ == old(self).change_events@,
            final(self).stopped == old(self).stopped,
    {
        self.enqueue_task(DocumentIoTask::CheckAnnouncePolicy { peer_id })
    }

    /// Queues a task under a fresh ID, and returns the ID.
    fn enqueue_task(&mut self, task: DocumentIoTask) -> (r: IoTaskId)
        ensures
            final(self).tasks() == old(self).tasks().push((r.value(), task@)),
            final(self).outgoing_messages@ == old(self).outgoing_messages@,
            final(self).ephemeral_messages@ == old(self).ephemeral_messages@,
            final(self).change_events@ == old(self).change_events@,
            final(self).stopped == old(self).stopped,
    {
        let ghost before = self.tasks();
        let ghost tv = task@;
        let io_task = IoTask::new(task);
        let task_id = io_task.task_id;
        self.io_tasks.push(io_task);
        proof {
            assert(self.tasks() =~= before.push((task_id.value(), tv)));
        }
        task_id
    }
}

/// Errors of document operations.
#[derive(Debug, Clone, PartialEq, Eq)]
pub enum DocumentError {
    /// The document is not loaded yet.
    DocumentNotReady,
    /// The document actor is in a state that does not allow the operation.
    InvalidState(String),
    /// The document actor has stopped.
    ActorStopped,
    /// A storage result came for a task nobody waits for.
    UnexpectedStorageResult(IoTaskId),
    /// An announce policy answer came for a task nobody waits for.
    UnexpectedPolicyCompletion(IoTaskId),
}

} // verus!
