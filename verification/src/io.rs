//! The I/O requests that the state machines hand out, and the results that
//! come back for them.

use vstd::prelude::*;

use crate::ids::random_u64;
use crate::storage_key::StorageKey;

verus! {

/// Identifies one I/O task, so that its result can be matched to it.
#[derive(Debug, Clone, Copy, PartialEq, Eq, Hash, Structural)]
pub struct IoTaskId {
    id: u64,
}

impl IoTaskId {
    /// A fresh random task ID.
    pub fn new() -> (r: IoTaskId) {
        IoTaskId { id: random_u64() }
    }

    /// The task ID with the given number.
    pub fn from_u64(id: u64) -> (r: IoTaskId)
        ensures
            r.value() == id,
    {
        IoTaskId { id }
    }

    /// The number of the task ID.
    pub closed spec fn value(self) -> u64 {
        self.id
    }

    /// The number of the task ID.
    pub fn as_u64(&self) -> (r: u64)
        ensures
            r == self.value(),
    {
        self.id
    }
}

/// Task IDs are equal exactly when their numbers are.
pub proof fn lemma_task_id_eq(a: IoTaskId, b: IoTaskId)
    ensures
        (a == b) <==> (a.value() == b.value()),
{
}

/// An I/O action together with the ID under which its result comes back.
#[derive(Debug)]
pub struct IoTask<A> {
    pub task_id: IoTaskId,
    pub action: A,
}

/// The result of an I/O task.
#[derive(Debug)]
pub struct IoResult<P> {
    pub task_id: IoTaskId,
    pub payload: P,
}

impl<A> IoTask<A> {
    /// A task with a fresh random ID.
    pub fn new(action: A) -> (r: IoTask<A>)
        ensures
            r.action == action,
    {
        IoTask { task_id: IoTaskId::new(), action }
    }
}

/// A request to the key/value storage.
#[derive(Debug)]
pub enum StorageTask {
    /// Read the value under a key.
    Load { key: StorageKey },
    /// Read every value whose key starts with a prefix.
    LoadRange { prefix: StorageKey },
    /// Write a value under a key.
    Put { key: StorageKey, value: Vec<u8> },
    /// Remove the value under a key.
    Delete { key: StorageKey },
}

/// What a storage request is, in terms of key components and bytes.
pub enum StorageTaskView {
    Load { key: Seq<Seq<char>> },
    LoadRange { prefix: Seq<Seq<char>> },
    Put { key: Seq<Seq<char>>, value: Seq<u8> },
    Delete { key: Seq<Seq<char>> },
}

impl View for StorageTask {
    type V = StorageTaskView;

    open spec fn view(&self) -> StorageTaskView {
        match self {
            StorageTask::Load { key } => StorageTaskView::Load { key: key@ },
            StorageTask::LoadRange { prefix } => StorageTaskView::LoadRange { prefix: prefix@ },
            StorageTask::Put { key, value } => StorageTaskView::Put { key: key@, value: value@ },
            StorageTask::Delete { key } => StorageTaskView::Delete { key: key@ },
        }
    }
}

/// The answer of the storage to a request.
#[derive(Debug)]
pub enum StorageResult {
    /// The value under the key, if there is one.
    Load { value: Option<Vec<u8>> },
    /// The entries under the prefix, one per key.
    LoadRange { values: Vec<(StorageKey, Vec<u8>)> },
    /// The value was written.
    Put,
    /// The value was removed.
    Delete,
}

/// The keys of a list of entries.
pub open spec fn entry_keys(values: Seq<(StorageKey, Vec<u8>)>) -> Seq<Seq<Seq<char>>> {
    values.map_values(|e: (StorageKey, Vec<u8>)| e.0@)
}

} // verus!
