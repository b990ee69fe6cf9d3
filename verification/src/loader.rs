//! Loading a repository: finding the storage ID, or making and storing a
//! new one, before the hub can run.

use vstd::prelude::*;
use vstd::utf8::{decode_utf8, encode_utf8, valid_utf8};

use crate::ephemera::EphemeralSession;
use crate::hub::{Hub, RunState};
use crate::ids::{PeerId, StorageId};
use crate::io::{IoResult, IoTask, IoTaskId, StorageResult, StorageTask, StorageTaskView};
use crate::storage_key::StorageKey;
use crate::timestamp::UnixTimestamp;

verus! {

/// Calls `String::from_utf8`. Claimed: it succeeds exactly when the bytes
/// are valid UTF-8, with the text they encode.
#[verifier::external_body]
fn string_from_utf8(bytes: Vec<u8>) -> (r: Option<String>)
    ensures
        match r {
            Some(s) => valid_utf8(bytes@) && s@ == decode_utf8(bytes@),
            None => !valid_utf8(bytes@),
        },
{
    match String::from_utf8(bytes) {
        Ok(s) => Some(s),
        Err(_) => None,
    }
}

/// A copy of a byte slice.
pub fn copy_bytes(b: &[u8]) -> (r: Vec<u8>)
    ensures
        r@ == b@,
{
    let mut out: Vec<u8> = Vec::new();
    let mut i: usize = 0;
    while i < b.len()
        invariant
            i <= b@.len(),
            out@ == b@.take(i as int),
        decreases b@.len() - i,
    {
        out.push(b[i]);
        proof {
            assert(b@.take(i + 1) =~= b@.take(i as int).push(b@[i as int]));
        }
        i = i + 1;
    }
    proof {
        assert(b@.take(b@.len() as int) =~= b@);
    }
    out
}

/// Why an I/O result could not be taken.
#[derive(Debug, Clone, PartialEq, Eq)]
pub enum LoaderError {
    /// No I/O is waited for.
    UnexpectedIoCompletion,
    /// The result is for another task.
    TaskIdMismatch { expected: IoTaskId, received: IoTaskId },
    /// The result is not of the kind the task asks for.
    UnexpectedStorageResult,
}

/// Where the loader is.
#[derive(Debug)]
pub enum LoaderStage {
    /// Nothing asked yet.
    Starting,
    /// Waiting for the stored storage ID.
    LoadingStorageId(IoTaskId),
    /// The stored value, if there was one.
    StorageIdLoaded(Option<Vec<u8>>),
    /// Waiting for a new storage ID to be stored.
    PuttingStorageId(IoTaskId, StorageId),
    /// The storage ID is known.
    Done(StorageId),
}

/// The abstract value of a [`LoaderStage`].
pub enum LoaderStageView {
    Starting,
    LoadingStorageId(u64),
    StorageIdLoaded(Option<Seq<u8>>),
    PuttingStorageId(u64, Seq<char>),
    Done(Seq<char>),
}

impl View for LoaderStage {
    type V = LoaderStageView;

    open spec fn view(&self) -> LoaderStageView {
        match self {
            LoaderStage::Starting => LoaderStageView::Starting,
            LoaderStage::LoadingStorageId(t) => LoaderStageView::LoadingStorageId(t.value()),
            LoaderStage::StorageIdLoaded(v) => LoaderStageView::StorageIdLoaded(match v {
                Some(b) => Some(b@),
                None => None,
            }),
            LoaderStage::PuttingStorageId(t, s) => LoaderStageView::PuttingStorageId(t.value(), s@),
            LoaderStage::Done(s) => LoaderStageView::Done(s@),
        }
    }
}

/// What the loader needs next.
#[derive(Debug)]
pub enum LoaderState {
    /// Perform these tasks, hand back their results, and step again.
    NeedIo(Vec<IoTask<StorageTask>>),
    /// The hub is ready.
    Loaded(Box<Hub>),
}

/// The state machine that loads a repository.
#[derive(Debug)]
pub struct SamodLoader {
    local_peer_id: PeerId,
    state: LoaderStage,
}

/// The key under which the storage ID is kept.
pub open spec fn storage_id_key() -> Seq<Seq<char>> {
    seq!["storage-adapter-id"@]
}

/// The stored bytes hold a storage ID: they are its UTF-8 text.
pub open spec fn stored_id(v: Option<Seq<u8>>) -> Option<Seq<char>> {
    match v {
        Some(b) => if valid_utf8(b) { Some(decode_utf8(b)) } else { None },
        None => None,
    }
}

/// The hub is fresh: no connections, no actors, running, with this
/// storage and peer.
pub open spec fn fresh_hub(h: Hub, storage_id: Seq<char>, peer_id: Seq<char>) -> bool {
    &&& h@.storage_id == storage_id
    &&& h@.peer_id == peer_id
    &&& h@.conns.len() == 0
    &&& h@.actors.len() == 0
    &&& h@.docs.len() == 0
    &&& h@.run_state == RunState::Running
    &&& crate::hub::hub_wf(h@)
}

impl SamodLoader {
    /// A loader for the peer with this ID.
    pub fn new(local_peer_id: PeerId) -> (r: SamodLoader)
        ensures
            r.peer_id() == local_peer_id@,
            r.stage() == LoaderStageView::Starting,
    {
        SamodLoader { local_peer_id, state: LoaderStage::Starting }
    }

    /// Our peer ID.
    pub closed spec fn peer_id(&self) -> Seq<char> {
        self.local_peer_id@
    }

    /// Where the loader is.
    pub closed spec fn stage(&self) -> LoaderStageView {
        self.state@
    }

    /// Advances the loader: asks for the stored storage ID, then makes a new
    /// one if there was none (or it was not text) and asks to store it, and
    /// hands out the hub once the ID is known. While it waits for a result,
    /// it asks for nothing.
    pub fn step(&mut self, _now: UnixTimestamp) -> (r: LoaderState)
        ensures
            final(self).peer_id() == old(self).peer_id(),
            match old(self).stage() {
                LoaderStageView::Starting => r matches LoaderState::NeedIo(tasks) && tasks@.len() == 1
                    && tasks@[0].action@ == (StorageTaskView::Load { key: storage_id_key() })
                    && final(self).stage() == LoaderStageView::LoadingStorageId(tasks@[0].task_id.value()),
                LoaderStageView::LoadingStorageId(_) | LoaderStageView::PuttingStorageId(_, _) =>
                    r matches LoaderState::NeedIo(tasks) && tasks@.len() == 0 && final(self).stage() == old(self).stage(),
                LoaderStageView::StorageIdLoaded(v) => match stored_id(v) {
                    Some(id) => r matches LoaderState::Loaded(h) && fresh_hub(*h, id, old(self).peer_id())
                        && final(self).stage() == LoaderStageView::Done(id),
                    None => r matches LoaderState::NeedIo(tasks) && tasks@.len() == 1
                        && exists|id: Seq<char>| {
                            &&& id.len() == 32
                            &&& tasks@[0].action@ == (StorageTaskView::Put { key: storage_id_key(), value: encode_utf8(id) })
                            &&& final(self).stage() == LoaderStageView::PuttingStorageId(tasks@[0].task_id.value(), id)
                        },
                },
                LoaderStageView::Done(id) => r matches LoaderState::Loaded(h) && fresh_hub(*h, id, old(self).peer_id())
                    && final(self).stage() == old(self).stage(),
            },
    {
        proof {
            reveal_strlit("storage-adapter-id");
        }
        let mut st = LoaderStage::Starting;
        std::mem::swap(&mut st, &mut self.state);
        match st {
            LoaderStage::Starting => {
                let task = IoTask::new(StorageTask::Load { key: StorageKey::storage_id_path() });
                self.state = LoaderStage::LoadingStorageId(task.task_id);
                let mut tasks: Vec<IoTask<StorageTask>> = Vec::new();
                tasks.push(task);
                LoaderState::NeedIo(tasks)
            },
            LoaderStage::LoadingStorageId(t) => {
                self.state = LoaderStage::LoadingStorageId(t);
                LoaderState::NeedIo(Vec::new())
            },
            LoaderStage::PuttingStorageId(t, s) => {
                self.state = LoaderStage::PuttingStorageId(t, s);
                LoaderState::NeedIo(Vec::new())
            },
            LoaderStage::StorageIdLoaded(result) => {
                let text = match result {
                    Some(bytes) => string_from_utf8(bytes),
                    None => None,
                };
                match text {
                    Some(s) => {
                        let storage_id = StorageId::from_string(s);
                        self.state = LoaderStage::Done(storage_id.duplicate());
                        let hub = Hub::new(storage_id, self.local_peer_id.duplicate(), EphemeralSession::new());
                        LoaderState::Loaded(Box::new(hub))
                    },
                    None => {
                        let storage_id = StorageId::new();
                        let value = copy_bytes(storage_id.as_str().as_bytes());
                        let task = IoTask::new(StorageTask::Put { key: StorageKey::storage_id_path(), value });
                        self.state = LoaderStage::PuttingStorageId(task.task_id, storage_id);
                        let mut tasks: Vec<IoTask<StorageTask>> = Vec::new();
                        tasks.push(task);
                        LoaderState::NeedIo(tasks)
                    },
                }
            },
            LoaderStage::Done(storage_id) => {
                let hub = Hub::new(storage_id.duplicate(), self.local_peer_id.duplicate(), EphemeralSession::new());
                self.state = LoaderStage::Done(storage_id);
                LoaderState::Loaded(Box::new(hub))
            },
        }
    }

    /// Takes the result of the task the loader waits for: the stored value
    /// of the storage ID, or the confirmation that the new one was stored.
    pub fn provide_io_result(&mut self, result: IoResult<StorageResult>) -> (r: Result<(), LoaderError>)
        ensures
            final(self).peer_id() == old(self).peer_id(),
            match old(self).stage() {
                LoaderStageView::Starting | LoaderStageView::StorageIdLoaded(_) | LoaderStageView::Done(_) =>
                    r == Err::<(), LoaderError>(LoaderError::UnexpectedIoCompletion) && final(self).stage() == old(self).stage(),
                LoaderStageView::LoadingStorageId(t) => if t != result.task_id.value() {
                    r matches Err(LoaderError::TaskIdMismatch { expected, received })
                        && expected.value() == t && received == result.task_id
                        && final(self).stage() == old(self).stage()
                } else {
                    match result.payload {
                        StorageResult::Load { value } => r is Ok && final(self).stage() == LoaderStageView::StorageIdLoaded(match value {
                            Some(b) => Some(b@),
                            None => None,
                        }),
                        _ => r == Err::<(), LoaderError>(LoaderError::UnexpectedStorageResult) && final(self).stage() == old(self).stage(),
                    }
                },
                LoaderStageView::PuttingStorageId(t, id) => if t != result.task_id.value() {
                    r matches Err(LoaderError::TaskIdMismatch { expected, received })
                        && expected.value() == t && received == result.task_id
                        && final(self).stage() == old(self).stage()
                } else {
                    match result.payload {
                        StorageResult::Put => r is Ok && final(self).stage() == LoaderStageView::Done(id),
                        _ => r == Err::<(), LoaderError>(LoaderError::UnexpectedStorageResult) && final(self).stage() == old(self).stage(),
                    }
                },
            },
    {
        let mut st = LoaderStage::Starting;
        std::mem::swap(&mut st, &mut self.state);
        match st {
            LoaderStage::Starting => {
                self.state = LoaderStage::Starting;
                Err(LoaderError::UnexpectedIoCompletion)
            },
            LoaderStage::StorageIdLoaded(v) => {
                self.state = LoaderStage::StorageIdLoaded(v);
                Err(LoaderError::UnexpectedIoCompletion)
            },
            LoaderStage::Done(s) => {
                self.state = LoaderStage::Done(s);
                Err(LoaderError::UnexpectedIoCompletion)
            },
            LoaderStage::LoadingStorageId(t) => {
                proof {
                    crate::io::lemma_task_id_eq(t, result.task_id);
                }
                if t != result.task_id {
                    self.state = LoaderStage::LoadingStorageId(t);
                    return Err(LoaderError::TaskIdMismatch { expected: t, received: result.task_id });
                }
                match result.payload {
                    StorageResult::Load { value } => {
                        self.state = LoaderStage::StorageIdLoaded(value);
                        Ok(())
                    },
                    _ => {
                        self.state = LoaderStage::LoadingStorageId(t);
                        Err(LoaderError::UnexpectedStorageResult)
                    },
                }
            },
            LoaderStage::PuttingStorageId(t, s) => {
                proof {
                    crate::io::lemma_task_id_eq(t, result.task_id);
                }
                if t != result.task_id {
                    self.state = LoaderStage::PuttingStorageId(t, s);
                    return Err(LoaderError::TaskIdMismatch { expected: t, received: result.task_id });
                }
                match result.payload {
                    StorageResult::Put => {
                        self.state = LoaderStage::Done(s);
                        Ok(())
                    },
                    _ => {
                        self.state = LoaderStage::PuttingStorageId(t, s);
                        Err(LoaderError::UnexpectedStorageResult)
                    },
                }
            },
        }
    }
}

} // verus!
