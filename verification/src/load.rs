//! Loading one document from storage: its snapshots and its incremental
//! changes, read in two range loads.

use vstd::prelude::*;

use crate::ids::{document_id_text, DocumentId};
use crate::io::{IoTask, IoTaskId, StorageResult, StorageTask, StorageTaskView};
use crate::storage_key::StorageKey;

verus! {

/// The keys and values of a list of entries.
pub open spec fn entries_view(v: Seq<(StorageKey, Vec<u8>)>) -> Seq<(Seq<Seq<char>>, Seq<u8>)> {
    v.map_values(|e: (StorageKey, Vec<u8>)| (e.0@, e.1@))
}

/// The view of an optional list of entries.
pub open spec fn opt_entries_view(v: Option<Vec<(StorageKey, Vec<u8>)>>) -> Option<Seq<(Seq<Seq<char>>, Seq<u8>)>> {
    match v {
        Some(x) => Some(entries_view(x@)),
        None => None,
    }
}

/// Where a load is.
#[derive(Debug)]
pub enum LoadState {
    /// Nothing to do.
    Idle,
    /// A load should start.
    Initial,
    /// Both range loads were asked for; the results that came so far.
    WaitingForResults {
        snapshot_task_id: IoTaskId,
        incremental_task_id: IoTaskId,
        snapshots: Option<Vec<(StorageKey, Vec<u8>)>>,
        incrementals: Option<Vec<(StorageKey, Vec<u8>)>>,
    },
    /// Both results came.
    Complete { snapshots: Vec<(StorageKey, Vec<u8>)>, incrementals: Vec<(StorageKey, Vec<u8>)> },
}

/// The abstract value of a [`LoadState`].
pub enum LoadStateView {
    Idle,
    Initial,
    WaitingForResults {
        snapshot_task_id: u64,
        incremental_task_id: u64,
        snapshots: Option<Seq<(Seq<Seq<char>>, Seq<u8>)>>,
        incrementals: Option<Seq<(Seq<Seq<char>>, Seq<u8>)>>,
    },
    Complete { snapshots: Seq<(Seq<Seq<char>>, Seq<u8>)>, incrementals: Seq<(Seq<Seq<char>>, Seq<u8>)> },
}

impl View for LoadState {
    type V = LoadStateView;

    open spec fn view(&self) -> LoadStateView {
        match self {
            LoadState::Idle => LoadStateView::Idle,
            LoadState::Initial => LoadStateView::Initial,
            LoadState::WaitingForResults { snapshot_task_id, incremental_task_id, snapshots, incrementals } =>
                LoadStateView::WaitingForResults {
                    snapshot_task_id: snapshot_task_id.value(),
                    incremental_task_id: incremental_task_id.value(),
                    snapshots: opt_entries_view(*snapshots),
                    incrementals: opt_entries_view(*incrementals),
                },
            LoadState::Complete { snapshots, incrementals } => LoadStateView::Complete {
                snapshots: entries_view(snapshots@),
                incrementals: entries_view(incrementals@),
            },
        }
    }
}

/// The loading of one document.
#[derive(Debug)]
pub struct Load {
    doc_id: DocumentId,
    state: LoadState,
}

/// The entries a finished load read.
#[derive(Debug)]
pub struct LoadComplete {
    pub snapshots: Vec<(StorageKey, Vec<u8>)>,
    pub incrementals: Vec<(StorageKey, Vec<u8>)>,
}

/// The result fits the waiting load: it is a range load for one of its two
/// tasks.
pub open spec fn result_fits(st: LoadStateView, task_id: u64, result: StorageResult) -> bool {
    &&& st is WaitingForResults
    &&& result is LoadRange
    &&& (task_id == st->snapshot_task_id || task_id == st->incremental_task_id)
}

/// The load after a fitting result arrived: the snapshot task is matched
/// first; once both results are there, the load is complete.
pub open spec fn load_after_result(st: LoadStateView, task_id: u64, values: Seq<(Seq<Seq<char>>, Seq<u8>)>) -> LoadStateView {
    match st {
        LoadStateView::WaitingForResults { snapshot_task_id, incremental_task_id, snapshots, incrementals } => {
            let s = if task_id == snapshot_task_id { Some(values) } else { snapshots };
            let i = if task_id == snapshot_task_id { incrementals } else { Some(values) };
            match (s, i) {
                (Some(a), Some(b)) => LoadStateView::Complete { snapshots: a, incrementals: b },
                _ => LoadStateView::WaitingForResults { snapshot_task_id, incremental_task_id, snapshots: s, incrementals: i },
            }
        },
        _ => st,
    }
}

impl Load {
    /// An idle load of the document.
    pub fn new(doc_id: DocumentId) -> (r: Load)
        ensures
            r.doc() == doc_id@,
            r.state() == LoadStateView::Idle,
    {
        Load { doc_id, state: LoadState::Idle }
    }

    /// The document being loaded.
    pub closed spec fn doc(&self) -> Seq<u8> {
        self.doc_id@
    }

    /// Where the load is.
    pub closed spec fn state(&self) -> LoadStateView {
        self.state@
    }

    /// Starts a load if none is going on.
    pub fn begin(&mut self)
        ensures
            final(self).doc() == old(self).doc(),
            final(self).state() == if old(self).state() is Idle { LoadStateView::Initial } else { old(self).state() },
    {
        match self.state {
            LoadState::Idle => {
                self.state = LoadState::Initial;
            },
            _ => {},
        }
    }

    /// Whether the load waits for the I/O with the given ID.
    pub fn has_task(&self, task_id: IoTaskId) -> (r: bool)
        ensures
            r == (self.state() is WaitingForResults && (self.state()->snapshot_task_id == task_id.value()
                || self.state()->incremental_task_id == task_id.value())),
    {
        match &self.state {
            LoadState::WaitingForResults { snapshot_task_id, incremental_task_id, .. } => {
                proof {
                    crate::io::lemma_task_id_eq(*snapshot_task_id, task_id);
                    crate::io::lemma_task_id_eq(*incremental_task_id, task_id);
                }
                *snapshot_task_id == task_id || *incremental_task_id == task_id
            },
            _ => false,
        }
    }

    /// Advances the load: a starting load asks for the document's snapshots
    /// and incremental changes, and then waits for both.
    pub fn step(&mut self) -> (r: Vec<IoTask<StorageTask>>)
        ensures
            final(self).doc() == old(self).doc(),
            old(self).state() is Initial ==> {
                &&& r@.len() == 2
                &&& r@[0].action@ == (StorageTaskView::LoadRange { prefix: seq![document_id_text(old(self).doc()), "snapshot"@] })
                &&& r@[1].action@ == (StorageTaskView::LoadRange { prefix: seq![document_id_text(old(self).doc()), "incremental"@] })
                &&& final(self).state() == (LoadStateView::WaitingForResults {
                    snapshot_task_id: r@[0].task_id.value(),
                    incremental_task_id: r@[1].task_id.value(),
                    snapshots: None,
                    incrementals: None,
                })
            },
            !(old(self).state() is Initial) ==> r@.len() == 0 && final(self).state() == old(self).state(),
    {
        match self.state {
            LoadState::Initial => {
                let snapshot_task = IoTask::new(StorageTask::LoadRange {
                    prefix: StorageKey::document_prefix(&self.doc_id, "snapshot"),
                });
                let incremental_task = IoTask::new(StorageTask::LoadRange {
                    prefix: StorageKey::document_prefix(&self.doc_id, "incremental"),
                });
                self.state = LoadState::WaitingForResults {
                    snapshot_task_id: snapshot_task.task_id,
                    incremental_task_id: incremental_task.task_id,
                    snapshots: None,
                    incrementals: None,
                };
                let mut tasks: Vec<IoTask<StorageTask>> = Vec::new();
                tasks.push(snapshot_task);
                tasks.push(incremental_task);
                tasks
            },
            _ => Vec::new(),
        }
    }

    /// Takes the entries of a complete load; the load is then idle.
    pub fn take_complete(&mut self) -> (r: Option<LoadComplete>)
        ensures
            final(self).doc() == old(self).doc(),
            old(self).state() is Complete ==> {
                &&& r matches Some(c) && entries_view(c.snapshots@) == old(self).state()->Complete_snapshots
                    && entries_view(c.incrementals@) == old(self).state()->Complete_incrementals
                &&& final(self).state() is Idle
            },
            !(old(self).state() is Complete) ==> r is None && final(self).state() == old(self).state(),
    {
        let mut st = LoadState::Idle;
        std::mem::swap(&mut st, &mut self.state);
        match st {
            LoadState::Complete { snapshots, incrementals } => Some(LoadComplete { snapshots, incrementals }),
            other => {
                self.state = other;
                None
            },
        }
    }

    /// Takes the result of one of the two range loads.
    pub fn handle_result(&mut self, task_id: IoTaskId, result: StorageResult)
        requires
            result_fits(old(self).state(), task_id.value(), result),
        ensures
            final(self).doc() == old(self).doc(),
            final(self).state() == load_after_result(old(self).state(), task_id.value(), match result {
                StorageResult::LoadRange { values } => entries_view(values@),
                _ => Seq::empty(),
            }),
    {
        let values = match result {
            StorageResult::LoadRange { values } => values,
            _ => Vec::new(),
        };
        let mut st = LoadState::Idle;
        std::mem::swap(&mut st, &mut self.state);
        match st {
            LoadState::WaitingForResults { snapshot_task_id, incremental_task_id, snapshots, incrementals } => {
                proof {
                    crate::io::lemma_task_id_eq(snapshot_task_id, task_id);
                }
                let (s, i) = if task_id == snapshot_task_id {
                    (Some(values), incrementals)
                } else {
                    (snapshots, Some(values))
                };
                self.state = match (s, i) {
                    (Some(a), Some(b)) => LoadState::Complete { snapshots: a, incrementals: b },
                    (s, i) => LoadState::WaitingForResults {
                        snapshot_task_id,
                        incremental_task_id,
                        snapshots: s,
                        incrementals: i,
                    },
                };
            },
            other => {
                self.state = other;
            },
        }
    }
}

} // verus!
