//! What a document actor knows of its document on disk: the keys written,
//! the writes and deletes under way, and the compaction of many changes
//! into one snapshot.

use vstd::prelude::*;

use crate::doc_actor_result::{DocActorResult, DocumentError, DocumentIoTaskView};
use crate::hashes::{concat_hashes, sha256, ChangeHash, CompactionHash};
use crate::hex::hex_encode;
use crate::ids::{document_id_text, DocumentId};
use crate::io::{lemma_task_id_eq, IoTaskId, StorageResult, StorageTaskView};
use crate::network::hashes_view;
use crate::storage_key::StorageKey;

verus! {

/// An automerge change.
#[verifier::external_type_specification]
#[verifier::external_body]
pub struct ExChange(automerge::Change);

/// What `automerge::Automerge::get_heads` gives for a document: its heads,
/// as the bytes of their change hashes.
pub uninterp spec fn doc_heads_of(doc: automerge::Automerge) -> Seq<Seq<u8>>;

/// What `automerge::Automerge::get_changes` gives for a document and the
/// heads already known: the changes made since them, in order.
pub uninterp spec fn doc_change_log(doc: automerge::Automerge, have: Seq<Seq<u8>>) -> Seq<automerge::Change>;

/// What `automerge::Change::hash` gives for a change.
pub uninterp spec fn change_hash_of(c: automerge::Change) -> Seq<u8>;

/// What `automerge::Change::raw_bytes` gives for a change.
pub uninterp spec fn change_bytes_of(c: automerge::Change) -> Seq<u8>;

/// What `automerge::Automerge::save` gives for a document.
pub uninterp spec fn doc_saved(doc: automerge::Automerge) -> Seq<u8>;

/// Calls `automerge::Automerge::get_heads`. Claimed: the result is
/// `doc_heads_of` of the document, and each head is a change hash of 32
/// bytes (automerge's `ChangeHash` holds a `[u8; 32]`).
#[verifier::external_body]
fn doc_heads(doc: &automerge::Automerge) -> (r: Vec<ChangeHash>)
    ensures
        hashes_view(r@) == doc_heads_of(*doc),
        forall|i: int| 0 <= i < r@.len() ==> (#[trigger] r@[i])@.len() == 32,
{
    doc.get_heads().into_iter().map(|h| ChangeHash::from_bytes(h.0.to_vec())).collect()
}

/// Calls `automerge::Automerge::get_changes` with the given heads. Claimed:
/// the result is `doc_change_log` of the document and the heads.
#[verifier::external_body]
fn doc_changes(doc: &automerge::Automerge, have: &[ChangeHash]) -> (r: Vec<automerge::Change>)
    requires
        forall|i: int| 0 <= i < have@.len() ==> (#[trigger] have@[i])@.len() == 32,
    ensures
        r@ == doc_change_log(*doc, hashes_view(have@)),
{
    let have: Vec<automerge::ChangeHash> =
        have.iter().map(|h| automerge::ChangeHash(h.as_bytes().try_into().unwrap())).collect();
    doc.get_changes(&have)
}

/// Calls `automerge::Change::hash`. Claimed: the result is `change_hash_of`
/// of the change, and has 32 bytes.
#[verifier::external_body]
fn change_hash(c: &automerge::Change) -> (r: ChangeHash)
    ensures
        r@ == change_hash_of(*c),
        r@.len() == 32,
{
    ChangeHash::from_bytes(c.hash().0.to_vec())
}

/// Calls `automerge::Change::raw_bytes`. Claimed: the result is
/// `change_bytes_of` of the change.
#[verifier::external_body]
fn change_bytes(c: &automerge::Change) -> (r: Vec<u8>)
    ensures
        r@ == change_bytes_of(*c),
{
    c.raw_bytes().to_vec()
}

/// Calls `automerge::Automerge::save`. Claimed: the result is `doc_saved`
/// of the document.
#[verifier::external_body]
fn doc_save(doc: &automerge::Automerge) -> (r: Vec<u8>)
    ensures
        r@ == doc_saved(*doc),
{
    doc.save()
}

/// The hashes and bytes of a list of changes.
pub open spec fn change_entries(cs: Seq<automerge::Change>) -> Seq<(Seq<u8>, Seq<u8>)> {
    cs.map_values(|c: automerge::Change| (change_hash_of(c), change_bytes_of(c)))
}

/// The heads of the last save, none before the first.
pub open spec fn known_heads(v: OnDiskView) -> Seq<Seq<u8>> {
    match v.last_saved_heads {
        Some(h) => h,
        None => Seq::empty(),
    }
}

/// The changes of `doc` since the last save recorded in `v`, with their
/// hashes and bytes.
pub open spec fn doc_new_changes(doc: automerge::Automerge, v: OnDiskView) -> Seq<(Seq<u8>, Seq<u8>)> {
    change_entries(doc_change_log(doc, known_heads(v)))
}

/// The whole document's bytes when a compaction is due for `nc` new
/// changes, else none.
pub open spec fn snapshot_if_due(doc: automerge::Automerge, v: OnDiskView, nc: nat) -> Option<Seq<u8>> {
    if compaction_due(v, nc) { Some(doc_saved(doc)) } else { None }
}

/// The key components of a list of keys.
pub open spec fn keys_view(v: Seq<StorageKey>) -> Seq<Seq<Seq<char>>> {
    v.map_values(|k: StorageKey| k@)
}

/// The task numbers and keys of a list of running tasks.
pub open spec fn task_keys_view(v: Seq<(IoTaskId, StorageKey)>) -> Seq<(u64, Seq<Seq<char>>)> {
    v.map_values(|e: (IoTaskId, StorageKey)| (e.0.value(), e.1@))
}

/// `s` with `k` added if it was not there.
pub open spec fn set_insert(s: Seq<Seq<Seq<char>>>, k: Seq<Seq<char>>) -> Seq<Seq<Seq<char>>> {
    if s.contains(k) { s } else { s.push(k) }
}

/// `s` without `k`.
pub open spec fn without(s: Seq<Seq<Seq<char>>>, k: Seq<Seq<char>>) -> Seq<Seq<Seq<char>>> {
    s.filter(|x: Seq<Seq<char>>| x != k)
}

/// `s` without the keys of `b`.
pub open spec fn minus(s: Seq<Seq<Seq<char>>>, b: Seq<Seq<Seq<char>>>) -> Seq<Seq<Seq<char>>> {
    s.filter(|x: Seq<Seq<char>>| !b.contains(x))
}

/// `s` with each key of `add` added in turn.
pub open spec fn insert_all(s: Seq<Seq<Seq<char>>>, add: Seq<Seq<Seq<char>>>) -> Seq<Seq<Seq<char>>>
    decreases add.len(),
{
    if add.len() == 0 {
        s
    } else {
        set_insert(insert_all(s, add.drop_last()), add.last())
    }
}

/// A task with this number is running.
pub open spec fn has_task(s: Seq<(u64, Seq<Seq<char>>)>, t: u64) -> bool {
    exists|i: int| 0 <= i < s.len() && #[trigger] s[i].0 == t
}

/// The position of the task with this number.
pub open spec fn task_pos(s: Seq<(u64, Seq<Seq<char>>)>, t: u64) -> int {
    choose|i: int| 0 <= i < s.len() && #[trigger] s[i].0 == t
}

/// The running tasks with task `t` for key `k`: its entry replaced when
/// there is one, else added at the end.
pub open spec fn task_put(s: Seq<(u64, Seq<Seq<char>>)>, t: u64, k: Seq<Seq<char>>) -> Seq<(u64, Seq<Seq<char>>)> {
    if has_task(s, t) { s.update(task_pos(s, t), (t, k)) } else { s.push((t, k)) }
}

/// The running tasks without task `t`.
pub open spec fn task_remove(s: Seq<(u64, Seq<Seq<char>>)>, t: u64) -> Seq<(u64, Seq<Seq<char>>)> {
    if has_task(s, t) { s.remove(task_pos(s, t)) } else { s }
}

/// The running tasks after the storage tasks in `ts` were started.
pub open spec fn tasks_started(s: Seq<(u64, Seq<Seq<char>>)>, ts: Seq<(u64, DocumentIoTaskView)>) -> Seq<(u64, Seq<Seq<char>>)>
    decreases ts.len(),
{
    if ts.len() == 0 {
        s
    } else {
        let rest = tasks_started(s, ts.drop_last());
        match ts.last().1 {
            DocumentIoTaskView::Storage(StorageTaskView::Put { key, .. }) => task_put(rest, ts.last().0, key),
            DocumentIoTaskView::Storage(StorageTaskView::Delete { key }) => task_put(rest, ts.last().0, key),
            _ => rest,
        }
    }
}

/// Task numbers are distinct.
pub open spec fn task_ids_distinct(s: Seq<(u64, Seq<Seq<char>>)>) -> bool {
    forall|i: int, j: int| 0 <= i < j < s.len() ==> #[trigger] s[i].0 != #[trigger] s[j].0
}

/// The key of a compacted snapshot of a document with these heads.
pub open spec fn snapshot_key(doc: Seq<u8>, heads: Seq<Seq<u8>>) -> Seq<Seq<char>> {
    seq![document_id_text(doc), "snapshot"@, hex_encode(sha256(concat_hashes(heads)))]
}

/// The key of an incremental change of a document.
pub open spec fn incremental_key(doc: Seq<u8>, hash: Seq<u8>) -> Seq<Seq<char>> {
    seq![document_id_text(doc), "incremental"@, hex_encode(hash)]
}

/// A compaction under way: the task that writes the snapshot, and the keys
/// the snapshot replaces.
#[derive(Debug)]
pub struct Compaction {
    task: IoTaskId,
    supercedes: Vec<StorageKey>,
}

/// What is on disk, and what is being written and deleted.
#[derive(Debug)]
pub struct OnDiskState {
    last_saved_heads: Option<Vec<ChangeHash>>,
    on_disk: Vec<StorageKey>,
    compaction: Option<Compaction>,
    deletions: Vec<StorageKey>,
    running_puts: Vec<(IoTaskId, StorageKey)>,
    running_deletes: Vec<(IoTaskId, StorageKey)>,
}

/// The abstract value of an [`OnDiskState`].
pub struct OnDiskView {
    /// The heads when changes were last saved.
    pub last_saved_heads: Option<Seq<Seq<u8>>>,
    /// The keys known to be on disk.
    pub on_disk: Seq<Seq<Seq<char>>>,
    /// The compaction under way: its task and the keys it replaces.
    pub compaction: Option<(u64, Seq<Seq<Seq<char>>>)>,
    /// The keys to delete at the next save.
    pub deletions: Seq<Seq<Seq<char>>>,
    /// The writes under way, by task.
    pub running_puts: Seq<(u64, Seq<Seq<char>>)>,
    /// The deletes under way, by task.
    pub running_deletes: Seq<(u64, Seq<Seq<char>>)>,
}

impl View for OnDiskState {
    type V = OnDiskView;

    closed spec fn view(&self) -> OnDiskView {
        OnDiskView {
            last_saved_heads: match self.last_saved_heads {
                Some(h) => Some(hashes_view(h@)),
                None => None,
            },
            on_disk: keys_view(self.on_disk@),
            compaction: match self.compaction {
                Some(c) => Some((c.task.value(), keys_view(c.supercedes@))),
                None => None,
            },
            deletions: keys_view(self.deletions@),
            running_puts: task_keys_view(self.running_puts@),
            running_deletes: task_keys_view(self.running_deletes@),
        }
    }
}

/// Each key is listed once, and each running task once.
pub open spec fn on_disk_wf(v: OnDiskView) -> bool {
    &&& v.on_disk.no_duplicates()
    &&& v.deletions.no_duplicates()
    &&& (v.compaction matches Some((_, sup)) ==> sup.no_duplicates())
    &&& task_ids_distinct(v.running_puts)
    &&& task_ids_distinct(v.running_deletes)
    &&& (v.last_saved_heads is Some ==> forall|i: int| 0 <= i < v.last_saved_heads->0.len()
        ==> (#[trigger] v.last_saved_heads->0[i]).len() == 32)
}

/// A save compacts: no compaction is under way, and there are more than
/// ten new changes or more than ten keys on disk.
pub open spec fn compaction_due(v: OnDiskView, new_changes: nat) -> bool {
    v.compaction is None && (new_changes > 10 || v.on_disk.len() > 10)
}

proof fn lemma_filter_nodup(s: Seq<Seq<Seq<char>>>, p: spec_fn(Seq<Seq<char>>) -> bool)
    requires
        s.no_duplicates(),
    ensures
        s.filter(p).no_duplicates(),
    decreases s.len(),
{
    reveal_with_fuel(Seq::<Seq<Seq<char>>>::filter, 1);
    if s.len() > 0 {
        let init = s.drop_last();
        lemma_filter_nodup(init, p);
        if p(s.last()) {
            let f = init.filter(p);
            assert forall|x: Seq<Seq<char>>| f.contains(x) implies x != s.last() by {
                init.lemma_filter_contains_rev(p, x);
                let k = choose|k: int| 0 <= k < init.len() && init[k] == x;
                assert(s[k] == x);
            }
            assert forall|i: int, j: int| 0 <= i < f.push(s.last()).len() && 0 <= j < f.push(s.last()).len() && i != j
                implies f.push(s.last())[i] != f.push(s.last())[j] by {
                if i == f.len() {
                    assert(f.contains(f[j]));
                } else if j == f.len() {
                    assert(f.contains(f[i]));
                }
            }
        }
    }
}

proof fn lemma_keys_filter_push(s: Seq<Seq<Seq<char>>>, x: Seq<Seq<char>>, k: Seq<Seq<char>>, b: Seq<Seq<Seq<char>>>)
    ensures
        without(s.push(x), k) == if x != k { without(s, k).push(x) } else { without(s, k) },
        minus(s.push(x), b) == if !b.contains(x) { minus(s, b).push(x) } else { minus(s, b) },
{
    reveal_with_fuel(Seq::<Seq<Seq<char>>>::filter, 1);
    assert(s.push(x).drop_last() =~= s);
}

/// Whether a key is in a list.
fn contains_key(v: &Vec<StorageKey>, k: &StorageKey) -> (r: bool)
    ensures
        r == keys_view(v@).contains(k@),
{
    let ghost kv = keys_view(v@);
    let mut i: usize = 0;
    while i < v.len()
        invariant
            i <= v@.len(),
            kv == keys_view(v@),
            forall|j: int| 0 <= j < i ==> kv[j] != k@,
        decreases v@.len() - i,
    {
        if v[i].same_as(k) {
            proof {
                assert(kv[i as int] == k@);
            }
            return true;
        }
        i = i + 1;
    }
    false
}

/// Adds a key to a list unless it is there.
fn insert_key(v: &mut Vec<StorageKey>, k: StorageKey)
    requires
        keys_view(old(v)@).no_duplicates(),
    ensures
        keys_view(final(v)@) == set_insert(keys_view(old(v)@), k@),
        keys_view(final(v)@).no_duplicates(),
{
    if !contains_key(v, &k) {
        let ghost before = keys_view(v@);
        let ghost kv = k@;
        v.push(k);
        proof {
            assert(keys_view(v@) =~= before.push(kv));
        }
    }
}

/// The keys of a list other than `k`.
fn keys_without(v: &Vec<StorageKey>, k: &StorageKey) -> (r: Vec<StorageKey>)
    requires
        keys_view(v@).no_duplicates(),
    ensures
        keys_view(r@) == without(keys_view(v@), k@),
        keys_view(r@).no_duplicates(),
{
    let ghost kv = keys_view(v@);
    let mut out: Vec<StorageKey> = Vec::new();
    let mut i: usize = 0;
    while i < v.len()
        invariant
            i <= v@.len(),
            kv == keys_view(v@),
            keys_view(out@) == without(kv.take(i as int), k@),
        decreases v@.len() - i,
    {
        proof {
            assert(kv.take(i + 1) =~= kv.take(i as int).push(kv[i as int]));
            lemma_keys_filter_push(kv.take(i as int), kv[i as int], k@, Seq::empty());
        }
        if !v[i].same_as(k) {
            let ghost o0 = keys_view(out@);
            out.push(v[i].duplicate());
            proof {
                assert(keys_view(out@) =~= o0.push(kv[i as int]));
            }
        }
        i = i + 1;
    }
    proof {
        assert(kv.take(kv.len() as int) =~= kv);
        lemma_filter_nodup(kv, |x: Seq<Seq<char>>| x != k@);
    }
    out
}

/// The keys of a list that are not in `b`.
fn keys_minus(v: &Vec<StorageKey>, b: &Vec<StorageKey>) -> (r: Vec<StorageKey>)
    requires
        keys_view(v@).no_duplicates(),
    ensures
        keys_view(r@) == minus(keys_view(v@), keys_view(b@)),
        keys_view(r@).no_duplicates(),
{
    let ghost kv = keys_view(v@);
    let ghost bv = keys_view(b@);
    let mut out: Vec<StorageKey> = Vec::new();
    let mut i: usize = 0;
    while i < v.len()
        invariant
            i <= v@.len(),
            kv == keys_view(v@),
            bv == keys_view(b@),
            keys_view(out@) == minus(kv.take(i as int), bv),
        decreases v@.len() - i,
    {
        proof {
            assert(kv.take(i + 1) =~= kv.take(i as int).push(kv[i as int]));
            lemma_keys_filter_push(kv.take(i as int), kv[i as int], Seq::empty(), bv);
        }
        if !contains_key(b, &v[i]) {
            let ghost o0 = keys_view(out@);
            out.push(v[i].duplicate());
            proof {
                assert(keys_view(out@) =~= o0.push(kv[i as int]));
            }
        }
        i = i + 1;
    }
    proof {
        assert(kv.take(kv.len() as int) =~= kv);
        lemma_filter_nodup(kv, |x: Seq<Seq<char>>| !bv.contains(x));
    }
    out
}

/// Where the task with this number is.
fn find_task(v: &Vec<(IoTaskId, StorageKey)>, t: IoTaskId) -> (r: Option<usize>)
    requires
        task_ids_distinct(task_keys_view(v@)),
    ensures
        match r {
            Some(i) => i < v@.len() && has_task(task_keys_view(v@), t.value())
                && task_pos(task_keys_view(v@), t.value()) == i && task_keys_view(v@)[i as int].0 == t.value(),
            None => !has_task(task_keys_view(v@), t.value()),
        },
{
    let ghost s = task_keys_view(v@);
    let mut i: usize = 0;
    while i < v.len()
        invariant
            i <= v@.len(),
            s == task_keys_view(v@),
            task_ids_distinct(s),
            forall|j: int| 0 <= j < i ==> s[j].0 != t.value(),
        decreases v@.len() - i,
    {
        proof {
            lemma_task_id_eq(v@[i as int].0, t);
        }
        if v[i].0 == t {
            proof {
                assert(s[i as int].0 == t.value());
                let k = task_pos(s, t.value());
                if k < i {
                    assert(s[k].0 != s[i as int].0);
                } else if k > i {
                    assert(s[i as int].0 != s[k].0);
                }
            }
            return Some(i);
        }
        i = i + 1;
    }
    None
}

/// Records a running task for a key.
fn put_task(v: &mut Vec<(IoTaskId, StorageKey)>, t: IoTaskId, k: StorageKey)
    requires
        task_ids_distinct(task_keys_view(old(v)@)),
    ensures
        task_keys_view(final(v)@) == task_put(task_keys_view(old(v)@), t.value(), k@),
        task_ids_distinct(task_keys_view(final(v)@)),
{
    let ghost before = task_keys_view(v@);
    let ghost kv = k@;
    match find_task(v, t) {
        Some(i) => {
            v.set(i, (t, k));
            proof {
                assert(task_keys_view(v@) =~= before.update(i as int, (t.value(), kv)));
                let s = task_keys_view(v@);
                assert forall|a: int, b: int| 0 <= a < b < s.len() implies #[trigger] s[a].0 != #[trigger] s[b].0 by {
                    assert(s[a].0 == before[a].0 && s[b].0 == before[b].0);
                }
            }
        },
        None => {
            v.push((t, k));
            proof {
                assert(task_keys_view(v@) =~= before.push((t.value(), kv)));
            }
        },
    }
}

/// Forgets a running task, and returns its key.
fn remove_task(v: &mut Vec<(IoTaskId, StorageKey)>, t: IoTaskId) -> (r: Option<StorageKey>)
    requires
        task_ids_distinct(task_keys_view(old(v)@)),
    ensures
        has_task(task_keys_view(old(v)@), t.value()) ==>
            (r matches Some(k) && k@ == task_keys_view(old(v)@)[task_pos(task_keys_view(old(v)@), t.value())].1),
        !has_task(task_keys_view(old(v)@), t.value()) ==> r is None,
        task_keys_view(final(v)@) == task_remove(task_keys_view(old(v)@), t.value()),
        task_ids_distinct(task_keys_view(final(v)@)),
{
    let ghost before = task_keys_view(v@);
    match find_task(v, t) {
        Some(i) => {
            let (_, k) = v.remove(i);
            proof {
                assert(task_keys_view(v@) =~= before.remove(i as int));
                let s = task_keys_view(v@);
                assert forall|a: int, b: int| 0 <= a < b < s.len() implies #[trigger] s[a].0 != #[trigger] s[b].0 by {
                    let a0 = if a < i { a } else { a + 1 };
                    let b0 = if b < i { b } else { b + 1 };
                    assert(s[a] == before[a0] && s[b] == before[b0]);
                }
            }
            Some(k)
        },
        None => None,
    }
}


/// The changes to save, each as its hash and bytes.
pub open spec fn changes_view(v: Seq<(ChangeHash, Vec<u8>)>) -> Seq<(Seq<u8>, Seq<u8>)> {
    v.map_values(|c: (ChangeHash, Vec<u8>)| (c.0@, c.1@))
}

/// The view of optional bytes.
pub open spec fn opt_bytes_view(v: Option<Vec<u8>>) -> Option<Seq<u8>> {
    match v {
        Some(b) => Some(b@),
        None => None,
    }
}

/// A save of document `doc` with new changes `nc`, heads `heads` and, when
/// compacting, the whole document `snapshot`, took the state from `v0` to
/// `v1` and the tasks from `t0` to `t1`: when a compaction is due, one
/// write of the snapshot under its snapshot key, which replaces every other
/// key on disk; else one write per new change under its incremental key;
/// then a delete per key waiting to be deleted.
pub open spec fn save_recorded(
    v0: OnDiskView,
    t0: Seq<(u64, DocumentIoTaskView)>,
    v1: OnDiskView,
    t1: Seq<(u64, DocumentIoTaskView)>,
    doc: Seq<u8>,
    nc: Seq<(Seq<u8>, Seq<u8>)>,
    heads: Seq<Seq<u8>>,
    snapshot: Option<Seq<u8>>,
) -> bool {
    let due = compaction_due(v0, nc.len());
    let k = t0.len();
    let n = if due { 1 } else { nc.len() };
    let key = snapshot_key(doc, heads);
    let ts = t1;
    &&& ts.len() == k + n + v0.deletions.len()
    &&& ts.take(k as int) == t0
    &&& due ==> {
        &&& ts[k as int].1 == DocumentIoTaskView::Storage(StorageTaskView::Put { key, value: snapshot.unwrap() })
        &&& v1.compaction == Some((ts[k as int].0, without(v0.on_disk, key)))
        &&& !without(v0.on_disk, key).contains(key)
    }
    &&& !due ==> {
        &&& forall|i: int| 0 <= i < nc.len() ==> (#[trigger] ts[k + i]).1 == DocumentIoTaskView::Storage(
            StorageTaskView::Put { key: incremental_key(doc, nc[i].0), value: nc[i].1 },
        )
        &&& v1.compaction == v0.compaction
    }
    &&& v1.running_puts == tasks_started(v0.running_puts, ts.subrange(k as int, (k + n) as int))
    &&& forall|j: int| 0 <= j < v0.deletions.len() ==> (#[trigger] ts[k + n + j]).1
        == DocumentIoTaskView::Storage(StorageTaskView::Delete { key: v0.deletions[j] })
    &&& v1.running_deletes == tasks_started(v0.running_deletes, ts.subrange((k + n) as int, ts.len() as int))
    &&& v1.deletions.len() == 0
    &&& v1.on_disk == v0.on_disk
    &&& v1.last_saved_heads == Some(heads)
}

impl OnDiskState {
    /// Nothing known on disk, nothing under way.
    pub fn new() -> (r: OnDiskState)
        ensures
            r@.last_saved_heads is None,
            r@.on_disk.len() == 0,
            r@.compaction is None,
            r@.deletions.len() == 0,
            r@.running_puts.len() == 0,
            r@.running_deletes.len() == 0,
            on_disk_wf(r@),
    {
        let r = OnDiskState {
            last_saved_heads: None,
            on_disk: Vec::new(),
            compaction: None,
            deletions: Vec::new(),
            running_puts: Vec::new(),
            running_deletes: Vec::new(),
        };
        proof {
            assert(r@.on_disk =~= Seq::empty());
            assert(r@.deletions =~= Seq::empty());
        }
        r
    }

    /// Records keys known to be on disk.
    pub fn add_keys(&mut self, keys: Vec<StorageKey>)
        requires
            on_disk_wf(old(self)@),
        ensures
            final(self)@ == (OnDiskView { on_disk: insert_all(old(self)@.on_disk, keys_view(keys@)), ..old(self)@ }),
            on_disk_wf(final(self)@),
    {
        let ghost before = self@;
        let ghost kv = keys_view(keys@);
        let mut i: usize = 0;
        while i < keys.len()
            invariant
                i <= keys@.len(),
                kv == keys_view(keys@),
                self@ == (OnDiskView { on_disk: insert_all(before.on_disk, kv.take(i as int)), ..before }),
                self@.on_disk.no_duplicates(),
            decreases keys@.len() - i,
        {
            proof {
                assert(kv.take(i + 1).drop_last() =~= kv.take(i as int));
            }
            insert_key(&mut self.on_disk, keys[i].duplicate());
            i = i + 1;
        }
        proof {
            assert(kv.take(kv.len() as int) =~= kv);
        }
    }

    /// Whether no write is under way.
    pub fn is_flushed(&self) -> (r: bool)
        ensures
            r == (self@.running_puts.len() == 0),
    {
        self.running_puts.len() == 0
    }

    /// Whether a write or delete with the given ID is under way.
    pub fn has_task(&self, task_id: IoTaskId) -> (r: bool)
        requires
            on_disk_wf(self@),
        ensures
            r == (has_task(self@.running_puts, task_id.value()) || has_task(self@.running_deletes, task_id.value())),
    {
        find_task(&self.running_puts, task_id).is_some() || find_task(&self.running_deletes, task_id).is_some()
    }
}


impl OnDiskState {
    /// Whether a save with this many new changes compacts.
    pub fn compaction_due(&self, new_changes: usize) -> (r: bool)
        requires
            on_disk_wf(self@),
        ensures
            r == compaction_due(self@, new_changes as nat),
    {
        self.compaction.is_none() && (new_changes > 10 || self.on_disk.len() > 10)
    }

    /// Records a save: when a compaction is due, one write of the whole
    /// document (`snapshot`) under its snapshot key, which replaces every
    /// other key on disk; else one write per new change under its
    /// incremental key. Then a delete per key waiting to be deleted.
    pub fn record_save(
        &mut self,
        out: &mut DocActorResult,
        doc_id: &DocumentId,
        new_changes: Vec<(ChangeHash, Vec<u8>)>,
        heads: Vec<ChangeHash>,
        snapshot: Option<Vec<u8>>,
    )
        requires
            on_disk_wf(old(self)@),
            snapshot is Some <==> compaction_due(old(self)@, new_changes@.len()),
            forall|i: int| 0 <= i < heads@.len() ==> (#[trigger] heads@[i])@.len() == 32,
        ensures
            save_recorded(
                old(self)@,
                old(out).tasks(),
                final(self)@,
                final(out).tasks(),
                doc_id@,
                changes_view(new_changes@),
                hashes_view(heads@),
                opt_bytes_view(snapshot),
            ),
            final(out).outgoing_messages@ == old(out).outgoing_messages@,
            final(out).ephemeral_messages@ == old(out).ephemeral_messages@,
            final(out).change_events@ == old(out).change_events@,
            final(out).stopped == old(out).stopped,
            on_disk_wf(final(self)@),
    {
        let ghost before = self@;
        let ghost t0 = out.tasks();
        let ghost k = t0.len();
        let ghost due = compaction_due(before, new_changes@.len());
        let ghost n: nat = if due { 1 } else { new_changes@.len() };
        match snapshot {
            Some(bytes) => {
                let hash = CompactionHash::new(heads.as_slice());
                let key = StorageKey::snapshot_path(doc_id, &hash);
                let ghost kv = key@;
                proof {
                    assert(kv == snapshot_key(doc_id@, hashes_view(heads@)));
                }
                let ghost bv = bytes@;
                let put_id = out.put(key.duplicate(), bytes);
                let supercedes = keys_without(&self.on_disk, &key);
                proof {
                    reveal_with_fuel(Seq::<Seq<Seq<char>>>::filter, 1);
                    if without(before.on_disk, kv).contains(kv) {
                        let i = choose|i: int| 0 <= i < without(before.on_disk, kv).len() && without(before.on_disk, kv)[i] == kv;
                        before.on_disk.lemma_filter_pred(|x: Seq<Seq<char>>| x != kv, i);
                    }
                }
                self.compaction = Some(Compaction { task: put_id, supercedes });
                put_task(&mut self.running_puts, put_id, key);
                proof {
                    let ts = out.tasks();
                    assert(ts.subrange(k as int, (k + 1) as int) =~= seq![(put_id.value(), DocumentIoTaskView::Storage(StorageTaskView::Put { key: kv, value: bv }))]);
                    let one = ts.subrange(k as int, (k + 1) as int);
                    assert(one.drop_last() =~= Seq::<(u64, DocumentIoTaskView)>::empty());
                    assert(tasks_started(before.running_puts, one.drop_last()) == before.running_puts);
                }
            },
            None => {
                let mut i: usize = 0;
                while i < new_changes.len()
                    invariant
                        i <= new_changes@.len(),
                        !due,
                        n == new_changes@.len(),
                        k == t0.len(),
                        out.tasks().len() == k + i,
                        out.tasks().take(k as int) == t0,
                        forall|j: int| 0 <= j < i ==> (#[trigger] out.tasks()[k + j]).1 == DocumentIoTaskView::Storage(
                            StorageTaskView::Put { key: incremental_key(doc_id@, new_changes@[j].0@), value: new_changes@[j].1@ },
                        ),
                        self@ == (OnDiskView { running_puts: self@.running_puts, ..before }),
                        on_disk_wf(self@),
                        self@.running_puts == tasks_started(before.running_puts, out.tasks().subrange(k as int, (k + i) as int)),
                        out.outgoing_messages@ == old(out).outgoing_messages@,
                        out.ephemeral_messages@ == old(out).ephemeral_messages@,
                        out.change_events@ == old(out).change_events@,
                        out.stopped == old(out).stopped,
                    decreases new_changes@.len() - i,
                {
                    let ghost ts0 = out.tasks();
                    let key = StorageKey::incremental_path(doc_id, &new_changes[i].0);
                    let value = new_changes[i].1.clone();
                    proof {
                        assert(value@ =~= new_changes@[i as int].1@);
                    }
                    let put_id = out.put(key.duplicate(), value);
                    put_task(&mut self.running_puts, put_id, key);
                    proof {
                        let ts = out.tasks();
                        assert(ts.take(k as int) =~= ts0.take(k as int));
                        assert(ts.subrange(k as int, (k + i + 1) as int).drop_last() =~= ts0.subrange(k as int, (k + i) as int));
                        assert(ts.subrange(k as int, (k + i + 1) as int).last() == ts[k + i]);
                        assert forall|j: int| 0 <= j < i + 1 implies (#[trigger] ts[k + j]).1 == DocumentIoTaskView::Storage(
                            StorageTaskView::Put { key: incremental_key(doc_id@, new_changes@[j].0@), value: new_changes@[j].1@ },
                        ) by {
                            if j < i {
                                assert(ts[k + j] == ts0[k + j]);
                            }
                        }
                    }
                    i = i + 1;
                }
            },
        }
        let ghost mid = self@;
        let ghost tm = out.tasks();
        let mut dels: Vec<StorageKey> = Vec::new();
        std::mem::swap(&mut dels, &mut self.deletions);
        proof {
            assert(self@.deletions =~= Seq::empty());
        }
        let mut j: usize = 0;
        while j < dels.len()
            invariant
                j <= dels@.len(),
                keys_view(dels@) == before.deletions,
                out.tasks().len() == k + n + j,
                tm.len() == k + n,
                out.tasks().take((k + n) as int) == tm,
                forall|x: int| 0 <= x < j ==> (#[trigger] out.tasks()[k + n + x]).1
                    == DocumentIoTaskView::Storage(StorageTaskView::Delete { key: before.deletions[x] }),
                self@ == (OnDiskView { running_deletes: self@.running_deletes, deletions: Seq::empty(), ..mid }),
                on_disk_wf(self@),
                self@.running_deletes == tasks_started(before.running_deletes, out.tasks().subrange((k + n) as int, (k + n + j) as int)),
                out.outgoing_messages@ == old(out).outgoing_messages@,
                out.ephemeral_messages@ == old(out).ephemeral_messages@,
                out.change_events@ == old(out).change_events@,
                out.stopped == old(out).stopped,
            decreases dels@.len() - j,
        {
            let ghost ts0 = out.tasks();
            let key = dels[j].duplicate();
            let delete_id = out.delete(key.duplicate());
            put_task(&mut self.running_deletes, delete_id, key);
            proof {
                let ts = out.tasks();
                assert(ts.take((k + n) as int) =~= ts0.take((k + n) as int));
                assert(ts.subrange((k + n) as int, (k + n + j + 1) as int).drop_last() =~= ts0.subrange((k + n) as int, (k + n + j) as int));
                assert(ts.subrange((k + n) as int, (k + n + j + 1) as int).last() == ts[k + n + j]);
                assert forall|x: int| 0 <= x < j + 1 implies (#[trigger] ts[k + n + x]).1
                    == DocumentIoTaskView::Storage(StorageTaskView::Delete { key: before.deletions[x] }) by {
                    if x < j {
                        assert(ts[k + n + x] == ts0[k + n + x]);
                    }
                }
            }
            j = j + 1;
        }
        self.last_saved_heads = Some(heads);
        proof {
            let ts = out.tasks();
            assert(ts.take(k as int) =~= tm.take(k as int));
            assert(ts.subrange(k as int, (k + n) as int) =~= tm.subrange(k as int, (k + n) as int));
            assert(ts.subrange((k + n) as int, ts.len() as int) =~= ts.subrange((k + n) as int, (k + n + j) as int));
            assert forall|x: int| 0 <= x < n implies #[trigger] ts[k + x] == tm[k + x] by {}
            let key = snapshot_key(doc_id@, hashes_view(heads@));
            assert(ts.len() == k + n + before.deletions.len());
            assert(ts.take(k as int) == t0);
            assert(self@.running_puts == tasks_started(before.running_puts, ts.subrange(k as int, (k + n) as int)));
            assert(self@.running_deletes == tasks_started(before.running_deletes, ts.subrange((k + n) as int, ts.len() as int)));
            assert(self@.deletions.len() == 0);
            assert(self@.on_disk == before.on_disk);
            assert(self@.last_saved_heads == Some(hashes_view(heads@)));
            if due {
                assert(ts[k as int].1 == DocumentIoTaskView::Storage(StorageTaskView::Put { key, value: snapshot.unwrap()@ }));
                assert(self@.compaction == Some((ts[k as int].0, without(before.on_disk, key))));
            } else {
                assert(self@.compaction == before.compaction);
            }
        }
    }
}


/// The state after the write of `key` by task `t` finished: if it was the
/// compaction's, the replaced keys leave the disk and wait to be deleted,
/// and the compaction is over; either way, the key is on disk.
pub open spec fn after_put_complete(v: OnDiskView, t: u64, key: Seq<Seq<char>>) -> OnDiskView {
    match v.compaction {
        Some((ct, sup)) => if ct == t {
            OnDiskView {
                on_disk: set_insert(minus(v.on_disk, sup), key),
                deletions: insert_all(v.deletions, sup),
                compaction: None,
                ..v
            }
        } else {
            OnDiskView { on_disk: set_insert(v.on_disk, key), ..v }
        },
        None => OnDiskView { on_disk: set_insert(v.on_disk, key), ..v },
    }
}

proof fn lemma_insert_all_excludes(s: Seq<Seq<Seq<char>>>, add: Seq<Seq<Seq<char>>>, k: Seq<Seq<char>>)
    requires
        !s.contains(k),
        !add.contains(k),
    ensures
        !insert_all(s, add).contains(k),
    decreases add.len(),
{
    if add.len() > 0 {
        let init = add.drop_last();
        assert forall|i: int| 0 <= i < init.len() implies init[i] != k by {
            assert(init[i] == add[i]);
        }
        lemma_insert_all_excludes(s, init, k);
        assert(add.last() == add[add.len() - 1]);
    }
}

/// The snapshot a compaction writes is never among the keys it replaces:
/// when that write finishes, the snapshot is on disk, it is not waiting to
/// be deleted, and the compaction is over.
pub proof fn lemma_compaction_keeps_its_snapshot(v: OnDiskView, t: u64, key: Seq<Seq<char>>)
    requires
        v.compaction matches Some((ct, sup)) && ct == t && !sup.contains(key),
        !v.deletions.contains(key),
    ensures
        after_put_complete(v, t, key).on_disk.contains(key),
        !after_put_complete(v, t, key).deletions.contains(key),
        after_put_complete(v, t, key).compaction is None,
{
    let sup = match v.compaction {
        Some((_, s)) => s,
        None => Seq::empty(),
    };
    lemma_insert_all_excludes(v.deletions, sup, key);
    let kept = minus(v.on_disk, sup);
    if !kept.contains(key) {
        assert(kept.push(key)[kept.len() as int] == key);
    }
}

impl OnDiskState {
    /// Marks the write of `key` by task `t` as done.
    fn mark_put_complete(&mut self, t: IoTaskId, key: StorageKey)
        requires
            on_disk_wf(old(self)@),
        ensures
            final(self)@ == after_put_complete(old(self)@, t.value(), key@),
            on_disk_wf(final(self)@),
    {
        let ghost before = self@;
        let is_ours = match &self.compaction {
            Some(c) => {
                proof {
                    lemma_task_id_eq(c.task, t);
                }
                c.task == t
            },
            None => false,
        };
        if is_ours {
            let mut taken: Option<Compaction> = None;
            std::mem::swap(&mut taken, &mut self.compaction);
            match taken {
                Some(c) => {
                    let kept = keys_minus(&self.on_disk, &c.supercedes);
                    self.on_disk = kept;
                    let ghost sup = keys_view(c.supercedes@);
                    let mut i: usize = 0;
                    while i < c.supercedes.len()
                        invariant
                            i <= c.supercedes@.len(),
                            sup == keys_view(c.supercedes@),
                            self@ == (OnDiskView {
                                on_disk: minus(before.on_disk, sup),
                                deletions: insert_all(before.deletions, sup.take(i as int)),
                                compaction: None,
                                ..before
                            }),
                            self@.deletions.no_duplicates(),
                            self@.on_disk.no_duplicates(),
                        decreases c.supercedes@.len() - i,
                    {
                        proof {
                            assert(sup.take(i + 1).drop_last() =~= sup.take(i as int));
                        }
                        insert_key(&mut self.deletions, c.supercedes[i].duplicate());
                        i = i + 1;
                    }
                    proof {
                        assert(sup.take(sup.len() as int) =~= sup);
                    }
                },
                None => {},
            }
        }
        insert_key(&mut self.on_disk, key);
    }

    /// Takes the result of a write or delete: a finished write puts its key
    /// on disk (and ends the compaction it belongs to), a finished delete
    /// takes its key off; a result for no running task of its kind is an
    /// error.
    pub fn task_complete(&mut self, task_id: IoTaskId, result: StorageResult) -> (r: Result<(), DocumentError>)
        requires
            on_disk_wf(old(self)@),
        ensures
            on_disk_wf(final(self)@),
            match result {
                StorageResult::Put => if has_task(old(self)@.running_puts, task_id.value()) {
                    let key = old(self)@.running_puts[task_pos(old(self)@.running_puts, task_id.value())].1;
                    &&& r is Ok
                    &&& final(self)@ == after_put_complete(
                        OnDiskView { running_puts: task_remove(old(self)@.running_puts, task_id.value()), ..old(self)@ },
                        task_id.value(),
                        key,
                    )
                } else {
                    r == Err::<(), DocumentError>(DocumentError::UnexpectedStorageResult(task_id)) && final(self)@ == old(self)@
                },
                StorageResult::Delete => if has_task(old(self)@.running_deletes, task_id.value()) {
                    let key = old(self)@.running_deletes[task_pos(old(self)@.running_deletes, task_id.value())].1;
                    &&& r is Ok
                    &&& final(self)@ == (OnDiskView {
                        running_deletes: task_remove(old(self)@.running_deletes, task_id.value()),
                        on_disk: without(old(self)@.on_disk, key),
                        ..old(self)@
                    })
                } else {
                    r == Err::<(), DocumentError>(DocumentError::UnexpectedStorageResult(task_id)) && final(self)@ == old(self)@
                },
                _ => r == Err::<(), DocumentError>(DocumentError::UnexpectedStorageResult(task_id)) && final(self)@ == old(self)@,
            },
    {
        match result {
            StorageResult::Put => match remove_task(&mut self.running_puts, task_id) {
                Some(key) => {
                    self.mark_put_complete(task_id, key);
                    Ok(())
                },
                None => Err(DocumentError::UnexpectedStorageResult(task_id)),
            },
            StorageResult::Delete => match remove_task(&mut self.running_deletes, task_id) {
                Some(key) => {
                    let kept = keys_without(&self.on_disk, &key);
                    self.on_disk = kept;
                    Ok(())
                },
                None => Err(DocumentError::UnexpectedStorageResult(task_id)),
            },
            _ => Err(DocumentError::UnexpectedStorageResult(task_id)),
        }
    }

    /// Saves the changes made since the last save, as `record_save` says,
    /// with the new changes, heads and (when compacting) whole-document bytes
    /// that automerge gives for `doc`.
    pub fn save_new_changes(&mut self, out: &mut DocActorResult, doc_id: &DocumentId, doc: &automerge::Automerge)
        requires
            on_disk_wf(old(self)@),
        ensures
            on_disk_wf(final(self)@),
            final(self)@.deletions.len() == 0,
            final(self)@.on_disk == old(self)@.on_disk,
            final(self)@.last_saved_heads is Some,
            old(out).tasks().is_prefix_of(final(out).tasks()),
            save_recorded(
                old(self)@,
                old(out).tasks(),
                final(self)@,
                final(out).tasks(),
                doc_id@,
                doc_new_changes(*doc, old(self)@),
                doc_heads_of(*doc),
                snapshot_if_due(*doc, old(self)@, doc_new_changes(*doc, old(self)@).len()),
            ),
            final(out).outgoing_messages@ == old(out).outgoing_messages@,
            final(out).ephemeral_messages@ == old(out).ephemeral_messages@,
            final(out).change_events@ == old(out).change_events@,
            final(out).stopped == old(out).stopped,
    {
        let empty: Vec<ChangeHash> = Vec::new();
        let changes = match &self.last_saved_heads {
            Some(h) => {
                proof {
                    let hv = hashes_view(h@);
                    assert(self@.last_saved_heads == Some(hv));
                    assert(on_disk_wf(self@));
                    assert(hv.len() == h@.len());
                    assert forall|i: int| 0 <= i < h@.len() implies (#[trigger] h@[i])@.len() == 32 by {
                        assert(hv[i] == h@[i]@);
                        assert(self@.last_saved_heads->0[i].len() == 32);
                    }
                }
                doc_changes(doc, h.as_slice())
            },
            None => {
                proof {
                    assert(hashes_view(empty@) =~= Seq::<Seq<u8>>::empty());
                }
                doc_changes(doc, empty.as_slice())
            },
        };
        let ghost ce = change_entries(changes@);
        proof {
            assert(ce == doc_new_changes(*doc, self@));
        }
        let mut new_changes: Vec<(ChangeHash, Vec<u8>)> = Vec::new();
        let mut i: usize = 0;
        while i < changes.len()
            invariant
                i <= changes@.len(),
                new_changes@.len() == i,
                ce == change_entries(changes@),
                changes_view(new_changes@) == ce.take(i as int),
            decreases changes@.len() - i,
        {
            let ghost before = changes_view(new_changes@);
            new_changes.push((change_hash(&changes[i]), change_bytes(&changes[i])));
            proof {
                assert(changes_view(new_changes@) =~= before.push(ce[i as int]));
                assert(ce.take(i + 1) =~= ce.take(i as int).push(ce[i as int]));
            }
            i = i + 1;
        }
        proof {
            assert(ce.take(changes@.len() as int) =~= ce);
        }
        let heads = doc_heads(doc);
        let snapshot = if self.compaction_due(new_changes.len()) {
            Some(doc_save(doc))
        } else {
            None
        };
        let ghost t0 = out.tasks();
        let ghost v0 = self@;
        let ghost ncv = changes_view(new_changes@);
        let ghost hv = hashes_view(heads@);
        let ghost sv = opt_bytes_view(snapshot);
        proof {
            assert forall|i: int| 0 <= i < hv.len() implies (#[trigger] hv[i]).len() == 32 by {
                assert(hv[i] == heads@[i]@);
            }
        }
        self.record_save(out, doc_id, new_changes, heads, snapshot);
        proof {
            assert(t0.is_prefix_of(out.tasks()));
            assert(save_recorded(v0, t0, self@, out.tasks(), doc_id@, ncv, hv, sv));
        }
    }
}

} // verus!
