//! A key/value storage held in memory, which answers storage requests.

use vstd::prelude::*;

use crate::io::{StorageResult, StorageTask, StorageTaskView};
use crate::load::entries_view;
use crate::storage_key::{is_prefix, StorageKey};

verus! {

/// There is an entry for this key.
pub open spec fn has_key(s: Seq<(Seq<Seq<char>>, Seq<u8>)>, k: Seq<Seq<char>>) -> bool {
    exists|i: int| 0 <= i < s.len() && #[trigger] s[i].0 == k
}

/// The position of the entry for this key.
pub open spec fn key_pos(s: Seq<(Seq<Seq<char>>, Seq<u8>)>, k: Seq<Seq<char>>) -> int {
    choose|i: int| 0 <= i < s.len() && #[trigger] s[i].0 == k
}

/// The value under a key, if there is one.
pub open spec fn lookup(s: Seq<(Seq<Seq<char>>, Seq<u8>)>, k: Seq<Seq<char>>) -> Option<Seq<u8>> {
    if has_key(s, k) { Some(s[key_pos(s, k)].1) } else { None }
}

/// The entries with `v` under `k`: its entry replaced when there is one,
/// else added at the end.
pub open spec fn store(s: Seq<(Seq<Seq<char>>, Seq<u8>)>, k: Seq<Seq<char>>, v: Seq<u8>) -> Seq<(Seq<Seq<char>>, Seq<u8>)> {
    if has_key(s, k) { s.update(key_pos(s, k), (k, v)) } else { s.push((k, v)) }
}

/// The entries without the one for `k`.
pub open spec fn erase(s: Seq<(Seq<Seq<char>>, Seq<u8>)>, k: Seq<Seq<char>>) -> Seq<(Seq<Seq<char>>, Seq<u8>)> {
    if has_key(s, k) { s.remove(key_pos(s, k)) } else { s }
}

/// The entries whose key starts with `prefix`, in order.
pub open spec fn with_prefix(s: Seq<(Seq<Seq<char>>, Seq<u8>)>, prefix: Seq<Seq<char>>) -> Seq<(Seq<Seq<char>>, Seq<u8>)> {
    s.filter(|e: (Seq<Seq<char>>, Seq<u8>)| is_prefix(prefix, e.0))
}

/// Each key has one entry.
pub open spec fn keys_distinct(s: Seq<(Seq<Seq<char>>, Seq<u8>)>) -> bool {
    forall|i: int, j: int| 0 <= i < j < s.len() ==> #[trigger] s[i].0 != #[trigger] s[j].0
}

/// The answer to a request, and the entries after it.
pub open spec fn spec_handle(s: Seq<(Seq<Seq<char>>, Seq<u8>)>, t: StorageTaskView) -> (Seq<(Seq<Seq<char>>, Seq<u8>)>, StorageResultView) {
    match t {
        StorageTaskView::Load { key } => (s, StorageResultView::Load { value: lookup(s, key) }),
        StorageTaskView::LoadRange { prefix } => (s, StorageResultView::LoadRange { values: with_prefix(s, prefix) }),
        StorageTaskView::Put { key, value } => (store(s, key, value), StorageResultView::Put),
        StorageTaskView::Delete { key } => (erase(s, key), StorageResultView::Delete),
    }
}

/// The abstract value of a [`StorageResult`].
pub enum StorageResultView {
    Load { value: Option<Seq<u8>> },
    LoadRange { values: Seq<(Seq<Seq<char>>, Seq<u8>)> },
    Put,
    Delete,
}

impl View for StorageResult {
    type V = StorageResultView;

    open spec fn view(&self) -> StorageResultView {
        match self {
            StorageResult::Load { value } => StorageResultView::Load {
                value: match value {
                    Some(v) => Some(v@),
                    None => None,
                },
            },
            StorageResult::LoadRange { values } => StorageResultView::LoadRange { values: entries_view(values@) },
            StorageResult::Put => StorageResultView::Put,
            StorageResult::Delete => StorageResultView::Delete,
        }
    }
}

/// A storage held in memory: a list of entries, one per key.
#[derive(Debug)]
pub struct MemoryStorage {
    entries: Vec<(StorageKey, Vec<u8>)>,
}

impl View for MemoryStorage {
    type V = Seq<(Seq<Seq<char>>, Seq<u8>)>;

    closed spec fn view(&self) -> Seq<(Seq<Seq<char>>, Seq<u8>)> {
        entries_view(self.entries@)
    }
}

proof fn lemma_prefix_filter_push(s: Seq<(Seq<Seq<char>>, Seq<u8>)>, x: (Seq<Seq<char>>, Seq<u8>), prefix: Seq<Seq<char>>)
    ensures
        with_prefix(s.push(x), prefix) == if is_prefix(prefix, x.0) { with_prefix(s, prefix).push(x) } else { with_prefix(s, prefix) },
{
    reveal_with_fuel(Seq::<(Seq<Seq<char>>, Seq<u8>)>::filter, 1);
    assert(s.push(x).drop_last() =~= s);
}

impl MemoryStorage {
    /// An empty storage.
    pub fn new() -> (r: MemoryStorage)
        ensures
            r@.len() == 0,
            keys_distinct(r@),
    {
        let r = MemoryStorage { entries: Vec::new() };
        proof {
            assert(r@ =~= Seq::empty());
        }
        r
    }

    /// Every entry, in order.
    pub fn entries(&self) -> (r: &Vec<(StorageKey, Vec<u8>)>)
        ensures
            entries_view(r@) == self@,
    {
        &self.entries
    }

    /// Where the entry for a key is.
    fn find(&self, key: &StorageKey) -> (r: Option<usize>)
        requires
            keys_distinct(self@),
        ensures
            match r {
                Some(i) => i < self@.len() && has_key(self@, key@) && key_pos(self@, key@) == i && self@[i as int].0 == key@,
                None => !has_key(self@, key@),
            },
    {
        let ghost s = self@;
        let mut i: usize = 0;
        while i < self.entries.len()
            invariant
                i <= self.entries@.len(),
                s == entries_view(self.entries@),
                keys_distinct(s),
                forall|j: int| 0 <= j < i ==> s[j].0 != key@,
            decreases self.entries@.len() - i,
        {
            if self.entries[i].0.same_as(key) {
                proof {
                    assert(s[i as int].0 == key@);
                    let k = key_pos(s, key@);
                    if k < i {
                        assert(s[k].0 != s[i as int].0);
                    } else if k > i {
                        assert(s[i as int].0 != s[k].0);
                    }
                }
                return Some(i);
            }
            i = i + 1;
        }
        None
    }

    /// The value under a key.
    pub fn load(&self, key: &StorageKey) -> (r: Option<Vec<u8>>)
        requires
            keys_distinct(self@),
        ensures
            match r {
                Some(v) => lookup(self@, key@) == Some(v@),
                None => lookup(self@, key@) is None,
            },
    {
        match self.find(key) {
            Some(i) => {
                let v = self.entries[i].1.clone();
                proof {
                    assert(v@ =~= self@[i as int].1);
                }
                Some(v)
            },
            None => None,
        }
    }

    /// The entries whose key starts with `prefix`.
    pub fn load_range(&self, prefix: &StorageKey) -> (r: Vec<(StorageKey, Vec<u8>)>)
        ensures
            entries_view(r@) == with_prefix(self@, prefix@),
    {
        let ghost s = self@;
        let mut out: Vec<(StorageKey, Vec<u8>)> = Vec::new();
        let mut i: usize = 0;
        while i < self.entries.len()
            invariant
                i <= self.entries@.len(),
                s == entries_view(self.entries@),
                entries_view(out@) == with_prefix(s.take(i as int), prefix@),
            decreases self.entries@.len() - i,
        {
            proof {
                assert(s.take(i + 1) =~= s.take(i as int).push(s[i as int]));
                lemma_prefix_filter_push(s.take(i as int), s[i as int], prefix@);
            }
            if prefix.is_prefix_of(&self.entries[i].0) {
                let ghost o0 = entries_view(out@);
                let v = self.entries[i].1.clone();
                proof {
                    assert(v@ =~= s[i as int].1);
                }
                out.push((self.entries[i].0.duplicate(), v));
                proof {
                    assert(entries_view(out@) =~= o0.push(s[i as int]));
                }
            }
            i = i + 1;
        }
        proof {
            assert(s.take(s.len() as int) =~= s);
        }
        out
    }

    /// Writes a value under a key.
    pub fn put(&mut self, key: StorageKey, value: Vec<u8>)
        requires
            keys_distinct(old(self)@),
        ensures
            final(self)@ == store(old(self)@, key@, value@),
            keys_distinct(final(self)@),
    {
        let ghost before = self@;
        let ghost kv = key@;
        let ghost vv = value@;
        match self.find(&key) {
            Some(i) => {
                self.entries.set(i, (key, value));
                proof {
                    assert(self@ =~= before.update(i as int, (kv, vv)));
                    let s = self@;
                    assert forall|a: int, b: int| 0 <= a < b < s.len() implies #[trigger] s[a].0 != #[trigger] s[b].0 by {
                        assert(s[a].0 == before[a].0 && s[b].0 == before[b].0);
                    }
                }
            },
            None => {
                self.entries.push((key, value));
                proof {
                    assert(self@ =~= before.push((kv, vv)));
                }
            },
        }
    }

    /// Removes the value under a key.
    pub fn delete(&mut self, key: &StorageKey)
        requires
            keys_distinct(old(self)@),
        ensures
            final(self)@ == erase(old(self)@, key@),
            keys_distinct(final(self)@),
    {
        let ghost before = self@;
        match self.find(key) {
            Some(i) => {
                self.entries.remove(i);
                proof {
                    assert(self@ =~= before.remove(i as int));
                    let s = self@;
                    assert forall|a: int, b: int| 0 <= a < b < s.len() implies #[trigger] s[a].0 != #[trigger] s[b].0 by {
                        let a0 = if a < i { a } else { a + 1 };
                        let b0 = if b < i { b } else { b + 1 };
                        assert(s[a] == before[a0] && s[b] == before[b0]);
                    }
                }
            },
            None => {},
        }
    }

    /// Answers a storage request.
    pub fn handle_task(&mut self, task: StorageTask) -> (r: StorageResult)
        requires
            keys_distinct(old(self)@),
        ensures
            (final(self)@, r@) == spec_handle(old(self)@, task@),
            keys_distinct(final(self)@),
    {
        match task {
            StorageTask::Load { key } => StorageResult::Load { value: self.load(&key) },
            StorageTask::LoadRange { prefix } => StorageResult::LoadRange { values: self.load_range(&prefix) },
            StorageTask::Put { key, value } => {
                self.put(key, value);
                StorageResult::Put
            },
            StorageTask::Delete { key } => {
                self.delete(&key);
                StorageResult::Delete
            },
        }
    }
}

/// Reading a key gives back what was last written under it.
pub proof fn lemma_load_after_store(s: Seq<(Seq<Seq<char>>, Seq<u8>)>, k: Seq<Seq<char>>, v: Seq<u8>)
    requires
        keys_distinct(s),
    ensures
        lookup(store(s, k, v), k) == Some(v),
{
    let t = store(s, k, v);
    if has_key(s, k) {
        let i = key_pos(s, k);
        assert(t[i].0 == k);
        let j = key_pos(t, k);
        if j != i {
            assert(t[j] == s[j]);
            if j < i {
                assert(s[j].0 != s[i].0);
            } else {
                assert(s[i].0 != s[j].0);
            }
        }
    } else {
        let n = s.len() as int;
        assert(t[n].0 == k);
        let j = key_pos(t, k);
        if j != n {
            assert(t[j] == s[j]);
        }
    }
}

/// Writing under one key leaves the value under any other key as it was.
pub proof fn lemma_load_other_after_store(s: Seq<(Seq<Seq<char>>, Seq<u8>)>, k: Seq<Seq<char>>, v: Seq<u8>, other: Seq<Seq<char>>)
    requires
        keys_distinct(s),
        other != k,
    ensures
        lookup(store(s, k, v), other) == lookup(s, other),
{
    let t = store(s, k, v);
    if has_key(s, other) {
        let i = key_pos(s, other);
        assert(t[i] == s[i]);
        let j = key_pos(t, other);
        if j != i {
            assert(t[j].0 == other);
            if j < s.len() {
                assert(t[j] == s[j] || t[j].0 == k);
                if j < i {
                    assert(s[j].0 != s[i].0);
                } else {
                    assert(s[i].0 != s[j].0);
                }
            }
        }
    } else {
        if has_key(t, other) {
            let j = key_pos(t, other);
            if j < s.len() {
                assert(t[j] == s[j] || t[j].0 == k);
            }
        }
    }
}

/// After a delete, reading the key gives nothing.
pub proof fn lemma_load_after_erase(s: Seq<(Seq<Seq<char>>, Seq<u8>)>, k: Seq<Seq<char>>)
    requires
        keys_distinct(s),
    ensures
        lookup(erase(s, k), k) is None,
{
    let t = erase(s, k);
    if has_key(s, k) {
        let i = key_pos(s, k);
        if has_key(t, k) {
            let j = key_pos(t, k);
            let j0 = if j < i { j } else { j + 1 };
            assert(t[j] == s[j0]);
            if j0 < i {
                assert(s[j0].0 != s[i].0);
            } else {
                assert(s[i].0 != s[j0].0);
            }
        }
    }
}

} // verus!
