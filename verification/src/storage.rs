//! The on-disk layout of storage keys.

use vstd::prelude::*;

use crate::load::entries_view;
use crate::io::{StorageResult, StorageTask};
use crate::memory_storage::{erase, keys_distinct, lookup, spec_handle, store, with_prefix, MemoryStorage};
use crate::storage_key::StorageKey;

verus! {

/// A character that may appear in a hexadecimal identifier.
pub open spec fn is_hex_char(c: char) -> bool {
    let n = c as u32;
    (48 <= n <= 57) || (97 <= n <= 102) || (65 <= n <= 70)
}

/// A non-empty component made only of hexadecimal characters, such as the
/// string form of a document ID; such components are splayed on disk.
pub open spec fn is_hex_component(s: Seq<char>) -> bool {
    &&& s.len() > 0
    &&& forall|i: int| 0 <= i < s.len() ==> #[trigger] is_hex_char(s[i])
}

/// The segments that the first component of a key becomes: a hexadecimal
/// identifier is split after its second character, anything else stays whole.
pub open spec fn first_segments(s: Seq<char>) -> Seq<Seq<char>> {
    if is_hex_component(s) {
        let cut: int = if s.len() < 2 { s.len() as int } else { 2 };
        seq![s.take(cut), s.skip(cut)]
    } else {
        seq![s]
    }
}

/// The segments of a key before empty ones are dropped.
pub open spec fn raw_segments(key: Seq<Seq<char>>) -> Seq<Seq<char>> {
    if key.len() == 0 {
        Seq::empty()
    } else {
        first_segments(key[0]) + key.skip(1)
    }
}

/// `segs` without its empty segments, in order.
pub open spec fn drop_empty(segs: Seq<Seq<char>>) -> Seq<Seq<char>>
    decreases segs.len(),
{
    if segs.len() == 0 {
        segs
    } else {
        let rest = drop_empty(segs.drop_last());
        if segs.last().len() == 0 {
            rest
        } else {
            rest.push(segs.last())
        }
    }
}

/// The path segments under which a key is stored.
pub open spec fn spec_key_to_path(key: Seq<Seq<char>>) -> Seq<Seq<char>> {
    drop_empty(raw_segments(key))
}

fn is_hex_string(s: &str) -> (r: bool)
    ensures
        r == is_hex_component(s@),
{
    let n = s.unicode_len();
    if n == 0 {
        return false;
    }
    let mut i: usize = 0;
    while i < n
        invariant
            n == s@.len(),
            i <= n,
            forall|j: int| 0 <= j < i ==> #[trigger] is_hex_char(s@[j]),
        decreases n - i,
    {
        let c = s.get_char(i);
        let v = c as u32;
        if !((48 <= v && v <= 57) || (97 <= v && v <= 102) || (65 <= v && v <= 70)) {
            assert(!is_hex_char(s@[i as int]));
            return false;
        }
        i = i + 1;
    }
    true
}

fn push_nonempty(out: &mut Vec<String>, seg: String)
    ensures
        final(out).deep_view() == (if seg@.len() == 0 {
            old(out).deep_view()
        } else {
            old(out).deep_view().push(seg@)
        }),
{
    if seg.as_str().unicode_len() > 0 {
        let ghost before = out.deep_view();
        out.push(seg);
        proof {
            assert(out.deep_view() =~= before.push(seg@));
        }
    }
}

proof fn lemma_drop_empty_push(segs: Seq<Seq<char>>, s: Seq<char>)
    ensures
        drop_empty(segs.push(s)) == (if s.len() == 0 {
            drop_empty(segs)
        } else {
            drop_empty(segs).push(s)
        }),
{
    assert(segs.push(s).drop_last() =~= segs);
}

/// The path segments under which `key` is stored, relative to the storage
/// root.
///
/// The first component of a key is splayed when it is a hexadecimal
/// identifier: its first two characters become one directory and the rest
/// another. Empty segments do not appear in a path.
pub fn key_to_path(key: &StorageKey) -> (r: Vec<String>)
    ensures
        r.deep_view() == spec_key_to_path(key@),
{
    let parts = key.parts();
    let ghost k = key@;
    let mut out: Vec<String> = Vec::new();
    if parts.len() == 0 {
        proof {
            assert(out.deep_view() =~= spec_key_to_path(k));
        }
        return out;
    }
    let first = parts[0].as_str();
    let ghost fs = first_segments(k[0]);
    if is_hex_string(first) {
        let n = first.unicode_len();
        let cut: usize = if n < 2 { n } else { 2 };
        let head = first.substring_char(0, cut).to_owned();
        let tail = first.substring_char(cut, n).to_owned();
        proof {
            assert(head@ =~= fs[0]);
            assert(tail@ =~= fs[1]);
            lemma_drop_empty_push(Seq::empty(), fs[0]);
            assert(seq![fs[0]] =~= Seq::<Seq<char>>::empty().push(fs[0]));
            assert(drop_empty(Seq::<Seq<char>>::empty()) =~= Seq::<Seq<char>>::empty());
            lemma_drop_empty_push(seq![fs[0]], fs[1]);
            assert(fs =~= seq![fs[0]].push(fs[1]));
        }
        push_nonempty(&mut out, head);
        push_nonempty(&mut out, tail);
    } else {
        let whole = first.to_owned();
        proof {
            lemma_drop_empty_push(Seq::empty(), fs[0]);
            assert(fs =~= Seq::<Seq<char>>::empty().push(fs[0]));
            assert(drop_empty(Seq::<Seq<char>>::empty()) =~= Seq::<Seq<char>>::empty());
        }
        push_nonempty(&mut out, whole);
    }
    let mut i: usize = 1;
    while i < parts.len()
        invariant
            parts.deep_view() == k,
            k.len() > 0,
            fs == first_segments(k[0]),
            1 <= i <= k.len(),
            out.deep_view() == drop_empty(fs + k.subrange(1, i as int)),
        decreases k.len() - i,
    {
        let seg = parts[i].clone();
        proof {
            lemma_drop_empty_push(fs + k.subrange(1, i as int), k[i as int]);
            assert(fs + k.subrange(1, i + 1) =~= (fs + k.subrange(1, i as int)).push(k[i as int]));
        }
        push_nonempty(&mut out, seg);
        i = i + 1;
    }
    proof {
        assert(k.subrange(1, k.len() as int) =~= k.skip(1));
    }
    out
}

/// A key/value store with range queries, where the repository keeps its
/// documents. Keys are lists of components; a key is a prefix of another
/// when its components begin the other's.
pub trait Storage {
    /// The entries held, one per key.
    spec fn entries_held(&self) -> Seq<(Seq<Seq<char>>, Seq<u8>)>;

    /// The value under a key.
    fn load(&self, key: StorageKey) -> (r: Option<Vec<u8>>)
        requires
            keys_distinct(self.entries_held()),
        ensures
            match r {
                Some(v) => lookup(self.entries_held(), key@) == Some(v@),
                None => lookup(self.entries_held(), key@) is None,
            },
    ;

    /// The entries whose key begins with `prefix`.
    fn load_range(&self, prefix: StorageKey) -> (r: Vec<(StorageKey, Vec<u8>)>)
        ensures
            entries_view(r@) == with_prefix(self.entries_held(), prefix@),
    ;

    /// Writes a value under a key.
    fn put(&mut self, key: StorageKey, data: Vec<u8>)
        requires
            keys_distinct(old(self).entries_held()),
        ensures
            final(self).entries_held() == store(old(self).entries_held(), key@, data@),
            keys_distinct(final(self).entries_held()),
    ;

    /// Removes the value under a key.
    fn delete(&mut self, key: StorageKey)
        requires
            keys_distinct(old(self).entries_held()),
        ensures
            final(self).entries_held() == erase(old(self).entries_held(), key@),
            keys_distinct(final(self).entries_held()),
    ;
}

impl Storage for MemoryStorage {
    open spec fn entries_held(&self) -> Seq<(Seq<Seq<char>>, Seq<u8>)> {
        self@
    }

    fn load(&self, key: StorageKey) -> (r: Option<Vec<u8>>) {
        MemoryStorage::load(self, &key)
    }

    fn load_range(&self, prefix: StorageKey) -> (r: Vec<(StorageKey, Vec<u8>)>) {
        MemoryStorage::load_range(self, &prefix)
    }

    fn put(&mut self, key: StorageKey, data: Vec<u8>) {
        MemoryStorage::put(self, key, data)
    }

    fn delete(&mut self, key: StorageKey) {
        MemoryStorage::delete(self, &key)
    }
}

/// Performs a storage request on `storage` and reports the outcome.
pub fn dispatch_storage_task<S: Storage>(task: StorageTask, storage: &mut S) -> (r: StorageResult)
    requires
        keys_distinct(old(storage).entries_held()),
    ensures
        (final(storage).entries_held(), r@) == spec_handle(old(storage).entries_held(), task@),
        keys_distinct(final(storage).entries_held()),
{
    match task {
        StorageTask::Load { key } => {
            let value = storage.load(key);
            StorageResult::Load { value }
        },
        StorageTask::LoadRange { prefix } => {
            let values = storage.load_range(prefix);
            StorageResult::LoadRange { values }
        },
        StorageTask::Put { key, value } => {
            storage.put(key, value);
            StorageResult::Put
        },
        StorageTask::Delete { key } => {
            storage.delete(key);
            StorageResult::Delete
        },
    }
}

/// A storage kept in a directory of the file system, in the layout of
/// [`key_to_path`] under its data directory.
#[derive(Clone, Debug)]
pub struct FilesystemStorage {
    data_dir: String,
}

impl FilesystemStorage {
    /// A storage under the directory `data_dir`.
    pub fn new(data_dir: String) -> (r: FilesystemStorage)
        ensures
            r.data_dir() == data_dir@,
    {
        FilesystemStorage { data_dir }
    }

    /// The data directory.
    pub closed spec fn data_dir(&self) -> Seq<char> {
        self.data_dir@
    }

    /// The data directory.
    pub fn data_dir_str(&self) -> (r: &str)
        ensures
            r@ == self.data_dir(),
    {
        self.data_dir.as_str()
    }

    /// The path of the file that holds `key`: the data directory, then the
    /// segments of the key.
    pub fn key_to_path(&self, key: &StorageKey) -> (r: Vec<String>)
        ensures
            r.deep_view() == seq![self.data_dir()] + spec_key_to_path(key@),
    {
        let mut out: Vec<String> = Vec::new();
        out.push(self.data_dir.clone());
        let mut rest = key_to_path(key);
        let ghost a = out.deep_view();
        let ghost b = rest.deep_view();
        out.append(&mut rest);
        proof {
            assert(out.deep_view() =~= a + b);
        }
        out
    }
}

/// A storage kept in a directory of a WASI file system, in the same layout
/// as [`FilesystemStorage`].
#[derive(Clone, Debug)]
pub struct WasiStorage {
    base_path: String,
}

impl WasiStorage {
    /// A storage under the directory `base_path`, which must exist.
    pub fn new(base_path: String) -> (r: WasiStorage)
        ensures
            r.base_path() == base_path@,
    {
        WasiStorage { base_path }
    }

    /// The base directory.
    pub closed spec fn base_path(&self) -> Seq<char> {
        self.base_path@
    }

    /// The path of the file that holds `key`: the base directory, then the
    /// segments of the key.
    pub fn key_to_fs_path(&self, key: &StorageKey) -> (r: Vec<String>)
        ensures
            r.deep_view() == seq![self.base_path()] + spec_key_to_path(key@),
    {
        let mut out: Vec<String> = Vec::new();
        out.push(self.base_path.clone());
        let mut rest = key_to_path(key);
        let ghost a = out.deep_view();
        let ghost b = rest.deep_view();
        out.append(&mut rest);
        proof {
            assert(out.deep_view() =~= a + b);
        }
        out
    }
}

} // verus!
