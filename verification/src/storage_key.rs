//! Hierarchical keys for the key/value storage layer.

use vstd::prelude::*;

use crate::hashes::{ChangeHash, CompactionHash};
use crate::hex::{hex_encode, string_push};
use vstd::string::StringExecFns;
use crate::ids::{document_id_text, DocumentId};

verus! {

/// A hierarchical key for storage operations.
///
/// A key is a sequence of string components, like the directories and the
/// file name of a path. Keys support prefix queries, which storage backends
/// use to answer range loads.
#[derive(Debug, Clone, PartialEq, Eq, Hash)]
pub struct StorageKey {
    parts: Vec<String>,
}

impl View for StorageKey {
    type V = Seq<Seq<char>>;

    closed spec fn view(&self) -> Seq<Seq<char>> {
        self.parts.deep_view()
    }
}

/// `prefix` is a prefix of `key`, component by component.
pub open spec fn is_prefix(prefix: Seq<Seq<char>>, key: Seq<Seq<char>>) -> bool {
    &&& prefix.len() <= key.len()
    &&& forall|i: int| 0 <= i < prefix.len() ==> #[trigger] prefix[i] == key[i]
}

/// The text form of a key: its components joined by `/`.
pub open spec fn joined(parts: Seq<Seq<char>>) -> Seq<char>
    decreases parts.len(),
{
    if parts.len() == 0 {
        Seq::empty()
    } else if parts.len() == 1 {
        parts[0]
    } else {
        joined(parts.drop_last()) + seq!['/'] + parts.last()
    }
}

impl StorageKey {
    /// The key as text: its components joined by `/`.
    pub fn to_string(&self) -> (r: String)
        ensures
            r@ == joined(self@),
    {
        let ghost v = self@;
        let mut s = String::new();
        let mut i: usize = 0;
        while i < self.parts.len()
            invariant
                i <= self.parts@.len(),
                v == self@,
                v == self.parts.deep_view(),
                s@ == joined(v.take(i as int)),
            decreases self.parts@.len() - i,
        {
            proof {
                assert(v.take(i + 1).drop_last() =~= v.take(i as int));
                assert(v.take(i + 1).last() == v[i as int]);
                assert(v[i as int] == self.parts@[i as int]@);
            }
            if i > 0 {
                string_push(&mut s, '/');
            }
            s.append(self.parts[i].as_str());
            proof {
                if i == 0 {
                    assert(s@ =~= v[0]);
                } else {
                    assert(s@ =~= joined(v.take(i as int)) + seq!['/'] + v[i as int]);
                }
            }
            i = i + 1;
        }
        proof {
            assert(v.take(v.len() as int) =~= v);
        }
        s
    }

    /// The components of the key, in order.
    pub fn parts(&self) -> (r: &Vec<String>)
        ensures
            r.deep_view() == self@,
    {
        &self.parts
    }

    /// A copy of this key.
    pub fn duplicate(&self) -> (r: StorageKey)
        ensures
            r@ == self@,
    {
        let parts = self.parts.clone();
        proof {
            assert(parts.deep_view() =~= self.parts.deep_view());
        }
        StorageKey { parts }
    }

    /// The key under which the storage layer keeps its own identifier.
    pub fn storage_id_path() -> (r: StorageKey)
        ensures
            r@ == seq!["storage-adapter-id"@],
    {
        let mut parts: Vec<String> = Vec::new();
        parts.push("storage-adapter-id".to_owned());
        proof {
            assert(parts.deep_view() =~= seq!["storage-adapter-id"@]);
        }
        StorageKey { parts }
    }

    /// The key of one incremental change of a document:
    /// `[document ID, "incremental", change hash]`.
    pub fn incremental_path(doc_id: &DocumentId, change_hash: &ChangeHash) -> (r: StorageKey)
        ensures
            r@ == seq![document_id_text(doc_id@), "incremental"@, hex_encode(change_hash@)],
    {
        let mut parts: Vec<String> = Vec::new();
        parts.push(doc_id.to_string());
        parts.push("incremental".to_owned());
        parts.push(change_hash.to_string());
        proof {
            assert(parts.deep_view() =~= seq![
                document_id_text(doc_id@),
                "incremental"@,
                hex_encode(change_hash@),
            ]);
        }
        StorageKey { parts }
    }

    /// The key of a compacted snapshot of a document:
    /// `[document ID, "snapshot", compaction hash]`.
    pub fn snapshot_path(doc_id: &DocumentId, compaction_hash: &CompactionHash) -> (r: StorageKey)
        ensures
            r@ == seq![document_id_text(doc_id@), "snapshot"@, hex_encode(compaction_hash@)],
    {
        let mut parts: Vec<String> = Vec::new();
        parts.push(doc_id.to_string());
        parts.push("snapshot".to_owned());
        parts.push(compaction_hash.to_string());
        proof {
            assert(parts.deep_view() =~= seq![
                document_id_text(doc_id@),
                "snapshot"@,
                hex_encode(compaction_hash@),
            ]);
        }
        StorageKey { parts }
    }

    /// The key under which all the entries of one kind of a document lie:
    /// `[document ID, kind]`.
    pub fn document_prefix(doc_id: &DocumentId, kind: &str) -> (r: StorageKey)
        ensures
            r@ == seq![document_id_text(doc_id@), kind@],
    {
        let mut parts: Vec<String> = Vec::new();
        parts.push(doc_id.to_string());
        parts.push(kind.to_owned());
        proof {
            assert(parts.deep_view() =~= seq![document_id_text(doc_id@), kind@]);
        }
        StorageKey { parts }
    }

    /// Creates a storage key from a slice of string parts.
    pub fn from_parts(parts: &[&str]) -> (r: StorageKey)
        ensures
            r@ == parts@.map_values(|p: &str| p@),
    {
        let mut out: Vec<String> = Vec::new();
        let mut i: usize = 0;
        while i < parts.len()
            invariant
                i <= parts@.len(),
                out@.len() == i,
                forall|j: int| 0 <= j < i ==> #[trigger] out@[j]@ == parts@[j]@,
            decreases parts@.len() - i,
        {
            let s = parts[i].to_owned();
            out.push(s);
            i = i + 1;
        }
        proof {
            assert(out.deep_view() =~= parts@.map_values(|p: &str| p@));
        }
        StorageKey { parts: out }
    }

    /// Checks if this key is a prefix of another key.
    pub fn is_prefix_of(&self, other: &StorageKey) -> (r: bool)
        ensures
            r == is_prefix(self@, other@),
    {
        if self.parts.len() > other.parts.len() {
            return false;
        }
        let mut i: usize = 0;
        while i < self.parts.len()
            invariant
                self.parts@.len() <= other.parts@.len(),
                i <= self.parts@.len(),
                forall|j: int| 0 <= j < i ==> #[trigger] self@[j] == other@[j],
            decreases self.parts@.len() - i,
        {
            if self.parts[i] != other.parts[i] {
                proof {
                    assert(self@[i as int] != other@[i as int]);
                }
                return false;
            }
            i = i + 1;
        }
        true
    }

    /// Whether the two keys have the same components.
    pub fn same_as(&self, other: &StorageKey) -> (r: bool)
        ensures
            r == (self@ == other@),
    {
        if self.parts.len() != other.parts.len() {
            return false;
        }
        let r = self.is_prefix_of(other);
        proof {
            if r {
                assert(self@ =~= other@);
            }
        }
        r
    }

    /// If `prefix` is a proper prefix of this key, the key made of the
    /// components of `prefix` and the one component of this key after it.
    pub fn onelevel_deeper(&self, prefix: &StorageKey) -> (r: Option<StorageKey>)
        ensures
            match r {
                Some(k) => is_prefix(prefix@, self@) && prefix@.len() < self@.len()
                    && k@ == self@.take(prefix@.len() + 1 as int),
                None => !(is_prefix(prefix@, self@) && prefix@.len() < self@.len()),
            },
    {
        if prefix.is_prefix_of(self) && self.parts.len() > prefix.parts.len() {
            let n = prefix.parts.len() + 1;
            let mut out: Vec<String> = Vec::new();
            let mut i: usize = 0;
            while i < n
                invariant
                    n <= self.parts@.len(),
                    i <= n,
                    out.deep_view() =~= self@.take(i as int),
                decreases n - i,
            {
                out.push(self.parts[i].clone());
                proof {
                    assert(self@.take(i + 1) =~= self@.take(i as int).push(self@[i as int]));
                }
                i = i + 1;
            }
            Some(StorageKey { parts: out })
        } else {
            None
        }
    }

    /// This key followed by the components of `suffix`.
    pub fn with_suffix(&self, suffix: StorageKey) -> (r: StorageKey)
        ensures
            r@ == self@ + suffix@,
    {
        let mut new_key = self.parts.clone();
        let mut rest = suffix.parts;
        proof {
            assert(new_key.deep_view() =~= self@);
        }
        new_key.append(&mut rest);
        proof {
            assert(new_key.deep_view() =~= self@ + suffix@);
        }
        StorageKey { parts: new_key }
    }

    /// This key followed by one more component.
    pub fn with_component(&self, component: String) -> (r: StorageKey)
        ensures
            r@ == self@.push(component@),
    {
        let mut new_key = self.parts.clone();
        proof {
            assert(new_key.deep_view() =~= self@);
        }
        new_key.push(component);
        proof {
            assert(new_key.deep_view() =~= self@.push(component@));
        }
        StorageKey { parts: new_key }
    }

    /// Builds a key from owned components.
    pub fn from_strings(parts: Vec<String>) -> (r: StorageKey)
        ensures
            r@ == parts.deep_view(),
    {
        StorageKey { parts }
    }
}

/// Every key is a prefix of itself.
pub proof fn lemma_prefix_reflexive(k: Seq<Seq<char>>)
    ensures
        is_prefix(k, k),
{
}

/// Being a prefix is transitive.
pub proof fn lemma_prefix_transitive(a: Seq<Seq<char>>, b: Seq<Seq<char>>, c: Seq<Seq<char>>)
    requires
        is_prefix(a, b),
        is_prefix(b, c),
    ensures
        is_prefix(a, c),
{
    assert forall|i: int| 0 <= i < a.len() implies #[trigger] a[i] == c[i] by {
        assert(a[i] == b[i]);
    }
}

/// A key is a prefix of every key made by appending components to it.
pub proof fn lemma_prefix_of_extension(k: Seq<Seq<char>>, suffix: Seq<Seq<char>>)
    ensures
        is_prefix(k, k + suffix),
{
    assert forall|i: int| 0 <= i < k.len() implies #[trigger] k[i] == (k + suffix)[i] by {}
}

/// Two keys that are prefixes of each other are equal.
pub proof fn lemma_prefix_antisymmetric(a: Seq<Seq<char>>, b: Seq<Seq<char>>)
    requires
        is_prefix(a, b),
        is_prefix(b, a),
    ensures
        a == b,
{
    assert(a =~= b);
}

/// What `onelevel_deeper` returns lies between the prefix and the key: the
/// prefix is a prefix of it, it is a prefix of the key, and it is exactly one
/// component longer than the prefix.
pub proof fn lemma_onelevel_deeper_between(prefix: Seq<Seq<char>>, key: Seq<Seq<char>>)
    requires
        is_prefix(prefix, key),
        prefix.len() < key.len(),
    ensures
        is_prefix(prefix, key.take(prefix.len() + 1 as int)),
        is_prefix(key.take(prefix.len() + 1 as int), key),
        key.take(prefix.len() + 1 as int).len() == prefix.len() + 1,
{
    let t = key.take(prefix.len() + 1 as int);
    assert forall|i: int| 0 <= i < prefix.len() implies #[trigger] prefix[i] == t[i] by {
        assert(prefix[i] == key[i]);
    }
}

} // verus!
