//! Identifiers of peers, storage layers, documents and changes.

use vstd::prelude::*;

use crate::hex::{decode as hex_decode_exec, encode as hex_encode_exec, hex_decode, hex_encode};

verus! {

/// Compares two byte strings.
pub fn bytes_equal(a: &[u8], b: &[u8]) -> (r: bool)
    ensures
        r == (a@ == b@),
{
    if a.len() != b.len() {
        return false;
    }
    let mut i: usize = 0;
    while i < a.len()
        invariant
            a@.len() == b@.len(),
            i <= a@.len(),
            forall|j: int| 0 <= j < i ==> a@[j] == b@[j],
        decreases a@.len() - i,
    {
        if a[i] != b[i] {
            return false;
        }
        i = i + 1;
    }
    proof {
        assert(a@ =~= b@);
    }
    true
}

/// Calls `rand::random::<[u8; 16]>`, which draws from the thread-local
/// generator. Claimed: sixteen bytes; nothing of their values.
#[verifier::external_body]
fn random_id_bytes() -> (r: Vec<u8>)
    ensures
        r@.len() == 16,
{
    rand::random::<[u8; 16]>().to_vec()
}

/// A random number: the first eight of sixteen random bytes, little end
/// first.
pub fn random_u64() -> u64 {
    let bytes = random_id_bytes();
    let mut n: u64 = 0;
    let mut i: usize = 8;
    while i > 0
        invariant
            i <= 8,
            bytes@.len() == 16,
        decreases i,
    {
        i = i - 1;
        n = (n << 8u64) | (bytes[i] as u64);
    }
    n
}

/// Thirty-two random lower-case hexadecimal digits.
pub fn random_hex() -> (r: String)
    ensures
        r@.len() == 32,
{
    let bytes = random_id_bytes();
    proof {
        crate::hex::lemma_hex_encode_len(bytes@);
    }
    hex_encode_exec(bytes.as_slice())
}

/// The identifier of a peer, chosen by the peer itself.
#[derive(Debug, Clone, PartialEq, Eq, Hash)]
pub struct PeerId {
    id: String,
}

impl View for PeerId {
    type V = Seq<char>;

    closed spec fn view(&self) -> Seq<char> {
        self.id@
    }
}

impl PeerId {
    /// A peer ID with the given text.
    pub fn from_str(s: &str) -> (r: PeerId)
        ensures
            r@ == s@,
    {
        PeerId { id: s.to_owned() }
    }

    /// A peer ID with the given text.
    pub fn from_string(s: String) -> (r: PeerId)
        ensures
            r@ == s@,
    {
        PeerId { id: s }
    }

    /// The text of the peer ID.
    pub fn as_str(&self) -> (r: &str)
        ensures
            r@ == self@,
    {
        self.id.as_str()
    }

    /// A copy of this ID.
    pub fn duplicate(&self) -> (r: PeerId)
        ensures
            r@ == self@,
    {
        PeerId { id: self.id.clone() }
    }

    /// Whether two peer IDs are the same.
    pub fn same_as(&self, other: &PeerId) -> (r: bool)
        ensures
            r == (self@ == other@),
    {
        self.id == other.id
    }
}

/// The identifier of a storage layer; peers sharing storage share it.
#[derive(Debug, Clone, PartialEq, Eq, Hash)]
pub struct StorageId {
    id: String,
}

impl View for StorageId {
    type V = Seq<char>;

    closed spec fn view(&self) -> Seq<char> {
        self.id@
    }
}

impl StorageId {
    /// A fresh random storage ID: the hexadecimal form of sixteen random
    /// bytes.
    pub fn new() -> (r: StorageId)
        ensures
            r@.len() == 32,
            hex_decode(r@) is Some,
    {
        let bytes = random_id_bytes();
        let id = hex_encode_exec(bytes.as_slice());
        proof {
            crate::hex::lemma_hex_roundtrip(bytes@);
            crate::hex::lemma_hex_encode_len(bytes@);
        }
        StorageId { id }
    }

    /// A storage ID with the given text.
    pub fn from_str(s: &str) -> (r: StorageId)
        ensures
            r@ == s@,
    {
        StorageId { id: s.to_owned() }
    }

    /// A storage ID with the given text.
    pub fn from_string(s: String) -> (r: StorageId)
        ensures
            r@ == s@,
    {
        StorageId { id: s }
    }

    /// The text of the storage ID.
    pub fn as_str(&self) -> (r: &str)
        ensures
            r@ == self@,
    {
        self.id.as_str()
    }

    /// A copy of this ID.
    pub fn duplicate(&self) -> (r: StorageId)
        ensures
            r@ == self@,
    {
        StorageId { id: self.id.clone() }
    }

    /// Whether two storage IDs are the same.
    pub fn same_as(&self, other: &StorageId) -> (r: bool)
        ensures
            r == (self@ == other@),
    {
        self.id == other.id
    }
}

/// The number of bytes in a document ID.
pub const DOCUMENT_ID_LEN: usize = 16;

/// Why a value could not be read as a document ID.
#[derive(Debug, Clone, PartialEq, Eq)]
pub enum BadDocumentId {
    /// The text is not an even number of hexadecimal digits.
    NotHex,
    /// The ID does not have sixteen bytes.
    WrongLength,
}

/// The identifier of a document: sixteen bytes, written as thirty-two
/// lower-case hexadecimal digits.
#[derive(Debug, PartialEq, Eq, Hash)]
pub struct DocumentId {
    bytes: Vec<u8>,
}

impl View for DocumentId {
    type V = Seq<u8>;

    closed spec fn view(&self) -> Seq<u8> {
        self.bytes@
    }
}

/// The text form of a document ID with the given bytes.
pub open spec fn document_id_text(bytes: Seq<u8>) -> Seq<char> {
    hex_encode(bytes)
}

/// What reading `s` as a document ID gives.
pub open spec fn spec_parse_document_id(s: Seq<char>) -> Result<Seq<u8>, BadDocumentId> {
    match hex_decode(s) {
        None => Err(BadDocumentId::NotHex),
        Some(b) => if b.len() == DOCUMENT_ID_LEN {
            Ok(b)
        } else {
            Err(BadDocumentId::WrongLength)
        },
    }
}

impl DocumentId {
    #[verifier::type_invariant]
    closed spec fn wf(self) -> bool {
        self.bytes@.len() == DOCUMENT_ID_LEN
    }

    /// A fresh random document ID.
    pub fn new() -> (r: DocumentId)
        ensures
            r@.len() == DOCUMENT_ID_LEN,
    {
        DocumentId { bytes: random_id_bytes() }
    }

    /// The document ID with the given bytes, if there are sixteen of them.
    pub fn try_from_bytes(bytes: Vec<u8>) -> (r: Result<DocumentId, BadDocumentId>)
        ensures
            match r {
                Ok(d) => bytes@.len() == DOCUMENT_ID_LEN && d@ == bytes@,
                Err(e) => bytes@.len() != DOCUMENT_ID_LEN && e == BadDocumentId::WrongLength,
            },
    {
        if bytes.len() == DOCUMENT_ID_LEN {
            Ok(DocumentId { bytes })
        } else {
            Err(BadDocumentId::WrongLength)
        }
    }

    /// Reads a document ID from its text form (hexadecimal digits of either
    /// case).
    pub fn from_str(s: &str) -> (r: Result<DocumentId, BadDocumentId>)
        ensures
            match r {
                Ok(d) => spec_parse_document_id(s@) == Ok::<Seq<u8>, BadDocumentId>(d@),
                Err(e) => spec_parse_document_id(s@) == Err::<Seq<u8>, BadDocumentId>(e),
            },
    {
        match hex_decode_exec(s) {
            None => Err(BadDocumentId::NotHex),
            Some(bytes) => {
                if bytes.len() == DOCUMENT_ID_LEN {
                    Ok(DocumentId { bytes })
                } else {
                    Err(BadDocumentId::WrongLength)
                }
            },
        }
    }

    /// The text form of the document ID.
    pub fn to_string(&self) -> (r: String)
        ensures
            r@ == document_id_text(self@),
            self@.len() == DOCUMENT_ID_LEN,
    {
        proof {
            use_type_invariant(self);
        }
        hex_encode_exec(self.bytes.as_slice())
    }

    /// The bytes of the document ID.
    pub fn as_bytes(&self) -> (r: &[u8])
        ensures
            r@ == self@,
            self@.len() == DOCUMENT_ID_LEN,
    {
        proof {
            use_type_invariant(self);
        }
        self.bytes.as_slice()
    }

    /// A copy of this ID.
    pub fn duplicate(&self) -> (r: DocumentId)
        ensures
            r@ == self@,
    {
        proof {
            use_type_invariant(self);
        }
        DocumentId { bytes: self.bytes.clone() }
    }

    /// Whether two document IDs are the same.
    pub fn same_as(&self, other: &DocumentId) -> (r: bool)
        ensures
            r == (self@ == other@),
    {
        bytes_equal(self.bytes.as_slice(), other.bytes.as_slice())
    }
}

impl Clone for DocumentId {
    fn clone(&self) -> (r: DocumentId)
        ensures
            r@ == self@,
    {
        self.duplicate()
    }
}

/// Reading the text form of a document ID gives the ID back.
pub proof fn lemma_document_id_text_roundtrip(bytes: Seq<u8>)
    requires
        bytes.len() == DOCUMENT_ID_LEN,
    ensures
        spec_parse_document_id(document_id_text(bytes)) == Ok::<Seq<u8>, BadDocumentId>(bytes),
        document_id_text(bytes).len() == 2 * DOCUMENT_ID_LEN,
{
    crate::hex::lemma_hex_roundtrip(bytes);
    crate::hex::lemma_hex_encode_len(bytes);
}

} // verus!
