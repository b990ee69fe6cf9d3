//! Change hashes and the hashes that name compacted snapshots.

use vstd::prelude::*;

use crate::hex::{encode as hex_encode_exec, hex_encode};

verus! {

/// The SHA-256 digest of a byte string.
pub uninterp spec fn sha256(data: Seq<u8>) -> Seq<u8>;

/// Calls `sha2::Sha256::digest`. Claimed: the result is the SHA-256 digest
/// of `data`, a function of `data` alone, and it has 32 bytes (the output
/// size of SHA-256).
#[verifier::external_body]
fn sha256_digest(data: &[u8]) -> (r: Vec<u8>)
    ensures
        r@ == sha256(data@),
        r@.len() == 32,
{
    <sha2::Sha256 as sha2::Digest>::digest(data).to_vec()
}

/// The hash of a single change of a document.
#[derive(Debug, Clone, PartialEq, Eq, Hash)]
pub struct ChangeHash {
    bytes: Vec<u8>,
}

impl View for ChangeHash {
    type V = Seq<u8>;

    closed spec fn view(&self) -> Seq<u8> {
        self.bytes@
    }
}

impl ChangeHash {
    /// A change hash with the given bytes.
    pub fn from_bytes(bytes: Vec<u8>) -> (r: ChangeHash)
        ensures
            r@ == bytes@,
    {
        ChangeHash { bytes }
    }

    /// A copy of this hash.
    pub fn duplicate(&self) -> (r: ChangeHash)
        ensures
            r@ == self@,
    {
        let bytes = self.bytes.clone();
        proof {
            assert(bytes@ =~= self.bytes@);
        }
        ChangeHash { bytes }
    }

    /// The bytes of the hash.
    pub fn as_bytes(&self) -> (r: &[u8])
        ensures
            r@ == self@,
    {
        self.bytes.as_slice()
    }

    /// The text form of the hash: lower-case hexadecimal.
    pub fn to_string(&self) -> (r: String)
        ensures
            r@ == hex_encode(self@),
    {
        hex_encode_exec(self.bytes.as_slice())
    }
}

/// The bytes of a sequence of hashes, one after the other.
pub open spec fn concat_hashes(hashes: Seq<Seq<u8>>) -> Seq<u8>
    decreases hashes.len(),
{
    if hashes.len() == 0 {
        Seq::empty()
    } else {
        concat_hashes(hashes.drop_last()) + hashes.last()
    }
}

/// The SHA-256 hash of a set of change hashes, which names a compacted
/// snapshot of a document.
#[derive(Debug, Clone, PartialEq, Eq, Hash)]
pub struct CompactionHash {
    bytes: Vec<u8>,
}

impl View for CompactionHash {
    type V = Seq<u8>;

    closed spec fn view(&self) -> Seq<u8> {
        self.bytes@
    }
}

impl CompactionHash {
    /// The SHA-256 hash of the given change hashes, fed in order.
    pub fn new(change_hashes: &[ChangeHash]) -> (r: CompactionHash)
        ensures
            r@ == sha256(concat_hashes(change_hashes@.map_values(|h: ChangeHash| h@))),
            r@.len() == 32,
    {
        let ghost hs = change_hashes@.map_values(|h: ChangeHash| h@);
        let mut data: Vec<u8> = Vec::new();
        let mut i: usize = 0;
        while i < change_hashes.len()
            invariant
                i <= change_hashes@.len(),
                hs == change_hashes@.map_values(|h: ChangeHash| h@),
                data@ == concat_hashes(hs.take(i as int)),
            decreases change_hashes@.len() - i,
        {
            let mut chunk = change_hashes[i].bytes.clone();
            data.append(&mut chunk);
            proof {
                assert(hs.take(i + 1).drop_last() =~= hs.take(i as int));
                assert(data@ =~= concat_hashes(hs.take(i + 1)));
            }
            i = i + 1;
        }
        proof {
            assert(hs.take(i as int) =~= hs);
        }
        CompactionHash { bytes: sha256_digest(data.as_slice()) }
    }

    /// The text form of the hash: lower-case hexadecimal.
    pub fn to_string(&self) -> (r: String)
        ensures
            r@ == hex_encode(self@),
    {
        hex_encode_exec(self.bytes.as_slice())
    }
}

} // verus!
