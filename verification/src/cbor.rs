//! The CBOR items the wire protocol is made of, and the calls into
//! `minicbor` that write and read them.

use vstd::prelude::*;
use vstd::utf8::{decode_utf8, encode_utf8, valid_utf8};

verus! {

/// `256` to the power `k`.
pub open spec fn pow256(k: nat) -> nat
    decreases k,
{
    if k == 0 {
        1
    } else {
        256 * pow256((k - 1) as nat)
    }
}

/// The `k` low bytes of `n`, most significant first.
pub open spec fn be_bytes(n: nat, k: nat) -> Seq<u8>
    decreases k,
{
    if k == 0 {
        Seq::empty()
    } else {
        be_bytes(n / 256, (k - 1) as nat).push((n % 256) as u8)
    }
}

/// The number a big-endian byte string denotes.
pub open spec fn from_be(s: Seq<u8>) -> nat
    decreases s.len(),
{
    if s.len() == 0 {
        0
    } else {
        from_be(s.drop_last()) * 256 + s.last() as nat
    }
}

/// The head of a CBOR data item: the major type and the argument `n`, in the
/// shortest form.
pub closed spec fn head(major: nat, n: nat) -> Seq<u8> {
    let t = major * 32;
    if n < 24 {
        seq![(t + n) as u8]
    } else if n < 256 {
        seq![(t + 24) as u8, n as u8]
    } else if n < 65536 {
        seq![(t + 25) as u8] + be_bytes(n, 2)
    } else if n < 0x1_0000_0000 {
        seq![(t + 26) as u8] + be_bytes(n, 4)
    } else {
        seq![(t + 27) as u8] + be_bytes(n, 8)
    }
}

/// An unsigned integer item.
pub closed spec fn uint_item(n: nat) -> Seq<u8> {
    head(0, n)
}

/// A definite-length byte string item.
pub closed spec fn bytes_item(b: Seq<u8>) -> Seq<u8> {
    head(2, b.len()) + b
}

/// A definite-length text string item: the UTF-8 encoding of `s`.
pub closed spec fn text_item(s: Seq<char>) -> Seq<u8> {
    head(3, encode_utf8(s).len()) + encode_utf8(s)
}

/// The head of an array of `n` items.
pub closed spec fn array_head(n: nat) -> Seq<u8> {
    head(4, n)
}

/// The head of a map of `n` entries.
pub closed spec fn map_head(n: nat) -> Seq<u8> {
    head(5, n)
}

/// A boolean item.
pub closed spec fn bool_item(b: bool) -> Seq<u8> {
    if b {
        seq![0xf5u8]
    } else {
        seq![0xf4u8]
    }
}

/// The argument that follows an initial byte with additional information
/// `info`, read from `pos`, and the position after it.
pub open spec fn read_argument(data: Seq<u8>, pos: nat, info: nat) -> Option<(nat, nat)> {
    let k: nat = if info == 24 {
        1
    } else if info == 25 {
        2
    } else if info == 26 {
        4
    } else {
        8
    };
    if info < 24 {
        Some((info, pos))
    } else if info <= 27 && pos + k <= data.len() {
        Some((from_be(data.subrange(pos as int, (pos + k) as int)), pos + k))
    } else {
        None
    }
}

/// The text minicbor's decode error displays for a failed read of the kind
/// `op` at `pos`.
pub uninterp spec fn minicbor_error_text(data: Seq<u8>, pos: nat, op: nat) -> Seq<char>;

/// The kinds of read that can fail.
pub open spec fn OP_MAP() -> nat { 0 }
pub open spec fn OP_ARRAY() -> nat { 1 }
pub open spec fn OP_STR() -> nat { 2 }
pub open spec fn OP_BYTES() -> nat { 3 }
pub open spec fn OP_U64() -> nat { 4 }
pub open spec fn OP_BOOL() -> nat { 5 }
pub open spec fn OP_SKIP() -> nat { 6 }

/// Reading a container head of major type `major` at `pos`: `None` for an
/// indefinite length, else the length, and the position after the head.
pub open spec fn spec_read_len(data: Seq<u8>, pos: nat, major: nat, op: nat) -> Result<(Option<nat>, nat), Seq<char>> {
    if pos >= data.len() {
        Err(minicbor_error_text(data, pos, op))
    } else {
        let b = data[pos as int] as nat;
        if b / 32 != major {
            Err(minicbor_error_text(data, pos, op))
        } else if b % 32 == 31 {
            Ok((None, pos + 1))
        } else {
            match read_argument(data, pos + 1, b % 32) {
                Some((n, p)) => Ok((Some(n), p)),
                None => Err(minicbor_error_text(data, pos, op)),
            }
        }
    }
}

/// Reading a map head at `pos`.
pub open spec fn spec_read_map(data: Seq<u8>, pos: nat) -> Result<(Option<nat>, nat), Seq<char>> {
    spec_read_len(data, pos, 5, OP_MAP())
}

/// Reading an array head at `pos`.
pub open spec fn spec_read_array(data: Seq<u8>, pos: nat) -> Result<(Option<nat>, nat), Seq<char>> {
    spec_read_len(data, pos, 4, OP_ARRAY())
}

/// The payload of a definite-length string item of major type `major` at
/// `pos`, and the position after it.
pub open spec fn spec_read_payload(data: Seq<u8>, pos: nat, major: nat, op: nat) -> Result<(Seq<u8>, nat), Seq<char>> {
    match spec_read_len(data, pos, major, op) {
        Ok((Some(n), p)) => if p + n <= data.len() {
            Ok((data.subrange(p as int, (p + n) as int), p + n))
        } else {
            Err(minicbor_error_text(data, pos, op))
        },
        _ => Err(minicbor_error_text(data, pos, op)),
    }
}

/// Reading a byte string item at `pos`.
pub open spec fn spec_read_bytes(data: Seq<u8>, pos: nat) -> Result<(Seq<u8>, nat), Seq<char>> {
    spec_read_payload(data, pos, 2, OP_BYTES())
}

/// Reading a text string item at `pos`; its payload must be valid UTF-8.
pub open spec fn spec_read_str(data: Seq<u8>, pos: nat) -> Result<(Seq<char>, nat), Seq<char>> {
    match spec_read_payload(data, pos, 3, OP_STR()) {
        Ok((b, p)) => if valid_utf8(b) {
            Ok((decode_utf8(b), p))
        } else {
            Err(minicbor_error_text(data, pos, OP_STR()))
        },
        Err(e) => Err(e),
    }
}

/// Reading an unsigned integer item at `pos`.
pub open spec fn spec_read_u64(data: Seq<u8>, pos: nat) -> Result<(u64, nat), Seq<char>> {
    if pos >= data.len() {
        Err(minicbor_error_text(data, pos, OP_U64()))
    } else {
        let b = data[pos as int] as nat;
        if b >= 28 {
            Err(minicbor_error_text(data, pos, OP_U64()))
        } else {
            match read_argument(data, pos + 1, b) {
                Some((n, p)) => Ok((n as u64, p)),
                None => Err(minicbor_error_text(data, pos, OP_U64())),
            }
        }
    }
}

/// Reading a boolean item at `pos`.
pub open spec fn spec_read_bool(data: Seq<u8>, pos: nat) -> Result<(bool, nat), Seq<char>> {
    if pos < data.len() && data[pos as int] == 0xf4 {
        Ok((false, pos + 1))
    } else if pos < data.len() && data[pos as int] == 0xf5 {
        Ok((true, pos + 1))
    } else {
        Err(minicbor_error_text(data, pos, OP_BOOL()))
    }
}

/// Where the data item at `pos` ends, if it is a well-formed item.
pub uninterp spec fn cbor_skip_end(data: Seq<u8>, pos: nat) -> Option<nat>;

/// Skipping the data item at `pos`.
pub open spec fn spec_skip(data: Seq<u8>, pos: nat) -> Result<nat, Seq<char>> {
    match cbor_skip_end(data, pos) {
        Some(p) => Ok(p),
        None => Err(minicbor_error_text(data, pos, OP_SKIP())),
    }
}

// Writing.

/// Calls `minicbor::Encoder::map` on an encoder over `buf`. Claimed: the map
/// head for `len` entries, in its shortest form, is appended (writing to a
/// `Vec` cannot fail).
#[verifier::external_body]
pub(crate) fn write_map(buf: &mut Vec<u8>, len: u64)
    ensures
        final(buf)@ == old(buf)@ + map_head(len as nat),
{
    let _ = minicbor::Encoder::new(buf).map(len);
}

/// Calls `minicbor::Encoder::array` on an encoder over `buf`. Claimed: the
/// array head for `len` items, in its shortest form, is appended.
#[verifier::external_body]
pub(crate) fn write_array(buf: &mut Vec<u8>, len: u64)
    ensures
        final(buf)@ == old(buf)@ + array_head(len as nat),
{
    let _ = minicbor::Encoder::new(buf).array(len);
}

/// Calls `minicbor::Encoder::str` on an encoder over `buf`. Claimed: a
/// definite-length text item holding the UTF-8 bytes of `s` is appended.
#[verifier::external_body]
pub(crate) fn write_str(buf: &mut Vec<u8>, s: &str)
    ensures
        final(buf)@ == old(buf)@ + text_item(s@),
{
    let _ = minicbor::Encoder::new(buf).str(s);
}

/// Calls `minicbor::Encoder::bytes` on an encoder over `buf`. Claimed: a
/// definite-length byte string item holding `b` is appended.
#[verifier::external_body]
pub(crate) fn write_bytes(buf: &mut Vec<u8>, b: &[u8])
    ensures
        final(buf)@ == old(buf)@ + bytes_item(b@),
{
    let _ = minicbor::Encoder::new(buf).bytes(b);
}

/// Calls `minicbor::Encoder::u64` on an encoder over `buf`. Claimed: the
/// unsigned integer item for `n`, in its shortest form, is appended.
#[verifier::external_body]
pub(crate) fn write_u64(buf: &mut Vec<u8>, n: u64)
    ensures
        final(buf)@ == old(buf)@ + uint_item(n as nat),
{
    let _ = minicbor::Encoder::new(buf).u64(n);
}

/// Calls `minicbor::Encoder::bool` on an encoder over `buf`. Claimed: the
/// simple value `true` (0xf5) or `false` (0xf4) is appended.
#[verifier::external_body]
pub(crate) fn write_bool(buf: &mut Vec<u8>, b: bool)
    ensures
        final(buf)@ == old(buf)@ + bool_item(b),
{
    let _ = minicbor::Encoder::new(buf).bool(b);
}

// Reading.

/// Calls `minicbor::Decoder::map` at `pos`. Claimed: it reads a map head as
/// `spec_read_map` describes; a failure's text is a function of the input,
/// the position and the kind of read.
#[verifier::external_body]
pub(crate) fn read_map(data: &[u8], pos: usize) -> (r: Result<(Option<u64>, usize), String>)
    ensures
        match r {
            Ok((n, p)) => spec_read_map(data@, pos as nat) == Ok::<(Option<nat>, nat), Seq<char>>(
                (match n { Some(v) => Some(v as nat), None => None }, p as nat)),
            Err(e) => spec_read_map(data@, pos as nat) == Err::<(Option<nat>, nat), Seq<char>>(e@)
                && e@ == minicbor_error_text(data@, pos as nat, OP_MAP()),
        },
{
    let mut d = minicbor::Decoder::new(data);
    d.set_position(pos);
    match d.map() {
        Ok(n) => Ok((n, d.position())),
        Err(e) => Err(e.to_string()),
    }
}

/// Calls `minicbor::Decoder::array` at `pos`. Claimed: it reads an array
/// head as `spec_read_array` describes.
#[verifier::external_body]
pub(crate) fn read_array(data: &[u8], pos: usize) -> (r: Result<(Option<u64>, usize), String>)
    ensures
        match r {
            Ok((n, p)) => spec_read_array(data@, pos as nat) == Ok::<(Option<nat>, nat), Seq<char>>(
                (match n { Some(v) => Some(v as nat), None => None }, p as nat)),
            Err(e) => spec_read_array(data@, pos as nat) == Err::<(Option<nat>, nat), Seq<char>>(e@)
                && e@ == minicbor_error_text(data@, pos as nat, OP_ARRAY()),
        },
{
    let mut d = minicbor::Decoder::new(data);
    d.set_position(pos);
    match d.array() {
        Ok(n) => Ok((n, d.position())),
        Err(e) => Err(e.to_string()),
    }
}

/// Calls `minicbor::Decoder::str` at `pos`. Claimed: it reads a
/// definite-length text item as `spec_read_str` describes (the payload is
/// checked to be UTF-8).
#[verifier::external_body]
pub(crate) fn read_str(data: &[u8], pos: usize) -> (r: Result<(String, usize), String>)
    ensures
        match r {
            Ok((s, p)) => spec_read_str(data@, pos as nat) == Ok::<(Seq<char>, nat), Seq<char>>((s@, p as nat)),
            Err(e) => spec_read_str(data@, pos as nat) == Err::<(Seq<char>, nat), Seq<char>>(e@)
                && e@ == minicbor_error_text(data@, pos as nat, OP_STR()),
        },
{
    let mut d = minicbor::Decoder::new(data);
    d.set_position(pos);
    match d.str() {
        Ok(s) => Ok((s.to_string(), d.position())),
        Err(e) => Err(e.to_string()),
    }
}

/// Calls `minicbor::Decoder::bytes` at `pos`. Claimed: it reads a
/// definite-length byte string item as `spec_read_bytes` describes.
#[verifier::external_body]
pub(crate) fn read_bytes(data: &[u8], pos: usize) -> (r: Result<(Vec<u8>, usize), String>)
    ensures
        match r {
            Ok((b, p)) => spec_read_bytes(data@, pos as nat) == Ok::<(Seq<u8>, nat), Seq<char>>((b@, p as nat)),
            Err(e) => spec_read_bytes(data@, pos as nat) == Err::<(Seq<u8>, nat), Seq<char>>(e@)
                && e@ == minicbor_error_text(data@, pos as nat, OP_BYTES()),
        },
{
    let mut d = minicbor::Decoder::new(data);
    d.set_position(pos);
    match d.bytes() {
        Ok(b) => Ok((b.to_vec(), d.position())),
        Err(e) => Err(e.to_string()),
    }
}

/// Calls `minicbor::Decoder::u64` at `pos`. Claimed: it reads an unsigned
/// integer item (of any width) as `spec_read_u64` describes.
#[verifier::external_body]
pub(crate) fn read_u64(data: &[u8], pos: usize) -> (r: Result<(u64, usize), String>)
    ensures
        match r {
            Ok((n, p)) => spec_read_u64(data@, pos as nat) == Ok::<(u64, nat), Seq<char>>((n, p as nat)),
            Err(e) => spec_read_u64(data@, pos as nat) == Err::<(u64, nat), Seq<char>>(e@)
                && e@ == minicbor_error_text(data@, pos as nat, OP_U64()),
        },
{
    let mut d = minicbor::Decoder::new(data);
    d.set_position(pos);
    match d.u64() {
        Ok(n) => Ok((n, d.position())),
        Err(e) => Err(e.to_string()),
    }
}

/// Calls `minicbor::Decoder::bool` at `pos`. Claimed: it reads a boolean
/// item as `spec_read_bool` describes.
#[verifier::external_body]
pub(crate) fn read_bool(data: &[u8], pos: usize) -> (r: Result<(bool, usize), String>)
    ensures
        match r {
            Ok((b, p)) => spec_read_bool(data@, pos as nat) == Ok::<(bool, nat), Seq<char>>((b, p as nat)),
            Err(e) => spec_read_bool(data@, pos as nat) == Err::<(bool, nat), Seq<char>>(e@)
                && e@ == minicbor_error_text(data@, pos as nat, OP_BOOL()),
        },
{
    let mut d = minicbor::Decoder::new(data);
    d.set_position(pos);
    match d.bool() {
        Ok(b) => Ok((b, d.position())),
        Err(e) => Err(e.to_string()),
    }
}

/// Calls `minicbor::Decoder::skip` at `pos`. Claimed: it ends where
/// Calls `minicbor::Decoder::skip` at `pos`. Claimed: it ends where
/// `cbor_skip_end` says the item ends, a function of the input and the
/// position alone, or fails when that is `None`.
#[verifier::external_body]
pub(crate) fn skip_item(data: &[u8], pos: usize) -> (r: Result<usize, String>)
    ensures
        match r {
            Ok(p) => cbor_skip_end(data@, pos as nat) == Some(p as nat),
            Err(e) => cbor_skip_end(data@, pos as nat) is None
                && e@ == minicbor_error_text(data@, pos as nat, OP_SKIP()),
        },
{
    let mut d = minicbor::Decoder::new(data);
    d.set_position(pos);
    match d.skip() {
        Ok(()) => Ok(d.position()),
        Err(e) => Err(e.to_string()),
    }
}

// Reading what was written.

proof fn lemma_be_bytes(n: nat, k: nat)
    requires
        n < pow256(k),
    ensures
        be_bytes(n, k).len() == k,
        from_be(be_bytes(n, k)) == n,
    decreases k,
{
    if k > 0 {
        let p = pow256((k - 1) as nat);
        assert(n / 256 < p) by (nonlinear_arith)
            requires
                n < 256 * p,
        ;
        lemma_be_bytes(n / 256, (k - 1) as nat);
        let s = be_bytes(n, k);
        assert(s.drop_last() =~= be_bytes(n / 256, (k - 1) as nat));
        assert((n / 256) * 256 + n % 256 == n) by (nonlinear_arith);
    }
}

/// If the bytes from `pos` on are `x` followed by `rest`, the bytes of `x`
/// stand at `pos` and `rest` follows `x`.
pub proof fn lemma_skip_split(data: Seq<u8>, pos: nat, x: Seq<u8>, rest: Seq<u8>)
    requires
        pos <= data.len(),
        data.skip(pos as int) == x + rest,
    ensures
        pos + x.len() <= data.len(),
        data.subrange(pos as int, (pos + x.len()) as int) == x,
        data.skip((pos + x.len()) as int) == rest,
        forall|i: int| 0 <= i < x.len() ==> data[pos + i] == #[trigger] x[i],
{
    let sk = data.skip(pos as int);
    assert(sk.len() == data.len() - pos);
    assert(sk.len() == x.len() + rest.len());
    assert forall|i: int| 0 <= i < x.len() implies data[pos + i] == #[trigger] x[i] by {
        assert(sk[i] == data[pos + i]);
        assert(sk[i] == (x + rest)[i]);
    }
    assert(data.subrange(pos as int, (pos + x.len()) as int) =~= x);
    assert forall|i: int| 0 <= i < rest.len() implies data.skip((pos + x.len()) as int)[i] == rest[i] by {
        assert(sk[x.len() + i] == (x + rest)[x.len() + i]);
        assert(sk[x.len() + i] == data[pos + x.len() + i]);
    }
    assert(data.skip((pos + x.len()) as int) =~= rest);
}

proof fn lemma_pow256_small()
    ensures
        pow256(2) == 65536,
        pow256(4) == 0x1_0000_0000,
        pow256(8) == 0x1_0000_0000_0000_0000,
{
    reveal_with_fuel(pow256, 9);
}

/// Reading a head gives back its major type's argument.
pub proof fn lemma_read_head(data: Seq<u8>, pos: nat, major: nat, n: nat, op: nat, rest: Seq<u8>)
    requires
        major < 8,
        n < 0x1_0000_0000_0000_0000,
        pos <= data.len(),
        data.skip(pos as int) == head(major, n) + rest,
    ensures
        spec_read_len(data, pos, major, op) == Ok::<(Option<nat>, nat), Seq<char>>(
            (Some(n), pos + head(major, n).len())),
        data.skip((pos + head(major, n).len()) as int) == rest,
        pos + head(major, n).len() <= data.len(),
{
    let h = head(major, n);
    lemma_skip_split(data, pos, h, rest);
    let t = major * 32;
    assert(data[pos as int] == h[0]);
    if n < 24 {
        assert(h[0] as nat == t + n);
        assert((t + n) / 32 == major && (t + n) % 32 == n) by (nonlinear_arith)
            requires t == major * 32, n < 24;
    } else if n < 256 {
        assert(h[0] as nat == t + 24);
        assert((t + 24) / 32 == major && (t + 24) % 32 == 24) by (nonlinear_arith)
            requires t == major * 32;
        assert(data.subrange((pos + 1) as int, (pos + 2) as int) =~= seq![n as u8]);
        assert(seq![n as u8].drop_last() =~= Seq::<u8>::empty());
        let one = seq![n as u8];
        assert(one.last() == n as u8);
        assert(one.drop_last() =~= Seq::<u8>::empty());
        assert(from_be(one) == from_be(one.drop_last()) * 256 + one.last() as nat);
        assert(from_be(one) == n);
        assert(read_argument(data, pos + 1, 24) == Some((n, pos + 2)));
    } else if n < 65536 {
        assert(h[0] as nat == t + 25);
        assert((t + 25) / 32 == major && (t + 25) % 32 == 25) by (nonlinear_arith)
            requires t == major * 32;
        lemma_pow256_small();
        lemma_be_bytes(n, 2);
        assert forall|i: int| 0 <= i < 2 implies data[pos + 1 + i] == #[trigger] be_bytes(n, 2)[i] by {
            assert(h[1 + i] == be_bytes(n, 2)[i]);
            assert(data[pos + (1 + i)] == h[1 + i]);
        }
        assert(data.subrange((pos + 1) as int, (pos + 3) as int) =~= be_bytes(n, 2));
        assert(read_argument(data, pos + 1, 25) == Some((n, pos + 3)));
    } else if n < 0x1_0000_0000 {
        assert(h[0] as nat == t + 26);
        assert((t + 26) / 32 == major && (t + 26) % 32 == 26) by (nonlinear_arith)
            requires t == major * 32;
        lemma_pow256_small();
        lemma_be_bytes(n, 4);
        assert forall|i: int| 0 <= i < 4 implies data[pos + 1 + i] == #[trigger] be_bytes(n, 4)[i] by {
            assert(h[1 + i] == be_bytes(n, 4)[i]);
            assert(data[pos + (1 + i)] == h[1 + i]);
        }
        assert(data.subrange((pos + 1) as int, (pos + 5) as int) =~= be_bytes(n, 4));
        assert(read_argument(data, pos + 1, 26) == Some((n, pos + 5)));
    } else {
        assert(h[0] as nat == t + 27);
        assert((t + 27) / 32 == major && (t + 27) % 32 == 27) by (nonlinear_arith)
            requires t == major * 32;
        lemma_pow256_small();
        lemma_be_bytes(n, 8);
        assert forall|i: int| 0 <= i < 8 implies data[pos + 1 + i] == #[trigger] be_bytes(n, 8)[i] by {
            assert(h[1 + i] == be_bytes(n, 8)[i]);
            assert(data[pos + (1 + i)] == h[1 + i]);
        }
        assert(data.subrange((pos + 1) as int, (pos + 9) as int) =~= be_bytes(n, 8));
        assert(read_argument(data, pos + 1, 27) == Some((n, pos + 9)));
    }
}

/// Reading a map head gives back its length.
pub proof fn lemma_read_map(data: Seq<u8>, pos: nat, n: nat, rest: Seq<u8>)
    requires
        n < 0x1_0000_0000_0000_0000,
        pos <= data.len(),
        data.skip(pos as int) == map_head(n) + rest,
    ensures
        spec_read_map(data, pos) == Ok::<(Option<nat>, nat), Seq<char>>(
            (Some(n), pos + map_head(n).len())),
        data.skip((pos + map_head(n).len()) as int) == rest,
        pos + map_head(n).len() <= data.len(),
{
    lemma_read_head(data, pos, 5, n, OP_MAP(), rest);
}

/// Reading an array head gives back its length.
pub proof fn lemma_read_array(data: Seq<u8>, pos: nat, n: nat, rest: Seq<u8>)
    requires
        n < 0x1_0000_0000_0000_0000,
        pos <= data.len(),
        data.skip(pos as int) == array_head(n) + rest,
    ensures
        spec_read_array(data, pos) == Ok::<(Option<nat>, nat), Seq<char>>(
            (Some(n), pos + array_head(n).len())),
        data.skip((pos + array_head(n).len()) as int) == rest,
        pos + array_head(n).len() <= data.len(),
{
    lemma_read_head(data, pos, 4, n, OP_ARRAY(), rest);
}

proof fn lemma_read_payload(data: Seq<u8>, pos: nat, major: nat, op: nat, b: Seq<u8>, rest: Seq<u8>)
    requires
        major < 8,
        b.len() < 0x1_0000_0000_0000_0000,
        pos <= data.len(),
        data.skip(pos as int) == (head(major, b.len()) + b) + rest,
    ensures
        spec_read_payload(data, pos, major, op) == Ok::<(Seq<u8>, nat), Seq<char>>(
            (b, pos + (head(major, b.len()) + b).len())),
        data.skip((pos + (head(major, b.len()) + b).len()) as int) == rest,
        pos + (head(major, b.len()) + b).len() <= data.len(),
{
    let h = head(major, b.len());
    assert((h + b) + rest =~= h + (b + rest));
    lemma_read_head(data, pos, major, b.len(), op, b + rest);
    let p = pos + h.len();
    lemma_skip_split(data, p, b, rest);
}

/// Reading a byte string item gives back its bytes.
pub proof fn lemma_read_bytes(data: Seq<u8>, pos: nat, b: Seq<u8>, rest: Seq<u8>)
    requires
        b.len() < 0x1_0000_0000_0000_0000,
        pos <= data.len(),
        data.skip(pos as int) == bytes_item(b) + rest,
    ensures
        spec_read_bytes(data, pos) == Ok::<(Seq<u8>, nat), Seq<char>>(
            (b, pos + bytes_item(b).len())),
        data.skip((pos + bytes_item(b).len()) as int) == rest,
        pos + bytes_item(b).len() <= data.len(),
{
    lemma_read_payload(data, pos, 2, OP_BYTES(), b, rest);
}

/// Reading a text item gives back its text.
pub proof fn lemma_read_str(data: Seq<u8>, pos: nat, s: Seq<char>, rest: Seq<u8>)
    requires
        encode_utf8(s).len() < 0x1_0000_0000_0000_0000,
        pos <= data.len(),
        data.skip(pos as int) == text_item(s) + rest,
    ensures
        spec_read_str(data, pos) == Ok::<(Seq<char>, nat), Seq<char>>(
            (s, pos + text_item(s).len())),
        data.skip((pos + text_item(s).len()) as int) == rest,
        pos + text_item(s).len() <= data.len(),
{
    broadcast use vstd::utf8::group_utf8_lib;

    lemma_read_payload(data, pos, 3, OP_STR(), encode_utf8(s), rest);
}

/// Reading an unsigned integer item gives back its value.
pub proof fn lemma_read_u64(data: Seq<u8>, pos: nat, n: u64, rest: Seq<u8>)
    requires
        pos <= data.len(),
        data.skip(pos as int) == uint_item(n as nat) + rest,
    ensures
        spec_read_u64(data, pos) == Ok::<(u64, nat), Seq<char>>((n, pos + uint_item(n as nat).len())),
        data.skip((pos + uint_item(n as nat).len()) as int) == rest,
        pos + uint_item(n as nat).len() <= data.len(),
{
    lemma_read_head(data, pos, 0, n as nat, OP_U64(), rest);
    let h = uint_item(n as nat);
    lemma_skip_split(data, pos, h, rest);
    assert(data[pos as int] == h[0]);
}

/// Reading a boolean item gives back its value.
pub proof fn lemma_read_bool(data: Seq<u8>, pos: nat, b: bool, rest: Seq<u8>)
    requires
        pos <= data.len(),
        data.skip(pos as int) == bool_item(b) + rest,
    ensures
        spec_read_bool(data, pos) == Ok::<(bool, nat), Seq<char>>((b, pos + 1)),
        data.skip((pos + 1) as int) == rest,
        pos + 1 <= data.len(),
{
    lemma_skip_split(data, pos, bool_item(b), rest);
    assert(data[pos as int] == bool_item(b)[0]);
}

} // verus!
