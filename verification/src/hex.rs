//! Lower-case hexadecimal encoding of byte strings.

use vstd::prelude::*;

verus! {

/// The lower-case hexadecimal digit for a value below sixteen.
pub open spec fn hex_digit(n: u8) -> char {
    if n < 10 {
        (48 + n) as char
    } else {
        (87 + n) as char
    }
}

/// The value of a hexadecimal digit (either case), if it is one.
pub open spec fn digit_value(c: char) -> Option<u8> {
    let n = c as u32;
    if 48 <= n <= 57 {
        Some((n - 48) as u8)
    } else if 97 <= n <= 102 {
        Some((n - 87) as u8)
    } else if 65 <= n <= 70 {
        Some((n - 55) as u8)
    } else {
        None
    }
}

/// The two characters that encode one byte.
pub open spec fn hex_byte(b: u8) -> Seq<char> {
    seq![hex_digit(b / 16), hex_digit(b % 16)]
}

/// The lower-case hexadecimal encoding of a byte string: two characters per
/// byte, the high nibble first.
pub open spec fn hex_encode(bytes: Seq<u8>) -> Seq<char>
    decreases bytes.len(),
{
    if bytes.len() == 0 {
        Seq::empty()
    } else {
        hex_encode(bytes.drop_last()) + hex_byte(bytes.last())
    }
}

/// The bytes that a hexadecimal string encodes, if it is one: an even number
/// of digits, either case.
pub open spec fn hex_decode(s: Seq<char>) -> Option<Seq<u8>>
    decreases s.len(),
{
    if s.len() == 0 {
        Some(Seq::empty())
    } else if s.len() == 1 {
        None
    } else {
        match (hex_decode(s.subrange(0, s.len() - 2)), digit_value(s[s.len() - 2]), digit_value(
            s[s.len() - 1],
        )) {
            (Some(init), Some(hi), Some(lo)) => Some(init.push((hi * 16 + lo) as u8)),
            _ => None,
        }
    }
}

/// The hexadecimal encoding has two characters per byte.
pub proof fn lemma_hex_encode_len(bytes: Seq<u8>)
    ensures
        hex_encode(bytes).len() == 2 * bytes.len(),
    decreases bytes.len(),
{
    if bytes.len() > 0 {
        lemma_hex_encode_len(bytes.drop_last());
    }
}

/// Decoding the hexadecimal encoding of a byte string gives the bytes back.
pub proof fn lemma_hex_roundtrip(bytes: Seq<u8>)
    ensures
        hex_decode(hex_encode(bytes)) == Some(bytes),
    decreases bytes.len(),
{
    if bytes.len() > 0 {
        let init = bytes.drop_last();
        let b = bytes.last();
        lemma_hex_roundtrip(init);
        lemma_hex_encode_len(init);
        let e = hex_encode(bytes);
        assert(e.subrange(0, e.len() - 2) =~= hex_encode(init));
        assert(e[e.len() - 2] == hex_digit(b / 16));
        assert(e[e.len() - 1] == hex_digit(b % 16));
        assert(digit_value(hex_digit(b / 16)) == Some(b / 16));
        assert(digit_value(hex_digit(b % 16)) == Some(b % 16));
        assert((b / 16) * 16 + b % 16 == b);
        assert(init.push(b) =~= bytes);
    }
}

/// Calls `String::push`. Claimed: the character is appended.
#[verifier::external_body]
pub(crate) fn string_push(s: &mut String, c: char)
    ensures
        final(s)@ == old(s)@.push(c),
{
    s.push(c)
}

fn exec_hex_digit(n: u8) -> (c: char)
    requires
        n < 16,
    ensures
        c == hex_digit(n),
{
    if n < 10 {
        (48 + n) as char
    } else {
        (87 + n) as char
    }
}

/// The lower-case hexadecimal encoding of `bytes`.
pub fn encode(bytes: &[u8]) -> (r: String)
    ensures
        r@ == hex_encode(bytes@),
{
    let mut out = String::new();
    let mut i: usize = 0;
    while i < bytes.len()
        invariant
            i <= bytes@.len(),
            out@ == hex_encode(bytes@.take(i as int)),
        decreases bytes@.len() - i,
    {
        let b = bytes[i];
        string_push(&mut out, exec_hex_digit(b / 16));
        string_push(&mut out, exec_hex_digit(b % 16));
        proof {
            assert(bytes@.take(i + 1).drop_last() =~= bytes@.take(i as int));
            assert(out@ =~= hex_encode(bytes@.take(i + 1)));
        }
        i = i + 1;
    }
    proof {
        assert(bytes@.take(i as int) =~= bytes@);
    }
    out
}

fn exec_digit_value(c: char) -> (r: Option<u8>)
    ensures
        r == digit_value(c),
{
    let n = c as u32;
    if 48 <= n && n <= 57 {
        Some((n - 48) as u8)
    } else if 97 <= n && n <= 102 {
        Some((n - 87) as u8)
    } else if 65 <= n && n <= 70 {
        Some((n - 55) as u8)
    } else {
        None
    }
}

proof fn lemma_hex_decode_some_len(s: Seq<char>)
    requires
        hex_decode(s) is Some,
    ensures
        s.len() % 2 == 0,
        hex_decode(s).unwrap().len() * 2 == s.len(),
    decreases s.len(),
{
    if s.len() > 0 {
        lemma_hex_decode_some_len(s.subrange(0, s.len() - 2));
    }
}

/// The bytes a hexadecimal string (either case) encodes, or `None` when it
/// has an odd length or a character that is not a hexadecimal digit.
pub fn decode(s: &str) -> (r: Option<Vec<u8>>)
    ensures
        match r {
            Some(v) => hex_decode(s@) == Some(v@),
            None => hex_decode(s@) is None,
        },
{
    let n = s.unicode_len();
    if n % 2 != 0 {
        proof {
            if hex_decode(s@) is Some {
                lemma_hex_decode_some_len(s@);
            }
        }
        return None;
    }
    let mut out: Vec<u8> = Vec::new();
    let mut i: usize = 0;
    while i < n
        invariant
            n == s@.len(),
            n % 2 == 0,
            i % 2 == 0,
            i <= n,
            hex_decode(s@.take(i as int)) == Some(out@),
        decreases n - i,
    {
        let hi = exec_digit_value(s.get_char(i));
        let lo = exec_digit_value(s.get_char(i + 1));
        proof {
            let t = s@.take(i + 2);
            assert(t.subrange(0, t.len() - 2) =~= s@.take(i as int));
        }
        match (hi, lo) {
            (Some(h), Some(l)) => {
                out.push(h * 16 + l);
            },
            _ => {
                proof {
                    lemma_hex_decode_prefix_none(s@, i as int + 2);
                }
                return None;
            },
        }
        i = i + 2;
    }
    proof {
        assert(s@.take(i as int) =~= s@);
    }
    Some(out)
}

proof fn lemma_hex_decode_prefix_none(s: Seq<char>, k: int)
    requires
        0 <= k <= s.len(),
        k % 2 == 0,
        s.len() % 2 == 0,
        hex_decode(s.take(k)) is None,
    ensures
        hex_decode(s) is None,
    decreases s.len() - k,
{
    if k < s.len() {
        let t = s.take(k + 2);
        assert(t.subrange(0, t.len() - 2) =~= s.take(k));
        lemma_hex_decode_prefix_none(s, k + 2);
    } else {
        assert(s.take(k) =~= s);
    }
}

} // verus!
