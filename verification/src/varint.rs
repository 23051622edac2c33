//! Canonical variable-length unsigned integers.
//!
//! A value below 248 is a single byte. Any other value is a byte `247 + k`
//! followed by the value in `k` big-endian bytes, with the least `k` that
//! holds it. Every value has exactly one encoding, of at most nine bytes.

use crate::bytes::put_bytes;
use vstd::prelude::*;
use vstd::slice::slice_subrange;

verus! {

/// The greatest number of bytes that an encoded value takes.
pub const MAX_VARU64_SIZE: usize = 9;

/// Why no value was read.
#[derive(Debug, Clone, Copy, PartialEq, Eq, Structural)]
pub enum DecodeError {
    /// The value is written in more bytes than it needs.
    NonCanonical,
    /// The bytes end before the value does.
    UnexpectedEndOfInput,
}

/// 256 to the power of `k`.
pub open spec fn pow256(k: nat) -> nat
    decreases k,
{
    if k == 0 {
        1
    } else {
        256 * pow256((k - 1) as nat)
    }
}

/// The number of bytes that the encoding of `n` takes.
pub open spec fn encoding_width(n: u64) -> nat {
    if n < 248 {
        1
    } else if n < 0x100 {
        2
    } else if n < 0x1_0000 {
        3
    } else if n < 0x100_0000 {
        4
    } else if n < 0x1_0000_0000 {
        5
    } else if n < 0x100_0000_0000 {
        6
    } else if n < 0x1_0000_0000_0000 {
        7
    } else if n < 0x100_0000_0000_0000 {
        8
    } else {
        9
    }
}

/// The number whose base-256 digits, most significant first, are `bytes`.
pub open spec fn be_value(bytes: Seq<u8>) -> nat
    decreases bytes.len(),
{
    if bytes.len() == 0 {
        0
    } else {
        be_value(bytes.drop_last()) * 256 + bytes.last() as nat
    }
}

/// The `k` lowest base-256 digits of `n`, most significant first.
pub open spec fn be_digits(n: nat, k: nat) -> Seq<u8>
    decreases k,
{
    if k == 0 {
        Seq::empty()
    } else {
        be_digits(n / 256, (k - 1) as nat).push((n % 256) as u8)
    }
}

/// The encoding of `n`.
pub open spec fn encoding(n: u64) -> Seq<u8> {
    if n < 248 {
        seq![n as u8]
    } else {
        seq![(246 + encoding_width(n)) as u8] + be_digits(
            n as nat,
            (encoding_width(n) - 1) as nat,
        )
    }
}

/// The value that `input` starts with and the number of bytes it takes, or
/// `None` where `input` is cut short or starts with an encoding that is longer
/// than its value needs.
pub open spec fn parse(input: Seq<u8>) -> Option<(u64, nat)> {
    if input.len() == 0 {
        None
    } else if input[0] < 248 {
        Some((input[0] as u64, 1nat))
    } else {
        let k = (input[0] - 247) as nat;
        if input.len() < 1 + k {
            None
        } else {
            let v = be_value(input.subrange(1, 1 + k as int));
            if v <= u64::MAX && encoding_width(v as u64) == k + 1 {
                Some((v as u64, k + 1))
            } else {
                None
            }
        }
    }
}

/// Why nothing parses from `input`, where nothing does: the bytes that the
/// first byte announces are not all there, or the value in them has a shorter
/// encoding.
pub open spec fn parse_failure(input: Seq<u8>) -> DecodeError {
    if input.len() == 0 || input.len() < input[0] - 246 {
        DecodeError::UnexpectedEndOfInput
    } else {
        DecodeError::NonCanonical
    }
}

pub proof fn lemma_be_digits_len(n: nat, k: nat)
    ensures
        be_digits(n, k).len() == k,
    decreases k,
{
    if k > 0 {
        lemma_be_digits_len(n / 256, (k - 1) as nat);
    }
}

pub proof fn lemma_be_value_bound(bytes: Seq<u8>)
    ensures
        be_value(bytes) < pow256(bytes.len()),
    decreases bytes.len(),
{
    if bytes.len() > 0 {
        lemma_be_value_bound(bytes.drop_last());
    }
}

pub proof fn lemma_be_digits_of_value(bytes: Seq<u8>)
    ensures
        be_digits(be_value(bytes), bytes.len()) == bytes,
    decreases bytes.len(),
{
    if bytes.len() > 0 {
        lemma_be_digits_of_value(bytes.drop_last());
        assert(be_digits(be_value(bytes), bytes.len()) =~= bytes);
    }
}

pub proof fn lemma_be_value_of_digits(n: nat, k: nat)
    requires
        n < pow256(k),
    ensures
        be_value(be_digits(n, k)) == n,
    decreases k,
{
    lemma_be_digits_len(n, k);
    if k > 0 {
        lemma_be_value_of_digits(n / 256, (k - 1) as nat);
        lemma_be_digits_len(n / 256, (k - 1) as nat);
        assert(be_digits(n, k).drop_last() =~= be_digits(n / 256, (k - 1) as nat));
    }
}

/// The width thresholds are the powers of 256.
pub proof fn lemma_width_bounds(n: u64)
    ensures
        n >= 248 ==> n < pow256((encoding_width(n) - 1) as nat),
        encoding_width(n) >= 3 ==> n >= pow256((encoding_width(n) - 2) as nat),
        1 <= encoding_width(n) <= 9,
{
    reveal_with_fuel(pow256, 10);
}

/// Parsing what was encoded gives the value back, whatever follows it.
pub proof fn lemma_parse_encoding(n: u64, rest: Seq<u8>)
    ensures
        encoding(n).len() == encoding_width(n),
        parse(encoding(n) + rest) == Some((n, encoding_width(n))),
{
    let input = encoding(n) + rest;
    let k = (encoding_width(n) - 1) as nat;
    lemma_be_digits_len(n as nat, k);
    if n >= 248 {
        lemma_width_bounds(n);
        lemma_be_value_of_digits(n as nat, k);
        assert(input.subrange(1, 1 + k as int) =~= be_digits(n as nat, k));
    }
}

/// What parses is the encoding of the value it parses to.
pub proof fn lemma_encoding_parse(input: Seq<u8>)
    requires
        parse(input) is Some,
    ensures
        ({
            let (v, w) = parse(input).unwrap();
            &&& w == encoding_width(v)
            &&& w <= input.len()
            &&& input.subrange(0, w as int) == encoding(v)
        }),
{
    let (v, w) = parse(input).unwrap();
    if input[0] < 248 {
        assert(input.subrange(0, 1) =~= encoding(v));
    } else {
        let k = (input[0] - 247) as nat;
        let digits = input.subrange(1, 1 + k as int);
        lemma_be_digits_of_value(digits);
        assert(input.subrange(0, w as int) =~= encoding(v));
    }
}

/// A value written in more bytes than it needs is not read: where the first
/// byte announces `k` bytes and the number in them has a shorter encoding,
/// nothing parses.
pub proof fn lemma_parse_rejects_overlong(input: Seq<u8>)
    requires
        input.len() > 0,
        input[0] >= 248,
        input.len() >= input[0] - 246,
        be_value(input.subrange(1, input[0] - 246)) <= u64::MAX,
        encoding_width(be_value(input.subrange(1, input[0] - 246)) as u64) < input[0] - 246,
    ensures
        parse(input) is None,
{
}

/// Calls `varu64::decode`: reads the value that `input` starts with and hands
/// back the bytes after it. Claims that it succeeds exactly where `parse`
/// does, with the same value and the same number of bytes taken.
#[verifier::external_body]
pub(crate) fn varu64_decode<'a>(input: &'a [u8]) -> (r: Option<(u64, &'a [u8])>)
    ensures
        match parse(input@) {
            Some((v, w)) => r matches Some((value, rest)) && value == v && rest@ == input@.skip(
                w as int,
            ),
            None => r is None,
        },
{
    match varu64::decode(input) {
        Ok((value, rest)) => Some((value, rest)),
        Err(_) => None,
    }
}

/// Calls `varu64::encode` on a buffer of nine bytes, the most that an
/// encoding takes. Claims that it returns `encoding_width(n)` and that the
/// buffer then starts with `encoding(n)`.
#[verifier::external_body]
pub(crate) fn varu64_encode(n: u64, out: &mut [u8; 9]) -> (written: usize)
    ensures
        written == encoding_width(n),
        final(out)@.take(written as int) == encoding(n),
{
    varu64::encode(n, &mut out[..])
}

/// `varu64::encoding_length` returns the number of bytes that the encoding of
/// `n` takes: its source is the same chain of comparisons as
/// `encoding_width`.
pub assume_specification[ varu64::encoding_length ](n: u64) -> (r: usize)
    ensures
        r == encoding_width(n),
;

/// The number of bytes that the encoding of `n` takes.
pub fn encoding_length(n: u64) -> (r: usize)
    ensures
        r == encoding_width(n),
        r == encoding(n).len(),
        1 <= r <= MAX_VARU64_SIZE,
{
    proof {
        lemma_parse_encoding(n, Seq::empty());
    }
    varu64::encoding_length(n)
}

/// Writes the encoding of `n` at the start of `out` and returns the number of
/// bytes written.
pub fn encode(n: u64, out: &mut [u8]) -> (written: usize)
    requires
        old(out)@.len() >= encoding_width(n),
    ensures
        written == encoding_width(n),
        final(out)@ == encoding(n) + old(out)@.skip(written as int),
{
    let ghost before = out@;
    let mut buffer = [0u8; 9];
    let width = varu64_encode(n, &mut buffer);
    let written = put_bytes(out, 0, slice_subrange(buffer.as_slice(), 0, width));
    proof {
        assert(out@ =~= encoding(n) + before.skip(written as int));
    }
    written
}

/// Appends the encoding of `n` to `w` and returns the number of bytes
/// appended.
pub fn encode_write(n: u64, w: &mut Vec<u8>) -> (written: usize)
    ensures
        written == encoding_width(n),
        final(w)@ == old(w)@ + encoding(n),
{
    let mut buffer = [0u8; 9];
    let width = varu64_encode(n, &mut buffer);
    let bytes = slice_subrange(buffer.as_slice(), 0, width);
    proof {
        assert(bytes@ =~= encoding(n));
    }
    w.extend_from_slice(bytes);
    width
}

/// Reads the value that `input` starts with and hands back the bytes after
/// it. Only the shortest encoding of a value is read.
pub fn decode<'a>(input: &'a [u8]) -> (r: Result<(u64, &'a [u8]), DecodeError>)
    ensures
        match parse(input@) {
            Some((v, w)) => r matches Ok((value, rest)) && value == v && rest@ == input@.skip(
                w as int,
            ),
            None => r matches Err(e) && e == parse_failure(input@),
        },
{
    match varu64_decode(input) {
        Some(pair) => Ok(pair),
        None => {
            if input.len() == 0 {
                return Err(DecodeError::UnexpectedEndOfInput);
            }
            let announced = (input[0] - 246) as usize;
            if input.len() < announced {
                Err(DecodeError::UnexpectedEndOfInput)
            } else {
                Err(DecodeError::NonCanonical)
            }
        },
    }
}

} // verus!
