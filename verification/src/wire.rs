//! The fixed-width fields of the layout: single bytes, little-endian
//! integers, the signature, and runs of bytes of a known length.
//!
//! The reading itself is done by the streaming parsers of `nom`; the
//! functions here place them at a position of the input and say what they
//! return.

use crate::error::{DecodeError, Fault, Field};
use vstd::prelude::*;
use vstd::slice::{slice_subrange, slice_to_vec};

verus! {

/// The six bytes that open and close a header: `CORTEX` in ASCII.
pub open spec fn signature() -> Seq<u8> {
    seq![0x43u8, 0x4fu8, 0x52u8, 0x54u8, 0x45u8, 0x58u8]
}

/// The 32-bit little-endian integer whose first byte is `s[at]`.
pub open spec fn le_u32_at(s: Seq<u8>, at: int) -> u32 {
    (s[at] as int + 0x100 * (s[at + 1] as int) + 0x1_0000 * (s[at + 2] as int) + 0x100_0000 * (
    s[at + 3] as int)) as u32
}

/// The 64-bit little-endian integer whose first byte is `s[at]`.
pub open spec fn le_u64_at(s: Seq<u8>, at: int) -> u64 {
    (le_u32_at(s, at) as int + 0x1_0000_0000 * (le_u32_at(s, at + 4) as int)) as u64
}

/// The `n` 32-bit integers that lie one behind the other from `at` on.
pub open spec fn u32s_at(s: Seq<u8>, at: int, n: nat) -> Seq<u32> {
    Seq::new(n, |i: int| le_u32_at(s, at + 4 * i))
}

/// The `n` 64-bit integers that lie one behind the other from `at` on.
pub open spec fn u64s_at(s: Seq<u8>, at: int, n: nat) -> Seq<u64> {
    Seq::new(n, |i: int| le_u64_at(s, at + 8 * i))
}

/// The smaller of two lengths.
pub open spec fn shorter(a: int, b: int) -> int {
    if a < b {
        a
    } else {
        b
    }
}

/// What a signature expected at `at` decodes to: the position behind it.
///
/// The bytes that are there are held against the signature as far as they
/// go. One that differs is final; only then does a missing byte count.
pub open spec fn signature_at(s: Seq<u8>, at: int, field: Field) -> Result<int, Fault> {
    let seen = shorter(s.len() - at, 6);
    if s.subrange(at, at + seen) != signature().take(seen) {
        Err(Fault::Malformed { offset: at, field })
    } else if seen < 6 {
        Err(Fault::Incomplete)
    } else {
        Ok(at + 6)
    }
}

/// How a call into the parser library ended without a value.
enum Halt {
    Incomplete,
    Rejected,
}

/// `nom::number::streaming::le_u8` on a byte slice: it yields the first byte
/// and the slice behind it, or reports that input is missing where the slice
/// is empty.
#[verifier::external_body]
fn nom_le_u8<'a>(input: &'a [u8]) -> (r: Result<(&'a [u8], u8), Halt>)
    ensures
        match r {
            Ok((rest, value)) => input@.len() >= 1 && rest@ == input@.skip(1) && value == input@[0],
            Err(halt) => input@.len() < 1 && halt is Incomplete,
        },
{
    match nom::number::streaming::le_u8::<&[u8], nom::error::Error<&[u8]>>(input) {
        Ok((rest, value)) => Ok((rest, value)),
        Err(nom::Err::Incomplete(_)) => Err(Halt::Incomplete),
        Err(nom::Err::Error(_)) => Err(Halt::Rejected),
        Err(nom::Err::Failure(_)) => Err(Halt::Rejected),
    }
}

/// `nom::number::streaming::le_u32` on a byte slice: with four bytes or more
/// it yields the little-endian value of the first four and the slice behind
/// them; with fewer it reports that input is missing.
#[verifier::external_body]
fn nom_le_u32<'a>(input: &'a [u8]) -> (r: Result<(&'a [u8], u32), Halt>)
    ensures
        match r {
            Ok((rest, value)) => input@.len() >= 4 && rest@ == input@.skip(4) && value
                == le_u32_at(input@, 0),
            Err(halt) => input@.len() < 4 && halt is Incomplete,
        },
{
    match nom::number::streaming::le_u32::<&[u8], nom::error::Error<&[u8]>>(input) {
        Ok((rest, value)) => Ok((rest, value)),
        Err(nom::Err::Incomplete(_)) => Err(Halt::Incomplete),
        Err(nom::Err::Error(_)) => Err(Halt::Rejected),
        Err(nom::Err::Failure(_)) => Err(Halt::Rejected),
    }
}

/// `nom::number::streaming::le_u64` on a byte slice: with eight bytes or
/// more it yields the little-endian value of the first eight and the slice
/// behind them; with fewer it reports that input is missing.
#[verifier::external_body]
fn nom_le_u64<'a>(input: &'a [u8]) -> (r: Result<(&'a [u8], u64), Halt>)
    ensures
        match r {
            Ok((rest, value)) => input@.len() >= 8 && rest@ == input@.skip(8) && value
                == le_u64_at(input@, 0),
            Err(halt) => input@.len() < 8 && halt is Incomplete,
        },
{
    match nom::number::streaming::le_u64::<&[u8], nom::error::Error<&[u8]>>(input) {
        Ok((rest, value)) => Ok((rest, value)),
        Err(nom::Err::Incomplete(_)) => Err(Halt::Incomplete),
        Err(nom::Err::Error(_)) => Err(Halt::Rejected),
        Err(nom::Err::Failure(_)) => Err(Halt::Rejected),
    }
}

/// `nom::bytes::streaming::tag` with a byte pattern, on a byte slice. The
/// input and the pattern are compared over the length of the shorter one. If
/// they differ there the input is rejected; else, if the input is the
/// shorter one, input is missing; else the pattern is split off the front.
#[verifier::external_body]
fn nom_tag<'a>(pattern: &[u8], input: &'a [u8]) -> (r: Result<(&'a [u8], &'a [u8]), Halt>)
    ensures
        match r {
            Ok((rest, found)) => input@.len() >= pattern@.len() && found@ == pattern@ && found@
                == input@.take(pattern@.len() as int) && rest@ == input@.skip(
                pattern@.len() as int,
            ),
            Err(Halt::Incomplete) => input@.len() < pattern@.len() && input@ == pattern@.take(
                input@.len() as int,
            ),
            Err(Halt::Rejected) => ({
                let common = shorter(input@.len() as int, pattern@.len() as int);
                input@.take(common) != pattern@.take(common)
            }),
        },
{
    match nom::bytes::streaming::tag::<&[u8], &[u8], nom::error::Error<&[u8]>>(pattern)(input) {
        Ok((rest, found)) => Ok((rest, found)),
        Err(nom::Err::Incomplete(_)) => Err(Halt::Incomplete),
        Err(nom::Err::Error(_)) => Err(Halt::Rejected),
        Err(nom::Err::Failure(_)) => Err(Halt::Rejected),
    }
}

/// `nom::bytes::streaming::take` with a count, on a byte slice: where the
/// slice holds that many bytes it is split behind them; else input is
/// missing.
#[verifier::external_body]
fn nom_take<'a>(count: usize, input: &'a [u8]) -> (r: Result<(&'a [u8], &'a [u8]), Halt>)
    ensures
        match r {
            Ok((rest, taken)) => input@.len() >= count && taken@ == input@.take(count as int)
                && rest@ == input@.skip(count as int),
            Err(halt) => input@.len() < count && halt is Incomplete,
        },
{
    match nom::bytes::streaming::take::<usize, &[u8], nom::error::Error<&[u8]>>(count)(input) {
        Ok((rest, taken)) => Ok((rest, taken)),
        Err(nom::Err::Incomplete(_)) => Err(Halt::Incomplete),
        Err(nom::Err::Error(_)) => Err(Halt::Rejected),
        Err(nom::Err::Failure(_)) => Err(Halt::Rejected),
    }
}

/// Reads the byte at `at`; `None` where the input ends before it.
pub(crate) fn read_u8(input: &[u8], at: usize) -> (r: Option<(usize, u8)>)
    requires
        at <= input@.len(),
    ensures
        match r {
            Some((end, value)) => at + 1 <= input@.len() && end == at + 1 && value
                == input@[at as int],
            None => input@.len() < at + 1,
        },
{
    let tail = slice_subrange(input, at, input.len());
    match nom_le_u8(tail) {
        Ok((rest, value)) => Some((input.len() - rest.len(), value)),
        Err(_) => None,
    }
}

/// Reads the 32-bit integer at `at`; `None` where the input ends before it
/// does.
pub(crate) fn read_u32(input: &[u8], at: usize) -> (r: Option<(usize, u32)>)
    requires
        at <= input@.len(),
    ensures
        match r {
            Some((end, value)) => at + 4 <= input@.len() && end == at + 4 && value == le_u32_at(
                input@,
                at as int,
            ),
            None => input@.len() < at + 4,
        },
{
    let tail = slice_subrange(input, at, input.len());
    match nom_le_u32(tail) {
        Ok((rest, value)) => Some((input.len() - rest.len(), value)),
        Err(_) => None,
    }
}

/// Reads the 64-bit integer at `at`; `None` where the input ends before it
/// does.
pub(crate) fn read_u64(input: &[u8], at: usize) -> (r: Option<(usize, u64)>)
    requires
        at <= input@.len(),
    ensures
        match r {
            Some((end, value)) => at + 8 <= input@.len() && end == at + 8 && value == le_u64_at(
                input@,
                at as int,
            ),
            None => input@.len() < at + 8,
        },
{
    let tail = slice_subrange(input, at, input.len());
    match nom_le_u64(tail) {
        Ok((rest, value)) => Some((input.len() - rest.len(), value)),
        Err(_) => None,
    }
}

/// Reads `n` 32-bit integers from `at` on; `None` where the input ends
/// before the last of them does.
pub(crate) fn read_u32s(input: &[u8], at: usize, n: u32) -> (r: Option<(usize, Vec<u32>)>)
    requires
        at <= input@.len(),
    ensures
        match r {
            Some((end, values)) => at + 4 * n <= input@.len() && end == at + 4 * n && values@
                == u32s_at(input@, at as int, n as nat),
            None => input@.len() < at + 4 * n,
        },
{
    let mut values: Vec<u32> = Vec::new();
    let mut pos = at;
    let mut i: u32 = 0;
    while i < n
        invariant
            i <= n,
            pos == at + 4 * i,
            pos <= input@.len(),
            values@ == u32s_at(input@, at as int, i as nat),
        decreases n - i,
    {
        match read_u32(input, pos) {
            Some((end, value)) => {
                values.push(value);
                pos = end;
            },
            None => {
                return None;
            },
        }
        i += 1;
    }
    Some((pos, values))
}

/// Reads `n` 64-bit integers from `at` on; `None` where the input ends
/// before the last of them does.
pub(crate) fn read_u64s(input: &[u8], at: usize, n: u32) -> (r: Option<(usize, Vec<u64>)>)
    requires
        at <= input@.len(),
    ensures
        match r {
            Some((end, values)) => at + 8 * n <= input@.len() && end == at + 8 * n && values@
                == u64s_at(input@, at as int, n as nat),
            None => input@.len() < at + 8 * n,
        },
{
    let mut values: Vec<u64> = Vec::new();
    let mut pos = at;
    let mut i: u32 = 0;
    while i < n
        invariant
            i <= n,
            pos == at + 8 * i,
            pos <= input@.len(),
            values@ == u64s_at(input@, at as int, i as nat),
        decreases n - i,
    {
        match read_u64(input, pos) {
            Some((end, value)) => {
                values.push(value);
                pos = end;
            },
            None => {
                return None;
            },
        }
        i += 1;
    }
    Some((pos, values))
}

/// Reads `count` bytes from `at` on; `None` where the input ends before
/// they do.
pub(crate) fn read_bytes(input: &[u8], at: usize, count: usize) -> (r: Option<(usize, Vec<u8>)>)
    requires
        at <= input@.len(),
    ensures
        match r {
            Some((end, bytes)) => at + count <= input@.len() && end == at + count && bytes@
                == input@.subrange(at as int, at + count),
            None => input@.len() < at + count,
        },
{
    let tail = slice_subrange(input, at, input.len());
    match nom_take(count, tail) {
        Ok((rest, taken)) => {
            Some((input.len() - rest.len(), slice_to_vec(taken)))
        },
        Err(_) => None,
    }
}

/// Passes over `count` bytes from `at` on and returns the position behind
/// them; `None` where the input ends before they do.
pub(crate) fn skip(input: &[u8], at: usize, count: u64) -> (r: Option<usize>)
    requires
        at <= input@.len(),
    ensures
        match r {
            Some(end) => at + count <= input@.len() && end == at + count,
            None => input@.len() < at + count,
        },
{
    let len = input.len();
    if count > usize::MAX as u64 {
        return None;
    }
    let tail = slice_subrange(input, at, len);
    match nom_take(count as usize, tail) {
        Ok((rest, _)) => Some(len - rest.len()),
        Err(_) => None,
    }
}

/// Holds the bytes at `at` against the signature and returns the position
/// behind it.
pub(crate) fn expect_signature(input: &[u8], at: usize, field: Field) -> (r: Result<
    usize,
    DecodeError,
>)
    requires
        at <= input@.len(),
    ensures
        match r {
            Ok(end) => signature_at(input@, at as int, field) == Ok::<int, Fault>(end as int),
            Err(e) => signature_at(input@, at as int, field) == Err::<int, Fault>(e@),
        },
{
    let pattern: [u8; 6] = [0x43, 0x4f, 0x52, 0x54, 0x45, 0x58];
    let tail = slice_subrange(input, at, input.len());
    let ghost seen = shorter(input@.len() - at, 6);
    assert(tail@.take(seen) == input@.subrange(at as int, at + seen));
    assert(signature().take(6) == signature());
    match nom_tag(pattern.as_slice(), tail) {
        Ok((rest, _)) => Ok(input.len() - rest.len()),
        Err(Halt::Incomplete) => Err(DecodeError::Incomplete),
        Err(Halt::Rejected) => Err(DecodeError::Malformed { offset: at, field }),
    }
}

} // verus!
