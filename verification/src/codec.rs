//! Fixed-width integers as stored bytes: eight bytes, big-endian, signed
//! values by their two's-complement bit pattern.

use vstd::prelude::*;
use byteorder::{BigEndian, ByteOrder};
use crate::error::Error;

verus! {

/// Width in bytes of a stored integer.
pub const INT_WIDTH: usize = 8;

/// The integer that the first eight bytes of `s` spell, most significant
/// byte first.
pub open spec fn be_u64(s: Seq<u8>) -> u64
    recommends
        s.len() >= 8,
{
    (s[0] as u64) << 56 | (s[1] as u64) << 48 | (s[2] as u64) << 40 | (s[3] as u64) << 32
        | (s[4] as u64) << 24 | (s[5] as u64) << 16 | (s[6] as u64) << 8 | (s[7] as u64)
}

/// The eight bytes that spell `n`, most significant byte first.
pub open spec fn be_bytes(n: u64) -> Seq<u8> {
    seq![
        (n >> 56) as u8,
        (n >> 48) as u8,
        (n >> 40) as u8,
        (n >> 32) as u8,
        (n >> 24) as u8,
        (n >> 16) as u8,
        (n >> 8) as u8,
        n as u8,
    ]
}

/// The signed reading of a bit pattern.
pub open spec fn to_signed(n: u64) -> i64 {
    n as i64
}

/// The bit pattern of a signed integer.
pub open spec fn to_unsigned(n: i64) -> u64 {
    n as u64
}

/// What decoding a stored value as an unsigned integer gives.
pub open spec fn decoded_u64(value: Seq<u8>) -> Result<u64, Error> {
    if value.len() == 8 {
        Ok(be_u64(value))
    } else {
        Err(Error::WrongLength { expected: 8, got: value.len() as usize })
    }
}

/// What decoding a stored value as a signed integer gives.
pub open spec fn decoded_i64(value: Seq<u8>) -> Result<i64, Error> {
    match decoded_u64(value) {
        Ok(n) => Ok(to_signed(n)),
        Err(e) => Err(e),
    }
}

/// `byteorder::BigEndian::read_u64`: reads the first eight bytes of `buf` as
/// a big-endian integer. It panics on a shorter buffer, which the
/// precondition rules out.
#[verifier::external_body]
fn read_u64_be(buf: &[u8]) -> (n: u64)
    requires
        buf@.len() >= 8,
    ensures
        n == be_u64(buf@),
{
    BigEndian::read_u64(buf)
}

/// `byteorder::BigEndian::write_u64`: overwrites the first eight bytes of
/// `buf` with the big-endian form of `n` and leaves the rest as it was. It
/// panics on a shorter buffer, which the precondition rules out.
#[verifier::external_body]
fn write_u64_be(buf: &mut Vec<u8>, n: u64)
    requires
        old(buf)@.len() >= 8,
    ensures
        final(buf)@.len() == old(buf)@.len(),
        final(buf)@.subrange(0, 8) == be_bytes(n),
        final(buf)@.subrange(8, old(buf)@.len() as int) == old(buf)@.subrange(
            8,
            old(buf)@.len() as int,
        ),
{
    BigEndian::write_u64(buf.as_mut_slice(), n)
}

/// The stored form of an unsigned integer.
pub fn encode_u64(n: u64) -> (bytes: Vec<u8>)
    ensures
        bytes@ == be_bytes(n),
{
    let mut value: Vec<u8> = vec![0u8; 8];
    write_u64_be(&mut value, n);
    assert(value@ =~= value@.subrange(0, 8));
    value
}

/// The stored form of a signed integer: that of its bit pattern.
pub fn encode_i64(n: i64) -> (bytes: Vec<u8>)
    ensures
        bytes@ == be_bytes(to_unsigned(n)),
{
    encode_u64(n as u64)
}

/// Reads a stored value as an unsigned integer. A value of any width but
/// eight bytes is refused, and the error tells the width that was found.
pub fn decode_u64(value: &[u8]) -> (r: Result<u64, Error>)
    ensures
        r == decoded_u64(value@),
{
    if value.len() != INT_WIDTH {
        return Err(Error::WrongLength { expected: INT_WIDTH, got: value.len() });
    }
    Ok(read_u64_be(value))
}

/// Reads a stored value as a signed integer, under the same conditions as
/// [`decode_u64`].
pub fn decode_i64(value: &[u8]) -> (r: Result<i64, Error>)
    ensures
        r == decoded_i64(value@),
{
    match decode_u64(value) {
        Ok(n) => Ok(n as i64),
        Err(e) => Err(e),
    }
}

/// Decoding what was encoded gives the integer back.
pub proof fn lemma_u64_round_trip(n: u64)
    ensures
        be_bytes(n).len() == 8,
        decoded_u64(be_bytes(n)) == Ok::<u64, Error>(n),
{
    let s = be_bytes(n);
    assert(s.len() == 8);
    assert(((n >> 56) as u8 as u64) << 56 | ((n >> 48) as u8 as u64) << 48 | ((n >> 40) as u8
        as u64) << 40 | ((n >> 32) as u8 as u64) << 32 | ((n >> 24) as u8 as u64) << 24 | ((n
        >> 16) as u8 as u64) << 16 | ((n >> 8) as u8 as u64) << 8 | (n as u8 as u64) == n)
        by (bit_vector);
}

/// Encoding what was decoded gives the eight bytes back: no two stored
/// values spell the same integer.
pub proof fn lemma_bytes_round_trip(s: Seq<u8>)
    requires
        s.len() == 8,
    ensures
        be_bytes(be_u64(s)) == s,
{
    let (a, b, c, d, e, f, g, h) = (s[0], s[1], s[2], s[3], s[4], s[5], s[6], s[7]);
    let n = be_u64(s);
    assert(n == (a as u64) << 56 | (b as u64) << 48 | (c as u64) << 40 | (d as u64) << 32 | (
    e as u64) << 24 | (f as u64) << 16 | (g as u64) << 8 | (h as u64));
    assert(n == (a as u64) << 56 | (b as u64) << 48 | (c as u64) << 40 | (d as u64) << 32 | (
    e as u64) << 24 | (f as u64) << 16 | (g as u64) << 8 | (h as u64) ==> (n >> 56) as u8 == a
        && (n >> 48) as u8 == b && (n >> 40) as u8 == c && (n >> 32) as u8 == d && (n >> 24) as u8
        == e && (n >> 16) as u8 == f && (n >> 8) as u8 == g && n as u8 == h) by (bit_vector);
    assert(be_bytes(n) =~= s);
}

/// A signed integer written and read back is unchanged, and read back as
/// unsigned it is its bit pattern: minus one reads as the largest value.
pub proof fn lemma_i64_round_trip(n: i64)
    ensures
        decoded_i64(be_bytes(to_unsigned(n))) == Ok::<i64, Error>(n),
        decoded_u64(be_bytes(to_unsigned(n))) == Ok::<u64, Error>(to_unsigned(n)),
        to_unsigned(-1i64) == u64::MAX,
        to_signed(u64::MAX) == -1i64,
{
    lemma_u64_round_trip(to_unsigned(n));
    assert((n as u64) as i64 == n) by (bit_vector);
    assert((-1i64) as u64 == 0xffff_ffff_ffff_ffffu64) by (bit_vector);
    assert(0xffff_ffff_ffff_ffffu64 as i64 == -1i64) by (bit_vector);
}

} // verus!
