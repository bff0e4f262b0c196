//! The byte order of 16-bit samples.
use vstd::prelude::*;

verus! {

/// The low byte of a 16-bit sample.
pub open spec fn i16_low(n: i16) -> u8 {
    (n as int % 256) as u8
}

/// The high byte of a 16-bit sample.
pub open spec fn i16_high(n: i16) -> u8 {
    ((n as int / 256) % 256) as u8
}

/// `s` with the two bytes of `n` at `at`, in the given byte order.
pub open spec fn put_i16(s: Seq<u8>, at: int, n: i16, big: bool) -> Seq<u8> {
    if big {
        s.update(at, i16_high(n)).update(at + 1, i16_low(n))
    } else {
        s.update(at, i16_low(n)).update(at + 1, i16_high(n))
    }
}

/// Calls `BigEndian::write_i16` of `byteorder` on the part of `buf` that
/// starts at `at`.
///
/// The contract claims that the two bytes at `at` become the high and the
/// low byte of `n`, in that order, and that no other byte changes. The
/// outside function panics on fewer than two bytes, hence the precondition.
#[verifier::external_body]
fn write_i16_be(buf: &mut [u8], at: usize, n: i16)
    requires
        at + 2 <= old(buf)@.len(),
    ensures
        final(buf)@ == put_i16(old(buf)@, at as int, n, true),
{
    <byteorder::BigEndian as byteorder::ByteOrder>::write_i16(&mut buf[at..], n)
}

/// Calls `LittleEndian::write_i16` of `byteorder` on the part of `buf` that
/// starts at `at`.
///
/// The contract claims that the two bytes at `at` become the low and the
/// high byte of `n`, in that order, and that no other byte changes. The
/// outside function panics on fewer than two bytes, hence the precondition.
#[verifier::external_body]
fn write_i16_le(buf: &mut [u8], at: usize, n: i16)
    requires
        at + 2 <= old(buf)@.len(),
    ensures
        final(buf)@ == put_i16(old(buf)@, at as int, n, false),
{
    <byteorder::LittleEndian as byteorder::ByteOrder>::write_i16(&mut buf[at..], n)
}

/// The order in which the two bytes of a sample are written.
pub trait ByteOrder {
    /// Whether the high byte comes first.
    spec fn big_endian() -> bool;

    /// Writes `n` to the two bytes of `buf` at `at`.
    fn write_i16(buf: &mut [u8], at: usize, n: i16)
        requires
            at + 2 <= old(buf)@.len(),
        ensures
            final(buf)@ == put_i16(old(buf)@, at as int, n, Self::big_endian()),
    ;
}

/// High byte first.
pub struct BigEndian;

/// Low byte first.
pub struct LittleEndian;

impl ByteOrder for BigEndian {
    open spec fn big_endian() -> bool {
        true
    }

    fn write_i16(buf: &mut [u8], at: usize, n: i16) {
        write_i16_be(buf, at, n)
    }
}

impl ByteOrder for LittleEndian {
    open spec fn big_endian() -> bool {
        false
    }

    fn write_i16(buf: &mut [u8], at: usize, n: i16) {
        write_i16_le(buf, at, n)
    }
}

} // verus!
