//! Seekable files behind a handle of a C file interface.
//!
//! The C interface offers a read, a seek and a close on a handle. The
//! library does not make these calls itself: it says which call stands for
//! a request, and the caller that owns the handle makes it.
use vstd::prelude::*;

verus! {

/// Seek from the start of the file.
pub const SEEK_SET: i32 = 0;

/// Seek from the current position.
pub const SEEK_CUR: i32 = 1;

/// Seek from the end of the file.
pub const SEEK_END: i32 = 2;

/// Where a seek goes to: a number of bytes from the start of the file, from
/// its end, or from the current position.
#[derive(Clone, Copy, Debug, PartialEq, Eq, Structural)]
pub enum SeekPos {
    Start(u64),
    End(i64),
    Current(i64),
}

/// The arguments of a seek on the C interface.
#[derive(Clone, Copy, Debug, PartialEq, Eq, Structural)]
pub struct SeekCall {
    /// The offset, as the unsigned size the interface takes. An offset
    /// backwards is passed in two's complement.
    pub offset: u64,
    /// One of `SEEK_SET`, `SEEK_CUR` and `SEEK_END`.
    pub whence: i32,
}

/// A signed offset as the unsigned size the C interface takes: itself, or
/// its two's complement where it is negative.
pub open spec fn offset_bits(off: i64) -> int {
    if off >= 0 {
        off as int
    } else {
        off + 0x1_0000_0000_0000_0000
    }
}

/// The seek on the C interface that goes to `pos`.
pub open spec fn seek_call_of(pos: SeekPos) -> SeekCall {
    match pos {
        SeekPos::Start(off) => SeekCall { offset: off, whence: SEEK_SET },
        SeekPos::End(off) => SeekCall { offset: offset_bits(off) as u64, whence: SEEK_END },
        SeekPos::Current(off) => SeekCall { offset: offset_bits(off) as u64, whence: SEEK_CUR },
    }
}

/// A file of the C interface, known by the address of its handle.
#[derive(Debug, PartialEq, Eq, Structural)]
pub struct CoreFile {
    pub handle: usize,
}

impl CoreFile {
    /// The file behind the handle at address `handle`.
    pub fn new(handle: usize) -> (file: Self)
        ensures
            file.handle == handle,
    {
        CoreFile { handle }
    }

    /// The address of the handle.
    pub fn handle(&self) -> (handle: usize)
        ensures
            handle == self.handle,
    {
        self.handle
    }

    /// The seek to make on the handle to go to `pos`.
    pub fn seek(&self, pos: SeekPos) -> (call: SeekCall)
        ensures
            call == seek_call_of(pos),
    {
        match pos {
            SeekPos::Start(off) => SeekCall { offset: off, whence: SEEK_SET },
            SeekPos::End(off) => SeekCall { offset: unsigned(off), whence: SEEK_END },
            SeekPos::Current(off) => SeekCall { offset: unsigned(off), whence: SEEK_CUR },
        }
    }
}

/// The bits of a signed offset as an unsigned number.
fn unsigned(off: i64) -> (bits: u64)
    ensures
        bits == offset_bits(off),
{
    let bits: u64 = #[verifier::truncate] (off as u64);
    assert(off >= 0 ==> (off as u64) == off) by (bit_vector);
    assert(off < 0 ==> (off as u64) == off + 0x1_0000_0000_0000_0000) by (bit_vector);
    bits
}

} // verus!
