//! Tags from the image header that the codecs report.
use vstd::prelude::*;

verus! {

/// The on-disk encoding of a hunk.
#[derive(Clone, Copy, Debug, PartialEq, Eq, Structural)]
pub enum CodecType {
    /// Raw deflate stream.
    ZlibV5,
    /// Headerless LZMA stream.
    LzmaV5,
    /// FLAC frames behind a byte-order marker.
    FlacV5,
    /// CD sectors: FLAC audio followed by deflated subcode.
    FlacCdV5,
}

} // verus!
