//! The errors a codec reports.
use vstd::prelude::*;

verus! {

/// Why a codec could not be built or a hunk could not be decoded.
#[derive(Clone, Copy, Debug, PartialEq, Eq, Structural)]
pub enum ChdError {
    /// The hunk size does not fit the codec's frame geometry.
    CodecError,
    /// The compressed stream is malformed, truncated, or does not fill the
    /// output buffer.
    DecompressionError,
}

} // verus!
