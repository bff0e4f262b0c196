//! The interface every codec offers, and the lengths a decode reports.
use crate::error::ChdError;
use crate::header::CodecType;
use core::ops::Add;
use vstd::prelude::*;
use vstd::std_specs::ops::AddSpec;
use vstd::std_specs::ops::AddSpecImpl;

pub mod endian;
pub mod flac;
pub mod frame;
pub mod lzma;
pub mod zlib;

verus! {

/// The number of bytes one decode wrote to its output buffer and read from
/// its input buffer.
#[derive(Clone, Copy, Debug, PartialEq, Eq, Structural)]
pub struct DecompressLength {
    pub total_out: usize,
    pub total_in: usize,
}

impl DecompressLength {
    pub fn new(total_out: usize, total_in: usize) -> (r: Self)
        ensures
            r == (DecompressLength { total_out, total_in }),
    {
        DecompressLength { total_out, total_in }
    }

    /// Bytes written to the output buffer.
    pub fn total_out(&self) -> (r: usize)
        ensures
            r == self.total_out,
    {
        self.total_out
    }

    /// Bytes read from the input buffer.
    pub fn total_in(&self) -> (r: usize)
        ensures
            r == self.total_in,
    {
        self.total_in
    }
}

impl Default for DecompressLength {
    fn default() -> (r: Self)
        ensures
            r == (DecompressLength { total_out: 0, total_in: 0 }),
    {
        DecompressLength { total_out: 0, total_in: 0 }
    }
}

impl AddSpecImpl for DecompressLength {
    open spec fn obeys_add_spec() -> bool {
        true
    }

    open spec fn add_req(self, rhs: DecompressLength) -> bool {
        &&& self.total_out + rhs.total_out <= usize::MAX
        &&& self.total_in + rhs.total_in <= usize::MAX
    }

    open spec fn add_spec(self, rhs: DecompressLength) -> DecompressLength {
        DecompressLength {
            total_out: (self.total_out + rhs.total_out) as usize,
            total_in: (self.total_in + rhs.total_in) as usize,
        }
    }
}

/// Lengths add field by field, so that a codec that runs several decodes in
/// a row can report their sum.
impl Add for DecompressLength {
    type Output = DecompressLength;

    fn add(self, rhs: DecompressLength) -> (r: DecompressLength) {
        DecompressLength {
            total_out: self.total_out + rhs.total_out,
            total_in: self.total_in + rhs.total_in,
        }
    }
}

/// Adding lengths is associative.
pub proof fn lemma_add_associative(a: DecompressLength, b: DecompressLength, c: DecompressLength)
    requires
        a.total_out + b.total_out + c.total_out <= usize::MAX,
        a.total_in + b.total_in + c.total_in <= usize::MAX,
    ensures
        AddSpec::add_spec(AddSpec::add_spec(a, b), c) == AddSpec::add_spec(
            a,
            AddSpec::add_spec(b, c),
        ),
{
}

/// What a codec does with one hunk.
pub trait InternalCodec: Sized {
    /// Whether a codec of this kind can be built for hunks of `hunk_size`
    /// bytes.
    spec fn accepts(hunk_size: u32) -> bool;

    /// What decoding `input` into a buffer that holds `output` yields: the
    /// bytes of the buffer afterwards and the lengths reported, or `None`
    /// where the decode fails.
    spec fn decoded(&self, input: Seq<u8>, output: Seq<u8>) -> Option<(Seq<u8>, DecompressLength)>;

    /// Whether a successful decode writes every byte of a buffer of `len`
    /// bytes.
    spec fn fills(&self, len: nat) -> bool;

    /// A successful decode leaves the buffer at its length and reports no
    /// more bytes read than the input holds, and no more written than the
    /// buffer holds.
    proof fn lemma_decoded_bounds(&self, input: Seq<u8>, output: Seq<u8>)
        requires
            input.len() <= usize::MAX,
            output.len() <= usize::MAX,
        ensures
            self.decoded(input, output) matches Some((bytes, lengths)) ==> {
                &&& bytes.len() == output.len()
                &&& lengths.total_in <= input.len()
                &&& lengths.total_out <= output.len()
            },
    ;

    /// Where the codec fills buffers of the length of `output`, a
    /// successful decode reports the whole buffer as written, and what it
    /// leaves in the buffer does not depend on what the buffer held: a
    /// buffer `other` of the same length ends up the same.
    proof fn lemma_exact_fill(&self, input: Seq<u8>, output: Seq<u8>, other: Seq<u8>)
        requires
            self.fills(output.len()),
            input.len() <= usize::MAX,
            other.len() == output.len() <= usize::MAX,
        ensures
            self.decoded(input, output) matches Some((bytes, lengths)) ==> {
                &&& lengths.total_out == output.len()
                &&& self.decoded(input, other) == Some((bytes, lengths))
            },
            self.decoded(input, output) is None ==> self.decoded(input, other) is None,
    ;

    /// Whether decoding loses information.
    fn is_lossy(&self) -> (lossy: bool);

    /// Builds a codec for hunks of `hunk_size` uncompressed bytes.
    fn new(hunk_size: u32) -> (r: Result<Self, ChdError>)
        ensures
            r is Ok <==> Self::accepts(hunk_size),
            r matches Err(e) ==> e == ChdError::CodecError,
    ;

    /// Decodes as much of `input` as it takes to fill `output`.
    ///
    /// The outcome depends on the two buffers alone; no earlier call on the
    /// same instance changes it. Where the codec fills buffers of the
    /// length of `output`, a successful decode reports all of `output` as
    /// written. On failure the contents of `output` are unspecified.
    fn decompress(&mut self, input: &[u8], output: &mut [u8]) -> (r: Result<
        DecompressLength,
        ChdError,
    >)
        ensures
            forall|i: Seq<u8>, o: Seq<u8>| #[trigger]
                final(self).decoded(i, o) == old(self).decoded(i, o),
            final(output)@.len() == old(output)@.len(),
            old(self).fills(old(output)@.len()) ==> (r matches Ok(lengths) ==> lengths.total_out
                == old(output)@.len()),
            match old(self).decoded(input@, old(output)@) {
                Some((bytes, lengths)) => {
                    &&& r == Ok::<DecompressLength, ChdError>(lengths)
                    &&& final(output)@ == bytes
                    &&& lengths.total_in <= input@.len()
                    &&& lengths.total_out <= bytes.len()
                },
                None => r == Err::<DecompressLength, ChdError>(ChdError::DecompressionError),
            },
    ;
}

/// Names the on-disk encoding a codec decodes.
pub trait CompressionCodecType {
    fn codec_type(&self) -> (t: CodecType);
}

/// A codec that can stand for a hunk's compression in an image.
pub trait CompressionCodec: InternalCodec + CompressionCodecType {
}

} // verus!
