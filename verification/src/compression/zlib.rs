//! Raw deflate hunks.
use crate::compression::CompressionCodec;
use crate::compression::CompressionCodecType;
use crate::compression::DecompressLength;
use crate::compression::InternalCodec;
use crate::error::ChdError;
use crate::header::CodecType;
use flate2::Decompress;
use flate2::FlushDecompress;
use flate2::Status;
use vstd::prelude::*;

verus! {

/// How a run of the inflater ended.
#[derive(Clone, Copy, Debug, PartialEq, Eq, Structural)]
pub enum InflateStatus {
    /// The inflater stopped before the end of the stream and can go on.
    Progress,
    /// The inflater could not go on: it ran out of input, or the stream
    /// holds more than the output buffer takes.
    BufError,
    /// The inflater reached the end of the stream.
    StreamEnd,
}

/// What a run of the inflater reports.
#[derive(Clone, Copy, Debug, PartialEq, Eq, Structural)]
pub struct Inflated {
    pub status: InflateStatus,
    /// Bytes written to the front of the output buffer.
    pub produced: usize,
    /// Bytes read from the front of the input buffer.
    pub consumed: usize,
}

/// A run of the inflater as a value: how it ended, the bytes it wrote and
/// the number of bytes it read.
pub struct InflateRun {
    pub status: InflateStatus,
    pub bytes: Seq<u8>,
    pub consumed: nat,
}

/// What one run of the inflater of `flate2` makes of a raw deflate stream
/// when all of the stream is at hand and the output buffer has room for
/// `len` bytes, or `None` where it finds the stream corrupt.
pub uninterp spec fn inflate_stream(input: Seq<u8>, len: nat) -> Option<InflateRun>;

/// Runs `Decompress::decompress` of `flate2` once, on a fresh inflater for
/// raw deflate data, with `FlushDecompress::Finish`, and reads the
/// inflater's `total_out` and `total_in` afterwards.
///
/// The contract claims that the run is a function of the input and the
/// length of the output buffer, named by `inflate_stream`; that the bytes
/// produced stand at the front of `output`, no more than it can hold; and
/// that the result is `None` exactly where the inflater returns an error.
#[verifier::external_body]
fn inflate(input: &[u8], output: &mut [u8]) -> (r: Option<Inflated>)
    ensures
        final(output)@.len() == old(output)@.len(),
        match inflate_stream(input@, old(output)@.len()) {
            Some(run) => {
                &&& r matches Some(x)
                &&& x.status == run.status
                &&& x.produced == run.bytes.len()
                &&& x.consumed == run.consumed
                &&& x.produced <= final(output)@.len()
                &&& final(output)@.subrange(0, x.produced as int) == run.bytes
            },
            None => r is None,
        },
{
    let mut engine = Decompress::new(false);
    let status = match engine.decompress(input, output, FlushDecompress::Finish).ok()? {
        Status::Ok => InflateStatus::Progress,
        Status::BufError => InflateStatus::BufError,
        Status::StreamEnd => InflateStatus::StreamEnd,
    };
    let (produced, consumed) = (engine.total_out() as usize, engine.total_in() as usize);
    Some(Inflated { status, produced, consumed })
}

/// What a decode reports once the inflater has returned `run`: success
/// where the inflater went on to the end, filled the buffer and stayed
/// within the input.
pub open spec fn inflate_outcome(run: Option<InflateRun>, input_len: nat, len: nat) -> Option<
    (Seq<u8>, DecompressLength),
> {
    match run {
        Some(run) => if run.status != InflateStatus::BufError && run.bytes.len() == len
            && run.consumed <= input_len {
            Some(
                (
                    run.bytes,
                    DecompressLength { total_out: len as usize, total_in: run.consumed as usize },
                ),
            )
        } else {
            None
        },
        None => None,
    }
}

/// What decoding a raw deflate stream yields for an output buffer of `len`
/// bytes: the bytes that fill the buffer and the lengths reported.
pub open spec fn zlib_decoded(input: Seq<u8>, len: nat) -> Option<(Seq<u8>, DecompressLength)> {
    inflate_outcome(inflate_stream(input, len), input.len(), len)
}

/// Codec for deflate (zlib) compressed hunks.
pub struct ZlibCodec {}

impl ZlibCodec {
    /// The lengths to report after a run of the inflater on an input of
    /// `input_len` bytes and an output of `output_len` bytes, or the error
    /// where the run did not fill the output.
    pub fn lengths(run: Option<Inflated>, input_len: usize, output_len: usize) -> (r: Result<
        DecompressLength,
        ChdError,
    >)
        ensures
            r == match run {
                Some(x) if x.status != InflateStatus::BufError && x.produced == output_len
                    && x.consumed <= input_len => Ok::<DecompressLength, ChdError>(
                    DecompressLength { total_out: output_len, total_in: x.consumed },
                ),
                _ => Err::<DecompressLength, ChdError>(ChdError::DecompressionError),
            },
    {
        match run {
            Some(x) => {
                let stuck = match x.status {
                    InflateStatus::BufError => true,
                    _ => false,
                };
                if stuck || x.produced != output_len || x.consumed > input_len {
                    Err(ChdError::DecompressionError)
                } else {
                    Ok(DecompressLength::new(output_len, x.consumed))
                }
            },
            None => Err(ChdError::DecompressionError),
        }
    }
}

impl CompressionCodec for ZlibCodec {

}

impl CompressionCodecType for ZlibCodec {
    fn codec_type(&self) -> (t: CodecType)
        ensures
            t == CodecType::ZlibV5,
    {
        CodecType::ZlibV5
    }
}

impl InternalCodec for ZlibCodec {
    /// A codec can be built for every hunk size.
    open spec fn accepts(hunk_size: u32) -> bool {
        true
    }

    open spec fn decoded(&self, input: Seq<u8>, output: Seq<u8>) -> Option<
        (Seq<u8>, DecompressLength),
    > {
        zlib_decoded(input, output.len())
    }

    /// Every buffer is filled.
    open spec fn fills(&self, len: nat) -> bool {
        true
    }

    proof fn lemma_decoded_bounds(&self, input: Seq<u8>, output: Seq<u8>) {
    }

    proof fn lemma_exact_fill(&self, input: Seq<u8>, output: Seq<u8>, other: Seq<u8>) {
    }

    fn is_lossy(&self) -> (lossy: bool)
        ensures
            !lossy,
    {
        false
    }

    fn new(hunk_size: u32) -> (r: Result<Self, ChdError>) {
        Ok(ZlibCodec {  })
    }

    fn decompress(&mut self, input: &[u8], output: &mut [u8]) -> (r: Result<
        DecompressLength,
        ChdError,
    >) {
        let len = output.len();
        let run = inflate(input, output);
        proof {
            if let Some(x) = run {
                if x.produced == len {
                    assert(output@.subrange(0, x.produced as int) == output@);
                }
            }
        }
        Self::lengths(run, input.len(), len)
    }
}

/// Every instance decodes alike: what a decode yields depends on the two
/// buffers alone, not on the instance or on what it decoded before.
pub proof fn lemma_zlib_instances_decode_alike(
    a: ZlibCodec,
    b: ZlibCodec,
    input: Seq<u8>,
    output: Seq<u8>,
)
    ensures
        a.decoded(input, output) == b.decoded(input, output),
{
}

} // verus!
