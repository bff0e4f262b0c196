//! FLAC hunks.
//!
//! A hunk holds bare FLAC frames, without a stream header. The frames are
//! decoded one after the other and their samples are written out as
//! interleaved 16-bit PCM until the output buffer is full.
use crate::arith::lemma_multiples_fit;
use crate::cdrom::cd_frames;
use crate::cdrom::reassemble;
use crate::cdrom::reassembled;
use crate::cdrom::sectors_len;
use crate::cdrom::subcodes_len;
use crate::cdrom::CD_FRAME_SIZE;
use crate::cdrom::CD_MAX_SECTOR_DATA;
use crate::cdrom::CD_MAX_SUBCODE_DATA;
use crate::compression::endian::i16_high;
use crate::compression::endian::i16_low;
use crate::compression::endian::BigEndian;
use crate::compression::endian::ByteOrder;
use crate::compression::endian::LittleEndian;
use crate::compression::frame::flac_frame;
use crate::compression::frame::read_frame;
use crate::compression::frame::sample_high;
use crate::compression::frame::sample_low;
use crate::compression::frame::FlacFrame;
use crate::compression::frame::FrameView;
use crate::compression::zlib::zlib_decoded;
use crate::compression::zlib::ZlibCodec;
use crate::compression::CompressionCodec;
use crate::compression::CompressionCodecType;
use crate::compression::DecompressLength;
use crate::compression::InternalCodec;
use crate::error::ChdError;
use crate::header::CodecType;
use std::marker::PhantomData;
use vstd::arithmetic::div_mod::lemma_fundamental_div_mod_converse;
use vstd::prelude::*;
use vstd::slice::slice_subrange;

verus! {

/// The number of instants that a buffer of `len` bytes holds, at two bytes
/// a sample.
pub open spec fn sample_len(len: nat, channels: nat) -> nat {
    len / (channels * 2)
}

/// Whether frame `f` can be written to a buffer of `len` bytes that holds
/// `written` instants already: it has the channels asked for, is complete,
/// and does not go beyond the instants the buffer holds.
pub open spec fn frame_fits(f: FrameView, len: nat, written: nat, channels: nat) -> bool {
    &&& channels > 0
    &&& f.channels == channels
    &&& f.complete()
    &&& written + f.block_size <= sample_len(len, channels)
}

/// The buffer `out` after frame `f` was written behind the `written`
/// instants it holds, or `None` where the frame does not fit.
pub open spec fn frame_placed(
    f: FrameView,
    out: Seq<u8>,
    written: nat,
    channels: nat,
    big: bool,
) -> Option<Seq<u8>> {
    if frame_fits(f, out.len(), written, channels) {
        Some(
            out.subrange(0, (written * channels * 2) as int) + f.bytes(big) + out.subrange(
                ((written + f.block_size) * channels * 2) as int,
                out.len() as int,
            ),
        )
    } else {
        None
    }
}

/// `rest` with `prefix` put in front of its bytes.
pub open spec fn prepend(prefix: Seq<u8>, rest: Option<(Seq<u8>, nat)>) -> Option<(Seq<u8>, nat)> {
    match rest {
        Some((bytes, end)) => Some((prefix + bytes, end)),
        None => None,
    }
}

/// The frames of `input` from `pos` on that make up exactly `instants`
/// instants, written as interleaved 16-bit PCM, and the offset of the first
/// byte after the last of them.
///
/// `None` where a frame cannot be read, does not end further on within the
/// input, does not have `channels` channels, lacks samples, or goes beyond
/// the instants asked for.
pub open spec fn flac_frames(
    input: Seq<u8>,
    pos: nat,
    instants: nat,
    channels: nat,
    big: bool,
) -> Option<(Seq<u8>, nat)>
    decreases input.len() - pos,
{
    if instants == 0 {
        Some((Seq::empty(), pos))
    } else {
        match flac_frame(input, pos) {
            Some(f) => if f.ends_within(pos, input.len()) && f.channels == channels
                && f.complete() && f.block_size <= instants {
                prepend(
                    f.bytes(big),
                    flac_frames(input, f.end, (instants - f.block_size) as nat, channels, big),
                )
            } else {
                None
            },
            None => None,
        }
    }
}

/// What decoding FLAC frames into a buffer that holds `out` yields: the
/// buffer afterwards and the lengths reported.
///
/// The frames fill the instants that the buffer holds; bytes behind the
/// last whole instant stay as they are. The bytes read are those up to the
/// end of the last frame.
pub open spec fn flac_decoded(input: Seq<u8>, out: Seq<u8>, channels: nat, big: bool) -> Option<
    (Seq<u8>, DecompressLength),
> {
    if channels == 0 {
        None
    } else {
        match flac_frames(input, 0, sample_len(out.len(), channels), channels, big) {
            Some((bytes, end)) => Some(
                (
                    bytes + out.subrange(bytes.len() as int, out.len() as int),
                    DecompressLength { total_out: bytes.len() as usize, total_in: end as usize },
                ),
            ),
            None => None,
        }
    }
}

/// Generic block decoder for FLAC.
///
/// `T` is the byte order of the samples written, `CHANNELS` the number of
/// channels of the audio.
pub struct FlacCodec<T: ByteOrder, const CHANNELS: usize> {
    buffer: Vec<i32>,
    _order: PhantomData<T>,
}

/// Cutting a sample down to 16 bits keeps its two low bytes.
proof fn lemma_sample_bytes(s: i32)
    ensures
        i16_low(s as i16) == sample_low(s),
        i16_high(s as i16) == sample_high(s),
{
    assert((s as i16) as int % 256 == s as int % 256) by (bit_vector);
    assert(((s as i16) as int / 256) % 256 == (s as int / 256) % 256) by (bit_vector);
}

impl<T: ByteOrder, const CHANNELS: usize> FlacCodec<T, CHANNELS> {
    /// The number of instants a buffer of `len` bytes holds.
    fn budget(len: usize) -> (r: usize)
        requires
            CHANNELS > 0,
        ensures
            r == sample_len(len as nat, CHANNELS as nat),
    {
        match CHANNELS.checked_mul(2) {
            Some(stride) => len / stride,
            None => {
                proof {
                    vstd::arithmetic::div_mod::lemma_basic_div(len as int, CHANNELS * 2);
                }
                0
            },
        }
    }

    /// Writes the samples of `frame` to `output` as interleaved 16-bit PCM,
    /// behind the `written` instants that `output` holds already, and
    /// returns the number of instants it holds then.
    ///
    /// Fails, with `output` unchanged, where the frame does not have
    /// `CHANNELS` channels, lacks samples, or holds more instants than
    /// `output` has room for.
    pub fn write_frame(frame: &FlacFrame, output: &mut [u8], written: usize) -> (r: Result<
        usize,
        ChdError,
    >)
        ensures
            final(output)@.len() == old(output)@.len(),
            match frame_placed(
                frame@,
                old(output)@,
                written as nat,
                CHANNELS as nat,
                T::big_endian(),
            ) {
                Some(bytes) => {
                    &&& r == Ok::<usize, ChdError>((written + frame.block_size) as usize)
                    &&& final(output)@ == bytes
                },
                None => {
                    &&& r == Err::<usize, ChdError>(ChdError::DecompressionError)
                    &&& final(output)@ == old(output)@
                },
            },
    {
        if CHANNELS == 0 || frame.channels as usize != CHANNELS {
            return Err(ChdError::DecompressionError);
        }
        assert(frame.channels * frame.block_size <= u64::MAX) by (nonlinear_arith)
            requires
                frame.channels <= u32::MAX,
                frame.block_size <= u32::MAX,
        ;
        let total: u64 = frame.channels as u64 * frame.block_size as u64;
        if frame.samples.len() as u64 != total {
            return Err(ChdError::DecompressionError);
        }
        let budget = Self::budget(output.len());
        if written > budget || frame.block_size as usize > budget - written {
            return Err(ChdError::DecompressionError);
        }
        let block_size = frame.block_size as usize;
        let ghost orig = output@;
        let ghost stride = CHANNELS * 2;
        let ghost base = written * stride;
        proof {
            lemma_multiples_fit((written + block_size) as nat, orig.len(), stride as nat);
            assert((written + block_size) * stride == base + block_size * stride)
                by (nonlinear_arith)
                requires
                    base == written * stride,
            ;
            assert(written * CHANNELS * 2 == base) by (nonlinear_arith)
                requires
                    base == written * (CHANNELS * 2),
            ;
            assert(0 <= base) by (nonlinear_arith)
                requires
                    base == written * stride,
                    stride >= 0,
            ;
            assert(0 <= block_size * stride) by (nonlinear_arith)
                requires
                    stride >= 0,
            ;
        }
        let mut at: usize = written * CHANNELS * 2;
        let mut g: usize = 0;
        while g < block_size
            invariant
                0 <= g <= block_size,
                block_size == frame.block_size,
                CHANNELS == frame.channels,
                CHANNELS > 0,
                stride == CHANNELS * 2,
                frame.samples@.len() == CHANNELS * block_size <= usize::MAX,
                0 <= base,
                base + block_size * stride <= orig.len() <= usize::MAX,
                output@.len() == orig.len(),
                at == base + g * stride,
                forall|k: int| 0 <= k < g * stride ==> output@[base + k] == frame@.byte(k, T::big_endian()),
                forall|j: int|
                    0 <= j < orig.len() && (j < base || j >= base + g * stride) ==> output@[j]
                        == orig[j],
            decreases block_size - g,
        {
            let mut c: usize = 0;
            proof {
                assert((g + 1) * stride == g * stride + stride) by (nonlinear_arith);
                assert((g + 1) * stride <= block_size * stride) by (nonlinear_arith)
                    requires
                        g + 1 <= block_size,
                        stride >= 0,
                ;
                assert(0 <= g * stride) by (nonlinear_arith)
                    requires
                        g >= 0,
                        stride >= 0,
                ;
            }
            while c < CHANNELS
                invariant
                    0 <= c <= CHANNELS,
                    0 <= g < block_size,
                    block_size == frame.block_size,
                    CHANNELS == frame.channels,
                    stride == CHANNELS * 2,
                    frame.samples@.len() == CHANNELS * block_size <= usize::MAX,
                    0 <= base,
                    0 <= g * stride,
                    (g + 1) * stride == g * stride + stride,
                    (g + 1) * stride <= block_size * stride,
                    base + block_size * stride <= orig.len() <= usize::MAX,
                    output@.len() == orig.len(),
                    at == base + g * stride + 2 * c,
                    forall|k: int|
                        0 <= k < g * stride + 2 * c ==> output@[base + k] == frame@.byte(
                            k,
                            T::big_endian(),
                        ),
                    forall|j: int|
                        0 <= j < orig.len() && (j < base || j >= base + g * stride + 2 * c)
                            ==> output@[j] == orig[j],
                decreases CHANNELS - c,
            {
                proof {
                    assert((c + 1) * block_size == c * block_size + block_size)
                        by (nonlinear_arith);
                    assert((c + 1) * block_size <= CHANNELS * block_size) by (nonlinear_arith)
                        requires
                            c + 1 <= CHANNELS,
                            block_size >= 0,
                    ;
                    assert(0 <= c * block_size) by (nonlinear_arith)
                        requires
                            c >= 0,
                            block_size >= 0,
                    ;
                }
                let sample: i32 = frame.samples[c * block_size + g];
                let n: i16 = #[verifier::truncate] (sample as i16);
                let ghost before = output@;
                T::write_i16(output, at, n);
                proof {
                    let slot = g * CHANNELS + c;
                    let k0 = g * stride + 2 * c;
                    assert(k0 == 2 * slot) by (nonlinear_arith)
                        requires
                            k0 == g * stride + 2 * c,
                            stride == CHANNELS * 2,
                            slot == g * CHANNELS + c,
                    ;
                    lemma_fundamental_div_mod_converse(slot as int, CHANNELS as int, g as int, c as int);
                    lemma_sample_bytes(sample);
                    assert(frame@.sample(c as int, g as int) == sample);
                    assert(frame@.byte(k0, T::big_endian()) == output@[base + k0]);
                    assert(frame@.byte(k0 + 1, T::big_endian()) == output@[base + k0 + 1]);
                    assert forall|k: int| 0 <= k < k0 + 2 implies output@[base + k] == frame@.byte(
                        k,
                        T::big_endian(),
                    ) by {
                        if k < k0 {
                            assert(before[base + k] == frame@.byte(k, T::big_endian()));
                        }
                    }
                }
                at += 2;
                c += 1;
            }
            g += 1;
        }
        proof {
            let placed = frame_placed(
                frame@,
                orig,
                written as nat,
                CHANNELS as nat,
                T::big_endian(),
            );
            assert(frame@.block_size * frame@.channels * 2 == block_size * stride)
                by (nonlinear_arith)
                requires
                    frame@.block_size == block_size,
                    frame@.channels == CHANNELS,
                    stride == CHANNELS * 2,
            ;
            assert((written + block_size) * CHANNELS * 2 == base + block_size * stride)
                by (nonlinear_arith)
                requires
                    base == written * stride,
                    stride == CHANNELS * 2,
            ;
            assert(output@ =~= placed->0);
        }
        Ok(written + block_size)
    }
}

impl<T: ByteOrder, const CHANNELS: usize> InternalCodec for FlacCodec<T, CHANNELS> {
    /// The hunk must hold a whole number of instants.
    open spec fn accepts(hunk_size: u32) -> bool {
        CHANNELS > 0 && hunk_size as int % (CHANNELS * 2) == 0
    }

    open spec fn decoded(&self, input: Seq<u8>, output: Seq<u8>) -> Option<
        (Seq<u8>, DecompressLength),
    > {
        flac_decoded(input, output, CHANNELS as nat, T::big_endian())
    }

    /// A buffer of whole instants is filled.
    open spec fn fills(&self, len: nat) -> bool {
        len % ((CHANNELS * 2) as nat) == 0
    }

    proof fn lemma_decoded_bounds(&self, input: Seq<u8>, output: Seq<u8>) {
        lemma_flac_decoded_fills(input, output, output, CHANNELS as nat, T::big_endian());
    }

    proof fn lemma_exact_fill(&self, input: Seq<u8>, output: Seq<u8>, other: Seq<u8>) {
        lemma_flac_decoded_fills(input, output, other, CHANNELS as nat, T::big_endian());
    }

    fn is_lossy(&self) -> (lossy: bool)
        ensures
            !lossy,
    {
        false
    }

    fn new(hunk_bytes: u32) -> (r: Result<Self, ChdError>) {
        if CHANNELS == 0 {
            return Err(ChdError::CodecError);
        }
        match CHANNELS.checked_mul(2) {
            Some(stride) => {
                if hunk_bytes as usize % stride != 0 {
                    return Err(ChdError::CodecError);
                }
            },
            None => {
                proof {
                    vstd::arithmetic::div_mod::lemma_small_mod(
                        hunk_bytes as nat,
                        (CHANNELS * 2) as nat,
                    );
                }
                if hunk_bytes != 0 {
                    return Err(ChdError::CodecError);
                }
            },
        }
        Ok(FlacCodec { buffer: Vec::new(), _order: PhantomData })
    }

    fn decompress(&mut self, input: &[u8], output: &mut [u8]) -> (r: Result<
        DecompressLength,
        ChdError,
    >) {
        if CHANNELS == 0 {
            return Err(ChdError::DecompressionError);
        }
        // Number of instants to write to the buffer.
        let sample_len = Self::budget(output.len());

        // Buffer to hold the samples of a frame. It goes to the frame reader
        // and comes back with each frame, so that one allocation serves all
        // frames and all calls.
        let mut block_buf: Vec<i32> = Vec::new();
        core::mem::swap(&mut self.buffer, &mut block_buf);

        let ghost orig = output@;
        let ghost stride = CHANNELS * 2;
        let ghost big = T::big_endian();
        let mut pos: usize = 0;
        let mut samples_written: usize = 0;
        proof {
            assert(samples_written * stride == 0);
            assert(output@.subrange(0, 0) =~= Seq::<u8>::empty());
            let all = flac_frames(input@, 0, sample_len as nat, CHANNELS as nat, big);
            assert(prepend(Seq::<u8>::empty(), all) == all) by {
                if let Some((bytes, end)) = all {
                    assert(Seq::<u8>::empty() + bytes =~= bytes);
                }
            }
        }
        while samples_written < sample_len
            invariant
                CHANNELS > 0,
                stride == CHANNELS * 2,
                big == T::big_endian(),
                sample_len == self::sample_len(orig.len(), CHANNELS as nat),
                samples_written <= sample_len,
                pos <= input@.len(),
                orig == old(output)@,
                output@.len() == orig.len() <= usize::MAX,
                0 <= samples_written * stride <= orig.len(),
                flac_frames(input@, 0, sample_len as nat, CHANNELS as nat, big) == prepend(
                    output@.subrange(0, samples_written * stride),
                    flac_frames(
                        input@,
                        pos as nat,
                        (sample_len - samples_written) as nat,
                        CHANNELS as nat,
                        big,
                    ),
                ),
                output@.subrange(samples_written * stride, orig.len() as int) == orig.subrange(
                    samples_written * stride,
                    orig.len() as int,
                ),
            decreases input@.len() - pos,
        {
            let ghost before = output@;
            let ghost done = before.subrange(0, samples_written * stride);
            match read_frame(input, pos, block_buf) {
                Some(frame) => {
                    if !frame.ends_within(pos, input.len()) {
                        self.buffer = frame.samples;
                        return Err(ChdError::DecompressionError);
                    }
                    match Self::write_frame(&frame, output, samples_written) {
                        Ok(written) => {
                            proof {
                                let f = frame@;
                                let rest = flac_frames(
                                    input@,
                                    f.end,
                                    (sample_len - written) as nat,
                                    CHANNELS as nat,
                                    big,
                                );
                                lemma_multiples_fit(written as nat, orig.len(), stride as nat);
                                assert(samples_written * CHANNELS * 2 == samples_written * stride)
                                    by (nonlinear_arith)
                                    requires
                                        stride == CHANNELS * 2,
                                ;
                                assert((samples_written + f.block_size) * CHANNELS * 2 == written
                                    * stride) by (nonlinear_arith)
                                    requires
                                        stride == CHANNELS * 2,
                                        written == samples_written + f.block_size,
                                ;
                                assert(f.block_size * f.channels * 2 == f.block_size * stride)
                                    by (nonlinear_arith)
                                    requires
                                        f.channels == CHANNELS,
                                        stride == CHANNELS * 2,
                                ;
                                assert(written * stride == samples_written * stride + f.block_size
                                    * stride) by (nonlinear_arith)
                                    requires
                                        written == samples_written + f.block_size,
                                ;
                                assert(0 <= samples_written * stride) by (nonlinear_arith)
                                    requires
                                        stride >= 0,
                                        samples_written >= 0,
                                ;
                                assert(0 <= f.block_size * stride) by (nonlinear_arith)
                                    requires
                                        stride >= 0,
                                ;
                                assert(output@.subrange(0, written * stride) =~= done + f.bytes(big));
                                assert(output@.subrange(written * stride, orig.len() as int)
                                    =~= before.subrange(written * stride, orig.len() as int));
                                assert(before.subrange(written * stride, orig.len() as int)
                                    =~= before.subrange(
                                    samples_written * stride,
                                    orig.len() as int,
                                ).subrange(f.block_size * stride, orig.len() - samples_written * stride));
                                assert(orig.subrange(written * stride, orig.len() as int)
                                    =~= orig.subrange(
                                    samples_written * stride,
                                    orig.len() as int,
                                ).subrange(f.block_size * stride, orig.len() - samples_written * stride));
                                if let Some((bytes, end)) = rest {
                                    assert(done + (f.bytes(big) + bytes) =~= (done + f.bytes(big))
                                        + bytes);
                                }
                            }
                            samples_written = written;
                        },
                        Err(e) => {
                            self.buffer = frame.samples;
                            return Err(e);
                        },
                    }
                    pos = frame.end;
                    block_buf = frame.samples;
                },
                None => {
                    // The frame reader keeps the buffer when it fails.
                    return Err(ChdError::DecompressionError);
                },
            }
        }
        self.buffer = block_buf;
        proof {
            lemma_multiples_fit(samples_written as nat, orig.len(), stride as nat);
            assert(samples_written * CHANNELS * 2 == samples_written * stride)
                by (nonlinear_arith)
                requires
                    stride == CHANNELS * 2,
            ;
            assert(0 <= samples_written * stride) by (nonlinear_arith)
                requires
                    stride >= 0,
                    samples_written >= 0,
            ;
            if orig.len() % (stride as nat) == 0 {
                vstd::arithmetic::div_mod::lemma_fundamental_div_mod(
                    orig.len() as int,
                    stride as int,
                );
                assert(stride * samples_written == samples_written * stride)
                    by (nonlinear_arith);
            }
            let done = output@.subrange(0, samples_written * stride);
            assert(done + Seq::<u8>::empty() =~= done);
            assert(done + orig.subrange(samples_written * stride, orig.len() as int) =~= output@);
        }
        Ok(DecompressLength::new(samples_written * CHANNELS * 2, pos))
    }
}

/// Every frame that `flac_frames` takes lies within the input and adds the
/// bytes of its instants, so the bytes are those of exactly `instants`
/// instants and the end lies within the input.
pub proof fn lemma_flac_frames_bounds(
    input: Seq<u8>,
    pos: nat,
    instants: nat,
    channels: nat,
    big: bool,
)
    requires
        pos <= input.len(),
    ensures
        flac_frames(input, pos, instants, channels, big) matches Some((bytes, end)) ==> {
            &&& bytes.len() == instants * channels * 2
            &&& pos <= end <= input.len()
        },
    decreases input.len() - pos,
{
    if instants > 0 {
        if let Some(f) = flac_frame(input, pos) {
            if f.ends_within(pos, input.len()) && f.channels == channels && f.complete()
                && f.block_size <= instants {
                let rest = (instants - f.block_size) as nat;
                lemma_flac_frames_bounds(input, f.end, rest, channels, big);
                assert(f.block_size * f.channels * 2 + rest * channels * 2 == instants * channels
                    * 2) by (nonlinear_arith)
                    requires
                        f.channels == channels,
                        rest == instants - f.block_size,
                ;
            }
        }
    }
}

/// A successful decode fills every whole instant of the buffer, whatever
/// the buffer held before, and reads no more than the input holds. Where
/// the length of the buffer is a multiple of the size of an instant, all of
/// it is filled and the bytes produced are as many as the buffer holds.
pub proof fn lemma_flac_decoded_fills(
    input: Seq<u8>,
    out: Seq<u8>,
    other: Seq<u8>,
    channels: nat,
    big: bool,
)
    requires
        other.len() == out.len() <= usize::MAX,
        input.len() <= usize::MAX,
    ensures
        flac_decoded(input, out, channels, big) is Some <==> flac_decoded(
            input,
            other,
            channels,
            big,
        ) is Some,
        flac_decoded(input, out, channels, big) matches Some((bytes, lengths)) ==> {
            &&& bytes.len() == out.len()
            &&& lengths.total_out == sample_len(out.len(), channels) * channels * 2
            &&& lengths.total_out <= out.len()
            &&& lengths.total_in <= input.len()
            &&& out.len() % (channels * 2) == 0 ==> lengths.total_out == out.len()
            &&& flac_decoded(input, other, channels, big) matches Some((alike, same))
            &&& same == lengths
            &&& alike.subrange(0, lengths.total_out as int) == bytes.subrange(
                0,
                lengths.total_out as int,
            )
            &&& out.len() % (channels * 2) == 0 ==> alike == bytes
        },
{
    if channels > 0 {
        let instants = sample_len(out.len(), channels);
        lemma_flac_frames_bounds(input, 0, instants, channels, big);
        lemma_multiples_fit(instants, out.len(), channels * 2);
        assert(instants * channels * 2 == instants * (channels * 2)) by (nonlinear_arith);
        if let Some((frames, end)) = flac_frames(input, 0, instants, channels, big) {
            let bytes = frames + out.subrange(frames.len() as int, out.len() as int);
            let alike = frames + other.subrange(frames.len() as int, out.len() as int);
            assert(alike.subrange(0, frames.len() as int) =~= bytes.subrange(
                0,
                frames.len() as int,
            ));
            if out.len() % (channels * 2) == 0 {
                vstd::arithmetic::div_mod::lemma_fundamental_div_mod(
                    out.len() as int,
                    (channels * 2) as int,
                );
                assert((channels * 2) * instants == instants * (channels * 2)) by (nonlinear_arith);
                assert(alike =~= bytes);
            }
        }
    }
}

/// Every instance decodes alike: what a decode yields depends on the two
/// buffers alone, not on the instance, its sample buffer or what it decoded
/// before.
pub proof fn lemma_flac_instances_decode_alike<T: ByteOrder, const CHANNELS: usize>(
    a: FlacCodec<T, CHANNELS>,
    b: FlacCodec<T, CHANNELS>,
    input: Seq<u8>,
    output: Seq<u8>,
)
    ensures
        a.decoded(input, output) == b.decoded(input, output),
{
}

/// The first byte of a hunk whose samples are written low byte first: `L`.
pub const MARKER_LITTLE_ENDIAN: u8 = 0x4c;

/// The first byte of a hunk whose samples are written high byte first: `B`.
pub const MARKER_BIG_ENDIAN: u8 = 0x42;

/// What decoding a hunk that starts with a byte-order marker yields: the
/// stereo frames behind the marker, written in the order the marker names.
/// The bytes read do not count the marker.
pub open spec fn raw_flac_decoded(input: Seq<u8>, out: Seq<u8>) -> Option<
    (Seq<u8>, DecompressLength),
> {
    if input.len() == 0 {
        None
    } else if input[0] == MARKER_LITTLE_ENDIAN {
        flac_decoded(input.subrange(1, input.len() as int), out, 2, false)
    } else if input[0] == MARKER_BIG_ENDIAN {
        flac_decoded(input.subrange(1, input.len() as int), out, 2, true)
    } else {
        None
    }
}

/// Codec for Raw FLAC (flac) compressed hunks.
///
/// The first byte of a hunk is `L` or `B` and tells the byte order of the
/// samples to write. The FLAC data is 2-channel 16-bit audio.
pub struct RawFlacCodec {
    be: FlacCodec<BigEndian, 2>,
    le: FlacCodec<LittleEndian, 2>,
}

impl CompressionCodec for RawFlacCodec {

}

impl CompressionCodecType for RawFlacCodec {
    fn codec_type(&self) -> (t: CodecType)
        ensures
            t == CodecType::FlacV5,
    {
        CodecType::FlacV5
    }
}

impl InternalCodec for RawFlacCodec {
    /// The hunk must hold a whole number of stereo instants.
    open spec fn accepts(hunk_size: u32) -> bool {
        hunk_size % 4 == 0
    }

    open spec fn decoded(&self, input: Seq<u8>, output: Seq<u8>) -> Option<
        (Seq<u8>, DecompressLength),
    > {
        raw_flac_decoded(input, output)
    }

    /// A buffer of whole stereo instants is filled.
    open spec fn fills(&self, len: nat) -> bool {
        len % 4 == 0
    }

    proof fn lemma_decoded_bounds(&self, input: Seq<u8>, output: Seq<u8>) {
        if input.len() > 0 {
            let frames = input.subrange(1, input.len() as int);
            lemma_flac_decoded_fills(frames, output, output, 2, input[0] == MARKER_BIG_ENDIAN);
        }
    }

    proof fn lemma_exact_fill(&self, input: Seq<u8>, output: Seq<u8>, other: Seq<u8>) {
        if input.len() > 0 {
            let frames = input.subrange(1, input.len() as int);
            lemma_flac_decoded_fills(frames, output, other, 2, input[0] == MARKER_BIG_ENDIAN);
        }
    }

    fn is_lossy(&self) -> (lossy: bool)
        ensures
            !lossy,
    {
        false
    }

    fn new(hunk_bytes: u32) -> (r: Result<Self, ChdError>) {
        let be = match FlacCodec::<BigEndian, 2>::new(hunk_bytes) {
            Ok(codec) => codec,
            Err(e) => {
                return Err(e);
            },
        };
        let le = match FlacCodec::<LittleEndian, 2>::new(hunk_bytes) {
            Ok(codec) => codec,
            Err(e) => {
                return Err(e);
            },
        };
        Ok(RawFlacCodec { be, le })
    }

    /// Decodes the frames behind the marker byte with the codec of the
    /// byte order that the marker names. A hunk without a marker, or with
    /// another first byte, is refused.
    fn decompress(&mut self, input: &[u8], output: &mut [u8]) -> (r: Result<
        DecompressLength,
        ChdError,
    >) {
        if input.len() == 0 {
            return Err(ChdError::DecompressionError);
        }
        let marker = input[0];
        let frames = slice_subrange(input, 1, input.len());
        if marker == MARKER_LITTLE_ENDIAN {
            self.le.decompress(frames, output)
        } else if marker == MARKER_BIG_ENDIAN {
            self.be.decompress(frames, output)
        } else {
            Err(ChdError::DecompressionError)
        }
    }
}

/// A hunk that starts with the marker of a byte order decodes as its
/// remaining bytes do with the FLAC codec of that order, and a hunk that
/// starts with any other byte does not decode.
pub proof fn lemma_marker_dispatch(
    raw: RawFlacCodec,
    le: FlacCodec<LittleEndian, 2>,
    be: FlacCodec<BigEndian, 2>,
    input: Seq<u8>,
    out: Seq<u8>,
)
    requires
        input.len() > 0,
    ensures
        input[0] == MARKER_LITTLE_ENDIAN ==> raw.decoded(input, out) == le.decoded(
            input.subrange(1, input.len() as int),
            out,
        ),
        input[0] == MARKER_BIG_ENDIAN ==> raw.decoded(input, out) == be.decoded(
            input.subrange(1, input.len() as int),
            out,
        ),
        input[0] != MARKER_LITTLE_ENDIAN && input[0] != MARKER_BIG_ENDIAN ==> raw.decoded(
            input,
            out,
        ) is None,
{
}

/// Every instance decodes alike: what a decode yields depends on the two
/// buffers alone.
pub proof fn lemma_raw_flac_instances_decode_alike(
    a: RawFlacCodec,
    b: RawFlacCodec,
    input: Seq<u8>,
    output: Seq<u8>,
)
    ensures
        a.decoded(input, output) == b.decoded(input, output),
{
}

/// What decoding a hunk of CD frames into a buffer that holds `out` yields.
///
/// The hunk holds the sectors of all frames as stereo FLAC audio with the
/// high byte first and, behind the last FLAC frame, the subcode of all
/// frames as one deflate stream. The sectors fill the whole frames of the
/// buffer. Where subcode is wanted, the subcode is decoded and fills them
/// too, and the lengths are the sums of those of the two streams; where it
/// is not, the subcode stream is not read and the subcode of each frame
/// stays as it is in the buffer.
pub open spec fn cdfl_decoded(input: Seq<u8>, out: Seq<u8>, want_subcode: bool) -> Option<
    (Seq<u8>, DecompressLength),
> {
    let frames = cd_frames(out.len());
    match flac_frames(input, 0, sample_len(sectors_len(frames), 2), 2, true) {
        Some((audio, used)) => if want_subcode {
            match zlib_decoded(
                input.subrange(used as int, input.len() as int),
                subcodes_len(frames),
            ) {
                Some((subcode, lengths)) => Some(
                    (
                        reassembled(audio, subcode, true, out),
                        DecompressLength {
                            total_out: (frames * CD_FRAME_SIZE) as usize,
                            total_in: (used + lengths.total_in) as usize,
                        },
                    ),
                ),
                None => None,
            }
        } else {
            Some(
                (
                    reassembled(audio, Seq::empty(), false, out),
                    DecompressLength {
                        total_out: sectors_len(frames) as usize,
                        total_in: used as usize,
                    },
                ),
            )
        },
        None => None,
    }
}

/// A successful decode of a hunk of CD frames leaves the buffer at its
/// length, reports the sectors of its whole frames as written, with their
/// subcode where it is decoded, and reads no more than the input holds.
pub proof fn lemma_cdfl_decoded_bounds(input: Seq<u8>, out: Seq<u8>, want_subcode: bool)
    requires
        input.len() <= usize::MAX,
        out.len() <= usize::MAX,
    ensures
        cdfl_decoded(input, out, want_subcode) matches Some((bytes, lengths)) ==> {
            &&& bytes.len() == out.len()
            &&& lengths.total_in <= input.len()
            &&& lengths.total_out <= out.len()
            &&& want_subcode ==> lengths.total_out == cd_frames(out.len()) * CD_FRAME_SIZE
            &&& !want_subcode ==> lengths.total_out == sectors_len(cd_frames(out.len()))
        },
{
    let frames = cd_frames(out.len());
    lemma_multiples_fit(frames, out.len(), CD_FRAME_SIZE as nat);
    assert(frames * CD_MAX_SECTOR_DATA + frames * CD_MAX_SUBCODE_DATA == frames * CD_FRAME_SIZE)
        by (nonlinear_arith)
        requires
            CD_FRAME_SIZE == CD_MAX_SECTOR_DATA + CD_MAX_SUBCODE_DATA,
    ;
    lemma_flac_frames_bounds(input, 0, sample_len(sectors_len(frames), 2), 2, true);
}

/// Codec for CD FLAC (cdfl) compressed hunks.
pub struct CdFlCodec {
    // cdfl always writes in big endian.
    engine: FlacCodec<BigEndian, 2>,
    sub_engine: ZlibCodec,
    /// The decoded sectors of all frames, one after the other.
    audio: Vec<u8>,
    /// The decoded subcode of all frames, one after the other.
    subcode: Vec<u8>,
    want_subcode: bool,
}

impl CdFlCodec {
    /// Whether the codec decodes the subcode of the frames.
    pub closed spec fn subcode_wanted(&self) -> bool {
        self.want_subcode
    }

    /// Whether the codec decodes the subcode of the frames.
    pub fn want_subcode(&self) -> (r: bool)
        ensures
            r == self.subcode_wanted(),
    {
        self.want_subcode
    }

    /// Builds a codec for hunks of `hunk_size` uncompressed bytes that
    /// decodes the subcode of the frames or leaves it out.
    pub fn with_subcode(hunk_size: u32, want_subcode: bool) -> (r: Result<Self, ChdError>)
        ensures
            r is Ok <==> hunk_size % CD_FRAME_SIZE == 0,
            r matches Ok(codec) ==> codec.subcode_wanted() == want_subcode,
            r matches Err(e) ==> e == ChdError::CodecError,
    {
        if hunk_size % CD_FRAME_SIZE != 0 {
            return Err(ChdError::CodecError);
        }
        // The size of the FLAC data in each cdfl hunk, excluding the subcode data.
        let max_frames = hunk_size / CD_FRAME_SIZE;
        let flac_data_size = max_frames * CD_MAX_SECTOR_DATA;
        let subcode_size = max_frames * CD_MAX_SUBCODE_DATA;

        proof {
            // A sector holds a whole number of stereo instants.
            assert(flac_data_size == (max_frames * 588) * 4) by (nonlinear_arith)
                requires
                    flac_data_size == max_frames * 2352,
            ;
            vstd::arithmetic::div_mod::lemma_mod_multiples_basic(max_frames * 588, 4);
            assert(FlacCodec::<BigEndian, 2>::accepts(flac_data_size));
        }
        let engine = match FlacCodec::<BigEndian, 2>::new(flac_data_size) {
            Ok(codec) => codec,
            Err(e) => {
                return Err(e);
            },
        };
        let sub_engine = match ZlibCodec::new(hunk_size) {
            Ok(codec) => codec,
            Err(e) => {
                return Err(e);
            },
        };
        Ok(
            CdFlCodec {
                engine,
                sub_engine,
                audio: vec![0u8; flac_data_size as usize],
                subcode: vec![0u8; subcode_size as usize],
                want_subcode,
            },
        )
    }
}

impl CompressionCodec for CdFlCodec {

}

impl CompressionCodecType for CdFlCodec {
    fn codec_type(&self) -> (t: CodecType)
        ensures
            t == CodecType::FlacCdV5,
    {
        CodecType::FlacCdV5
    }
}

impl InternalCodec for CdFlCodec {
    /// The hunk must hold a whole number of CD frames.
    open spec fn accepts(hunk_size: u32) -> bool {
        hunk_size % CD_FRAME_SIZE == 0
    }

    open spec fn decoded(&self, input: Seq<u8>, output: Seq<u8>) -> Option<
        (Seq<u8>, DecompressLength),
    > {
        cdfl_decoded(input, output, self.subcode_wanted())
    }

    /// A buffer of whole CD frames is filled where the subcode is decoded.
    /// Where it is not, the subcode of each frame is left as it is.
    open spec fn fills(&self, len: nat) -> bool {
        self.subcode_wanted() && len % (CD_FRAME_SIZE as nat) == 0
    }

    proof fn lemma_decoded_bounds(&self, input: Seq<u8>, output: Seq<u8>) {
        lemma_cdfl_decoded_bounds(input, output, self.subcode_wanted());
    }

    proof fn lemma_exact_fill(&self, input: Seq<u8>, output: Seq<u8>, other: Seq<u8>) {
        lemma_cdfl_decoded_bounds(input, output, self.subcode_wanted());
        lemma_cdfl_decoded_bounds(input, other, self.subcode_wanted());
        if let Some((bytes, lengths)) = cdfl_decoded(input, output, true) {
            let frames = cd_frames(output.len());
            vstd::arithmetic::div_mod::lemma_fundamental_div_mod(
                output.len() as int,
                CD_FRAME_SIZE as int,
            );
            assert(CD_FRAME_SIZE * frames == frames * CD_FRAME_SIZE) by (nonlinear_arith);
            if let Some((alike, same)) = cdfl_decoded(input, other, true) {
                assert forall|k: int| 0 <= k < output.len() implies bytes[k] == alike[k] by {
                    let i = k / (CD_FRAME_SIZE as int);
                    let at = k % (CD_FRAME_SIZE as int);
                    vstd::arithmetic::div_mod::lemma_fundamental_div_mod(k, CD_FRAME_SIZE as int);
                    vstd::arithmetic::div_mod::lemma_div_is_ordered(
                        k,
                        output.len() - 1,
                        CD_FRAME_SIZE as int,
                    );
                    assert(i < frames) by {
                        if i >= frames {
                            assert(CD_FRAME_SIZE * i >= CD_FRAME_SIZE * frames) by (nonlinear_arith)
                                requires
                                    i >= frames,
                            ;
                        }
                    }
                }
                assert(bytes =~= alike);
            }
        }
    }

    fn is_lossy(&self) -> (lossy: bool)
        ensures
            !lossy,
    {
        false
    }

    /// The codec built leaves the subcode out.
    fn new(hunk_size: u32) -> (r: Result<Self, ChdError>)
        ensures
            r matches Ok(codec) ==> !codec.subcode_wanted(),
    {
        Self::with_subcode(hunk_size, false)
    }

    fn decompress(&mut self, input: &[u8], output: &mut [u8]) -> (r: Result<
        DecompressLength,
        ChdError,
    >) {
        let total_frames = output.len() / CD_FRAME_SIZE as usize;
        proof {
            lemma_multiples_fit(total_frames as nat, output@.len(), CD_FRAME_SIZE as nat);
        }
        let ghost frames = cd_frames(old(output)@.len());
        let frame_res = match self.decode_sectors(input, total_frames) {
            Ok(lengths) => lengths,
            Err(e) => {
                return Err(e);
            },
        };
        let sub_res = if self.want_subcode {
            match self.decode_subcode(input, frame_res.total_in(), total_frames) {
                Ok(lengths) => lengths,
                Err(e) => {
                    return Err(e);
                },
            }
        } else {
            DecompressLength::default()
        };

        // The decoded data has the layout
        // [Frame0, Frame1, ..., FrameN, Subcode0, Subcode1, ..., SubcodeN]
        // and is put together as
        // [Frame0, Subcode0, Frame1, Subcode1, ..., FrameN, SubcodeN]
        match reassemble(self.audio.as_slice(), self.subcode.as_slice(), self.want_subcode, output) {
            Ok(()) => {},
            Err(e) => {
                return Err(e);
            },
        }
        proof {
            assert(input@.len() == input.len());
            assert(sectors_len(frames) + subcodes_len(frames) == frames * CD_FRAME_SIZE)
                by (nonlinear_arith)
                requires
                    sectors_len(frames) == frames * CD_MAX_SECTOR_DATA,
                    subcodes_len(frames) == frames * CD_MAX_SUBCODE_DATA,
                    CD_FRAME_SIZE == CD_MAX_SECTOR_DATA + CD_MAX_SUBCODE_DATA,
            ;
            if !self.want_subcode {
                assert(reassembled(self.audio@, self.subcode@, false, old(output)@) =~= reassembled(
                    self.audio@,
                    Seq::empty(),
                    false,
                    old(output)@,
                ));
            }
        }
        Ok(frame_res + sub_res)
    }
}

impl CdFlCodec {
    /// Decodes the sectors of `frames` CD frames from the FLAC frames at
    /// the front of `input` into the audio scratch.
    fn decode_sectors(&mut self, input: &[u8], frames: usize) -> (r: Result<
        DecompressLength,
        ChdError,
    >)
        requires
            frames * CD_FRAME_SIZE <= usize::MAX,
        ensures
            final(self).want_subcode == old(self).want_subcode,
            match flac_frames(input@, 0, sample_len(sectors_len(frames as nat), 2), 2, true) {
                Some((audio, used)) => {
                    &&& r matches Ok(lengths)
                    &&& lengths.total_out == sectors_len(frames as nat)
                    &&& lengths.total_in == used
                    &&& final(self).audio@ == audio
                    &&& audio.len() == sectors_len(frames as nat)
                    &&& used <= input@.len()
                },
                None => r == Err::<DecompressLength, ChdError>(ChdError::DecompressionError),
            },
    {
        assert(input@.len() == input.len());
        assert(frames * CD_MAX_SECTOR_DATA <= frames * CD_FRAME_SIZE) by (nonlinear_arith)
            requires
                CD_MAX_SECTOR_DATA <= CD_FRAME_SIZE,
        ;
        let audio_len = frames * CD_MAX_SECTOR_DATA as usize;
        self.audio.resize(audio_len, 0);
        let ghost scratch = self.audio@;
        proof {
            // A sector holds a whole number of stereo instants.
            assert(audio_len == (frames * 588) * 4) by (nonlinear_arith)
                requires
                    audio_len == frames * 2352,
            ;
            vstd::arithmetic::div_mod::lemma_mod_multiples_basic(frames * 588, 4);
            lemma_flac_decoded_fills(input@, scratch, scratch, 2, true);
        }
        let r = self.engine.decompress(input, self.audio.as_mut_slice());
        proof {
            if let Some((audio, used)) = flac_frames(
                input@,
                0,
                sample_len(scratch.len(), 2),
                2,
                true,
            ) {
                lemma_flac_frames_bounds(input@, 0, sample_len(scratch.len(), 2), 2, true);
                assert(audio + scratch.subrange(audio.len() as int, scratch.len() as int)
                    =~= audio);
            }
        }
        r
    }

    /// Decodes the subcode of `frames` CD frames from the deflate stream
    /// that starts at `from` in `input` into the subcode scratch.
    fn decode_subcode(&mut self, input: &[u8], from: usize, frames: usize) -> (r: Result<
        DecompressLength,
        ChdError,
    >)
        requires
            from <= input@.len(),
            frames * CD_FRAME_SIZE <= usize::MAX,
        ensures
            final(self).want_subcode == old(self).want_subcode,
            final(self).audio@ == old(self).audio@,
            match zlib_decoded(
                input@.subrange(from as int, input@.len() as int),
                subcodes_len(frames as nat),
            ) {
                Some((subcode, lengths)) => {
                    &&& r == Ok::<DecompressLength, ChdError>(lengths)
                    &&& final(self).subcode@ == subcode
                    &&& subcode.len() == subcodes_len(frames as nat)
                    &&& lengths.total_out == subcodes_len(frames as nat)
                    &&& lengths.total_in <= input@.len() - from
                },
                None => r == Err::<DecompressLength, ChdError>(ChdError::DecompressionError),
            },
    {
        assert(frames * CD_MAX_SUBCODE_DATA <= frames * CD_FRAME_SIZE) by (nonlinear_arith)
            requires
                CD_MAX_SUBCODE_DATA <= CD_FRAME_SIZE,
        ;
        let subcode_len = frames * CD_MAX_SUBCODE_DATA as usize;
        self.subcode.resize(subcode_len, 0);
        let rest = slice_subrange(input, from, input.len());
        self.sub_engine.decompress(rest, self.subcode.as_mut_slice())
    }
}

/// Instances that treat the subcode alike decode alike: what a decode
/// yields depends on the two buffers and on whether subcode is wanted, not
/// on the hunk size the instance was built for, on what its scratch
/// buffers hold, or on what it decoded before.
pub proof fn lemma_cdfl_instances_decode_alike(
    a: CdFlCodec,
    b: CdFlCodec,
    input: Seq<u8>,
    output: Seq<u8>,
)
    requires
        a.subcode_wanted() == b.subcode_wanted(),
    ensures
        a.decoded(input, output) == b.decoded(input, output),
{
}

} // verus!

