//! Headerless LZMA hunks.
//!
//! The image stores neither the LZMA properties nor the dictionary size of a
//! hunk. The properties are those of the reference encoder, and the
//! dictionary size is derived from the hunk size the way that encoder
//! normalises its settings.
use crate::compression::CompressionCodec;
use crate::compression::CompressionCodecType;
use crate::compression::DecompressLength;
use crate::compression::InternalCodec;
use crate::error::ChdError;
use crate::header::CodecType;
use lzma_rs_perf_exp::decompress::raw::LzmaDecoder;
use lzma_rs_perf_exp::decompress::raw::LzmaParams;
use lzma_rs_perf_exp::decompress::raw::LzmaProperties;
use std::io::Cursor;
use vstd::arithmetic::power2::lemma2_to64;
use vstd::arithmetic::power2::lemma_pow2_strictly_increases;
use vstd::arithmetic::power2::lemma_pow2_unfold;
use vstd::arithmetic::power2::pow2;
use vstd::bits::lemma_u32_shl_is_mul;
use vstd::prelude::*;

verus! {

/// The compression level the reference encoder runs at.
pub const LZMA_LEVEL: u32 = 9;

/// Literal context bits of the reference encoder.
pub const LZMA_LC: u32 = 3;

/// Literal position bits of the reference encoder.
pub const LZMA_LP: u32 = 0;

/// Position bits of the reference encoder.
pub const LZMA_PB: u32 = 2;

/// The smallest shift the encoder tries when it reduces a dictionary.
pub const DICT_SHIFT_MIN: u32 = 11;

/// The largest shift the encoder tries when it reduces a dictionary.
pub const DICT_SHIFT_MAX: u32 = 30;

/// The dictionary size the encoder starts from at a compression level.
pub open spec fn level_dict_size(level: u32) -> nat {
    if level <= 5 {
        pow2((2 * level + 14) as nat)
    } else if level <= 7 {
        pow2(25)
    } else {
        pow2(26)
    }
}

/// The sizes a dictionary can be reduced to: `2 << i` and `3 << i` for the
/// shifts `i` the encoder tries.
pub open spec fn is_reduced_size(d: nat) -> bool {
    exists|i: nat|
        DICT_SHIFT_MIN <= i <= DICT_SHIFT_MAX && (d == 2 * #[trigger] pow2(i) || d == 3 * pow2(i))
}

/// `d` is the smallest size a dictionary can be reduced to that still holds
/// `reduce_size` bytes.
pub open spec fn is_least_reduced_size(d: nat, reduce_size: nat) -> bool {
    &&& is_reduced_size(d)
    &&& reduce_size <= d
    &&& forall|e: nat| is_reduced_size(e) && reduce_size <= e ==> d <= e
}

/// The dictionary size for data of `reduce_size` bytes at a compression
/// level: the size the level starts from, unless that is larger than the
/// data, in which case it is the smallest reduced size that holds the data.
pub open spec fn lzma_dict_size(level: u32, reduce_size: u32) -> nat {
    if level_dict_size(level) <= reduce_size {
        level_dict_size(level)
    } else {
        choose|d: nat| is_least_reduced_size(d, reduce_size as nat)
    }
}

/// The sizes the levels start from lie between `1 << 14` and `1 << 26`.
proof fn lemma_level_dict_size(level: u32)
    ensures
        pow2(14) <= level_dict_size(level) <= pow2(26),
        pow2(14) == 0x4000,
        pow2(26) == 0x400_0000,
{
    lemma2_to64();
}

/// Every reduced size of a shift below `i` is smaller than every reduced
/// size of shift `i` or above.
proof fn lemma_reduced_sizes_ascend(j: nat, i: nat)
    ensures
        2 * pow2(j) < 3 * pow2(j),
        j < i ==> 3 * pow2(j) < 2 * pow2(i),
        j <= i ==> pow2(j) <= pow2(i),
{
    vstd::arithmetic::power2::lemma_pow2_pos(j);
    if j < i {
        lemma_pow2_unfold(j + 1);
        if j + 1 < i {
            lemma_pow2_strictly_increases(j + 1, i);
        }
    }
}

/// There is at most one least reduced size for each `reduce_size`, so a
/// size that is one is the dictionary size.
pub proof fn lemma_least_reduced_size_unique(d: nat, e: nat, reduce_size: nat)
    requires
        is_least_reduced_size(d, reduce_size),
        is_least_reduced_size(e, reduce_size),
    ensures
        d == e,
{
}

/// Derives the dictionary size of a stream that the reference encoder wrote
/// at `level` for `reduce_size` bytes of data.
///
/// The scan tries `2 << i` before `3 << i` at each shift, from the smallest
/// shift up, as the encoder does.
pub fn get_lzma_dict_size(level: u32, reduce_size: u32) -> (dict_size: u32)
    ensures
        dict_size == lzma_dict_size(level, reduce_size),
        level_dict_size(level) > reduce_size ==> is_least_reduced_size(
            dict_size as nat,
            reduce_size as nat,
        ),
{
    proof {
        lemma2_to64();
    }
    let mut dict_size: u32 = if level <= 5 {
        let shift: u32 = level * 2 + 14;
        proof {
            lemma_u32_shl_is_mul(1, shift);
        }
        1u32 << shift
    } else if level <= 7 {
        proof {
            lemma_u32_shl_is_mul(1, 25);
        }
        1u32 << 25
    } else {
        proof {
            lemma_u32_shl_is_mul(1, 26);
        }
        1u32 << 26
    };
    assert(dict_size == level_dict_size(level));
    if dict_size > reduce_size {
        proof {
            lemma_level_dict_size(level);
        }
        let mut i: u32 = DICT_SHIFT_MIN;
        let mut found: bool = false;
        while i <= DICT_SHIFT_MAX
            invariant_except_break
                !found,
                DICT_SHIFT_MIN <= i <= DICT_SHIFT_MAX + 1,
                i > DICT_SHIFT_MIN ==> 3 * pow2((i - 1) as nat) < reduce_size,
            invariant
                reduce_size < pow2(26),
                pow2(26) == 0x400_0000,
            ensures
                found ==> is_least_reduced_size(dict_size as nat, reduce_size as nat),
                !found ==> i > DICT_SHIFT_MAX && 3 * pow2((i - 1) as nat) < reduce_size,
            decreases DICT_SHIFT_MAX + 1 - i,
        {
            proof {
                lemma2_to64();
                lemma_reduced_sizes_ascend(i as nat, 30);
                lemma_u32_shl_is_mul(2, i);
                lemma_u32_shl_is_mul(3, i);
            }
            if reduce_size <= (2u32 << i) {
                dict_size = 2u32 << i;
                found = true;
                proof {
                    lemma_first_fit_is_least(dict_size as nat, reduce_size as nat, i as nat, false);
                }
                break ;
            }
            if reduce_size <= (3u32 << i) {
                dict_size = 3u32 << i;
                found = true;
                proof {
                    lemma_first_fit_is_least(dict_size as nat, reduce_size as nat, i as nat, true);
                }
                break ;
            }
            i += 1;
        }
        proof {
            if !found {
                lemma2_to64();
                lemma_reduced_sizes_ascend(26, (i - 1) as nat);
            }
            let d = choose|d: nat| is_least_reduced_size(d, reduce_size as nat);
            lemma_least_reduced_size_unique(d, dict_size as nat, reduce_size as nat);
        }
    }
    dict_size
}

/// The first size of the scan that holds `reduce_size` is the least reduced
/// size: every size of an earlier shift is too small, and every later one
/// is larger.
pub proof fn lemma_first_fit_is_least(d: nat, reduce_size: nat, i: nat, three: bool)
    requires
        DICT_SHIFT_MIN <= i <= DICT_SHIFT_MAX,
        i > DICT_SHIFT_MIN ==> 3 * pow2((i - 1) as nat) < reduce_size,
        reduce_size <= d,
        !three ==> d == 2 * pow2(i),
        three ==> d == 3 * pow2(i) && 2 * pow2(i) < reduce_size,
    ensures
        is_least_reduced_size(d, reduce_size),
{
    assert(is_reduced_size(d));
    assert forall|e: nat| is_reduced_size(e) && reduce_size <= e implies d <= e by {
        let j = choose|j: nat|
            DICT_SHIFT_MIN <= j <= DICT_SHIFT_MAX && (e == 2 * #[trigger] pow2(j) || e == 3 * pow2(
                j,
            ));
        lemma_reduced_sizes_ascend(j, i);
        lemma_reduced_sizes_ascend(i, j);
        if j < i {
            lemma_reduced_sizes_ascend(j, (i - 1) as nat);
        }
    }
}

/// What the LZMA decoder of `lzma_rs_perf_exp` makes of a headerless stream
/// when it is told the properties, the dictionary size and the number of
/// bytes to unpack: the unpacked bytes and the number of bytes of `input`
/// it read, or `None` where it reports an error.
pub uninterp spec fn lzma_stream(
    input: Seq<u8>,
    lc: u32,
    lp: u32,
    pb: u32,
    dict_size: u32,
    len: nat,
) -> Option<(Seq<u8>, nat)>;

/// Runs `LzmaDecoder::decompress` of `lzma_rs_perf_exp` on `input`, with a
/// decoder made for the given properties and dictionary size and for an
/// unpacked size of `output.len()`, writing to `output`.
///
/// The contract claims that the decoder is a function of these arguments,
/// named by `lzma_stream`; that on success `output` holds exactly the
/// unpacked bytes and the result is the position the decoder's reader
/// stopped at; and that on an error of the decoder the result is `None`.
/// The decoder asserts the bounds on the properties and divides by the
/// dictionary size, hence the preconditions.
#[verifier::external_body]
fn lzma_decode(input: &[u8], output: &mut [u8], lc: u32, lp: u32, pb: u32, dict_size: u32) -> (used:
    Option<usize>)
    requires
        lc <= 8,
        lp <= 4,
        pb <= 4,
        dict_size > 0,
    ensures
        final(output)@.len() == old(output)@.len(),
        match lzma_stream(input@, lc, lp, pb, dict_size, old(output)@.len()) {
            Some((bytes, n)) => used matches Some(u) && u == n && final(output)@ == bytes,
            None => used is None,
        },
{
    let size = Some(output.len() as u64);
    let params = LzmaParams::new(LzmaProperties { lc, lp, pb }, dict_size, size);
    let mut decoder = LzmaDecoder::new(params, None).ok()?;
    let mut reader = Cursor::new(input);
    let mut sink = output;
    decoder.decompress(&mut reader, &mut sink).ok()?;
    Some(reader.position() as usize)
}

/// What decoding a headerless LZMA stream with the reference properties
/// yields for an output buffer of `len` bytes: the bytes that fill the
/// buffer and the lengths reported.
pub open spec fn lzma_decoded(input: Seq<u8>, len: nat, dict_size: u32) -> Option<
    (Seq<u8>, DecompressLength),
> {
    lzma_outcome(lzma_stream(input, LZMA_LC, LZMA_LP, LZMA_PB, dict_size, len), input.len(), len)
}

/// What a decode reports once the decoder has returned `stream`: success
/// where the decoder filled the buffer from within the input.
pub open spec fn lzma_outcome(stream: Option<(Seq<u8>, nat)>, input_len: nat, len: nat) -> Option<
    (Seq<u8>, DecompressLength),
> {
    match stream {
        Some((bytes, used)) => if bytes.len() == len && used <= input_len {
            Some((bytes, DecompressLength { total_out: len as usize, total_in: used as usize }))
        } else {
            None
        },
        None => None,
    }
}

/// Codec for LZMA (lzma) compressed hunks.
pub struct LzmaCodec {
    dict_size: u32,
}

impl LzmaCodec {
    #[verifier::type_invariant]
    spec fn inv(self) -> bool {
        self.dict_size > 0
    }

    /// The dictionary size the decoder runs with.
    pub closed spec fn dict_size(&self) -> u32 {
        self.dict_size
    }

    /// The dictionary size the decoder runs with.
    pub fn dictionary_size(&self) -> (size: u32)
        ensures
            size == self.dict_size(),
    {
        self.dict_size
    }

    /// The lengths to report after the decoder read `used` bytes of an
    /// input of `input_len` bytes and filled an output of `output_len`
    /// bytes, or the error where it failed.
    pub fn lengths(used: Option<usize>, input_len: usize, output_len: usize) -> (r: Result<
        DecompressLength,
        ChdError,
    >)
        ensures
            r == match used {
                Some(u) if u <= input_len => Ok::<DecompressLength, ChdError>(
                    DecompressLength { total_out: output_len, total_in: u },
                ),
                _ => Err::<DecompressLength, ChdError>(ChdError::DecompressionError),
            },
    {
        match used {
            Some(u) => if u <= input_len {
                Ok(DecompressLength::new(output_len, u))
            } else {
                Err(ChdError::DecompressionError)
            },
            None => Err(ChdError::DecompressionError),
        }
    }
}

impl CompressionCodec for LzmaCodec {

}

impl CompressionCodecType for LzmaCodec {
    fn codec_type(&self) -> (t: CodecType)
        ensures
            t == CodecType::LzmaV5,
    {
        CodecType::LzmaV5
    }
}

impl InternalCodec for LzmaCodec {
    /// A codec can be built for every hunk size.
    open spec fn accepts(hunk_size: u32) -> bool {
        true
    }

    open spec fn decoded(&self, input: Seq<u8>, output: Seq<u8>) -> Option<
        (Seq<u8>, DecompressLength),
    > {
        lzma_decoded(input, output.len(), self.dict_size())
    }

    /// Every buffer is filled.
    open spec fn fills(&self, len: nat) -> bool {
        true
    }

    proof fn lemma_decoded_bounds(&self, input: Seq<u8>, output: Seq<u8>) {
    }

    proof fn lemma_exact_fill(&self, input: Seq<u8>, output: Seq<u8>, other: Seq<u8>) {
    }

    fn is_lossy(&self) -> (lossy: bool)
        ensures
            !lossy,
    {
        false
    }

    /// The dictionary size is the one the reference encoder derives for
    /// `hunk_size` bytes at its default level.
    fn new(hunk_size: u32) -> (r: Result<Self, ChdError>)
        ensures
            r matches Ok(codec) ==> codec.dict_size() == lzma_dict_size(LZMA_LEVEL, hunk_size),
    {
        let dict_size = get_lzma_dict_size(LZMA_LEVEL, hunk_size);
        proof {
            lemma_dict_size_positive(LZMA_LEVEL, hunk_size);
        }
        Ok(LzmaCodec { dict_size })
    }

    fn decompress(&mut self, input: &[u8], output: &mut [u8]) -> (r: Result<
        DecompressLength,
        ChdError,
    >)
    {
        proof {
            use_type_invariant(&*self);
        }
        let len = output.len();
        let used = lzma_decode(input, output, LZMA_LC, LZMA_LP, LZMA_PB, self.dict_size);
        Self::lengths(used, input.len(), len)
    }
}

/// Instances with the same dictionary size decode alike: what a decode
/// yields depends on the two buffers and the dictionary size alone, not on
/// what the instance decoded before.
pub proof fn lemma_lzma_instances_decode_alike(
    a: LzmaCodec,
    b: LzmaCodec,
    input: Seq<u8>,
    output: Seq<u8>,
)
    requires
        a.dict_size() == b.dict_size(),
    ensures
        a.decoded(input, output) == b.decoded(input, output),
{
}

/// From any point of the scan on there is a least reduced size, as long as
/// `reduce_size` is no larger than the largest reduced size.
proof fn lemma_least_exists_from(reduce_size: nat, i: nat) -> (d: nat)
    requires
        DICT_SHIFT_MIN <= i <= DICT_SHIFT_MAX,
        i > DICT_SHIFT_MIN ==> 3 * pow2((i - 1) as nat) < reduce_size,
        reduce_size <= 3 * pow2(30),
    ensures
        is_least_reduced_size(d, reduce_size),
    decreases DICT_SHIFT_MAX - i,
{
    if reduce_size <= 2 * pow2(i) {
        lemma_first_fit_is_least(2 * pow2(i), reduce_size, i, false);
        2 * pow2(i)
    } else if reduce_size <= 3 * pow2(i) {
        lemma_first_fit_is_least(3 * pow2(i), reduce_size, i, true);
        3 * pow2(i)
    } else {
        lemma_reduced_sizes_ascend(i, 30);
        lemma_least_exists_from(reduce_size, i + 1)
    }
}

/// Every `reduce_size` up to the largest reduced size, `3 << 30`, has a
/// least reduced size.
pub proof fn lemma_least_exists(reduce_size: u32)
    requires
        reduce_size <= 3 * pow2(30),
    ensures
        exists|d: nat| is_least_reduced_size(d, reduce_size as nat),
{
    lemma2_to64();
    let d = lemma_least_exists_from(reduce_size as nat, 11);
}

/// No dictionary is empty: the sizes a level starts from and the sizes a
/// dictionary is reduced to are all at least `2 << 11` bytes.
pub proof fn lemma_dict_size_positive(level: u32, reduce_size: u32)
    ensures
        lzma_dict_size(level, reduce_size) >= 4096,
{
    lemma2_to64();
    lemma_level_dict_size(level);
    if level_dict_size(level) > reduce_size {
        lemma_least_exists(reduce_size);
        let d = lzma_dict_size(level, reduce_size);
        let i = choose|i: nat|
            DICT_SHIFT_MIN <= i <= DICT_SHIFT_MAX && (d == 2 * #[trigger] pow2(i) || d == 3 * pow2(
                i,
            ));
        lemma_reduced_sizes_ascend(11, i);
    }
}

} // verus!
