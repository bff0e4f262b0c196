//! The layout of CD frames in a hunk.
//!
//! A frame is one sector of the disc: the sector payload followed by its
//! subcode. The codecs decode the sectors of all frames of a hunk in one
//! piece and the subcode of all frames in another, and the frames are put
//! together from the two.
use crate::arith::lemma_multiples_fit;
use crate::error::ChdError;
use vstd::arithmetic::div_mod::lemma_fundamental_div_mod_converse;
use vstd::prelude::*;

verus! {

/// Bytes of sector payload in one CD frame.
pub const CD_MAX_SECTOR_DATA: u32 = 2352;

/// Bytes of subcode in one CD frame.
pub const CD_MAX_SUBCODE_DATA: u32 = 96;

/// Bytes of one CD frame: the sector payload followed by its subcode.
pub const CD_FRAME_SIZE: u32 = CD_MAX_SECTOR_DATA + CD_MAX_SUBCODE_DATA;

/// The number of whole CD frames in a buffer of `len` bytes.
pub open spec fn cd_frames(len: nat) -> nat {
    len / (CD_FRAME_SIZE as nat)
}

/// The bytes that the sectors of `frames` CD frames take.
pub open spec fn sectors_len(frames: nat) -> nat {
    frames * (CD_MAX_SECTOR_DATA as nat)
}

/// The bytes that the subcode of `frames` CD frames takes.
pub open spec fn subcodes_len(frames: nat) -> nat {
    frames * (CD_MAX_SUBCODE_DATA as nat)
}

/// Byte `k` of a hunk of CD frames whose sectors were taken from `audio`
/// and whose subcode, where it is wanted, was taken from `subcode`.
///
/// `audio` holds the sectors of all frames one after the other, `subcode`
/// the subcode of all frames one after the other. In the hunk each frame
/// has its sector followed by its subcode. Bytes that belong to no whole
/// frame, and the subcode where it is not wanted, are those of `out`.
pub open spec fn reassembled_byte(
    audio: Seq<u8>,
    subcode: Seq<u8>,
    want_subcode: bool,
    out: Seq<u8>,
    k: int,
) -> u8 {
    let frame = k / (CD_FRAME_SIZE as int);
    let at = k % (CD_FRAME_SIZE as int);
    if frame >= cd_frames(out.len()) {
        out[k]
    } else if at < CD_MAX_SECTOR_DATA {
        audio[frame * CD_MAX_SECTOR_DATA + at]
    } else if want_subcode {
        subcode[frame * CD_MAX_SUBCODE_DATA + (at - CD_MAX_SECTOR_DATA)]
    } else {
        out[k]
    }
}

/// The hunk of CD frames put together from `audio` and `subcode` in a
/// buffer that holds `out`.
pub open spec fn reassembled(
    audio: Seq<u8>,
    subcode: Seq<u8>,
    want_subcode: bool,
    out: Seq<u8>,
) -> Seq<u8> {
    Seq::new(out.len(), |k: int| reassembled_byte(audio, subcode, want_subcode, out, k))
}

/// Whether `audio` and `subcode` hold what the frames of a buffer of `len`
/// bytes take.
pub open spec fn scratch_fits(audio: nat, subcode: nat, want_subcode: bool, len: nat) -> bool {
    &&& audio == sectors_len(cd_frames(len))
    &&& want_subcode ==> subcode == subcodes_len(cd_frames(len))
}

/// Byte `at` of frame `i` of a reassembled hunk.
pub open spec fn frame_byte(
    audio: Seq<u8>,
    subcode: Seq<u8>,
    want_subcode: bool,
    out: Seq<u8>,
    i: int,
    at: int,
) -> u8 {
    if at < CD_MAX_SECTOR_DATA {
        audio[i * CD_MAX_SECTOR_DATA + at]
    } else if want_subcode {
        subcode[i * CD_MAX_SUBCODE_DATA + (at - CD_MAX_SECTOR_DATA)]
    } else {
        out[i * CD_FRAME_SIZE + at]
    }
}

/// A byte within a whole frame of a reassembled hunk is the byte of that
/// frame at its place in the frame.
proof fn lemma_reassembled_byte(
    audio: Seq<u8>,
    subcode: Seq<u8>,
    want_subcode: bool,
    out: Seq<u8>,
    i: int,
    at: int,
)
    requires
        0 <= i < cd_frames(out.len()),
        0 <= at < CD_FRAME_SIZE,
    ensures
        reassembled_byte(audio, subcode, want_subcode, out, i * CD_FRAME_SIZE + at) == frame_byte(
            audio,
            subcode,
            want_subcode,
            out,
            i,
            at,
        ),
{
    lemma_fundamental_div_mod_converse(i * CD_FRAME_SIZE + at, CD_FRAME_SIZE as int, i, at);
}

/// A byte behind the last whole frame of a reassembled hunk is the byte the
/// buffer held.
proof fn lemma_reassembled_rest(
    audio: Seq<u8>,
    subcode: Seq<u8>,
    want_subcode: bool,
    out: Seq<u8>,
    k: int,
)
    requires
        cd_frames(out.len()) * CD_FRAME_SIZE <= k,
    ensures
        reassembled_byte(audio, subcode, want_subcode, out, k) == out[k],
{
    let frames = cd_frames(out.len()) as int;
    vstd::arithmetic::div_mod::lemma_div_is_ordered(frames * CD_FRAME_SIZE, k, CD_FRAME_SIZE as int);
    vstd::arithmetic::div_mod::lemma_div_by_multiple(frames, CD_FRAME_SIZE as int);
}

/// In a reassembled hunk the sector of frame `i` is the `i`-th sector of
/// the audio data, and its subcode is the `i`-th piece of the subcode data
/// where subcode is wanted, and what the buffer held where it is not.
pub proof fn lemma_reassembled_frame(
    audio: Seq<u8>,
    subcode: Seq<u8>,
    want_subcode: bool,
    out: Seq<u8>,
    i: nat,
)
    requires
        scratch_fits(audio.len(), subcode.len(), want_subcode, out.len()),
        i < cd_frames(out.len()),
    ensures
        reassembled(audio, subcode, want_subcode, out).subrange(
            i * CD_FRAME_SIZE,
            i * CD_FRAME_SIZE + CD_MAX_SECTOR_DATA,
        ) == audio.subrange(i * CD_MAX_SECTOR_DATA, (i + 1) * CD_MAX_SECTOR_DATA),
        want_subcode ==> reassembled(audio, subcode, want_subcode, out).subrange(
            i * CD_FRAME_SIZE + CD_MAX_SECTOR_DATA,
            (i + 1) * CD_FRAME_SIZE,
        ) == subcode.subrange(i * CD_MAX_SUBCODE_DATA, (i + 1) * CD_MAX_SUBCODE_DATA),
        !want_subcode ==> reassembled(audio, subcode, want_subcode, out).subrange(
            i * CD_FRAME_SIZE + CD_MAX_SECTOR_DATA,
            (i + 1) * CD_FRAME_SIZE,
        ) == out.subrange(i * CD_FRAME_SIZE + CD_MAX_SECTOR_DATA, (i + 1) * CD_FRAME_SIZE),
{
    let whole = reassembled(audio, subcode, want_subcode, out);
    let from = i * CD_FRAME_SIZE;
    assert(CD_FRAME_SIZE == CD_MAX_SECTOR_DATA + CD_MAX_SUBCODE_DATA);
    lemma_multiples_fit(i + 1, out.len(), CD_FRAME_SIZE as nat);
    assert((i + 1) * CD_FRAME_SIZE == from + CD_FRAME_SIZE) by (nonlinear_arith)
        requires
            from == i * CD_FRAME_SIZE,
    ;
    assert((i + 1) * CD_MAX_SECTOR_DATA <= cd_frames(out.len()) * CD_MAX_SECTOR_DATA)
        by (nonlinear_arith)
        requires
            i + 1 <= cd_frames(out.len()),
    ;
    assert((i + 1) * CD_MAX_SUBCODE_DATA <= cd_frames(out.len()) * CD_MAX_SUBCODE_DATA)
        by (nonlinear_arith)
        requires
            i + 1 <= cd_frames(out.len()),
    ;
    assert forall|k: int| from <= k < from + CD_FRAME_SIZE implies #[trigger] reassembled_byte(
        audio,
        subcode,
        want_subcode,
        out,
        k,
    ) == frame_byte(audio, subcode, want_subcode, out, i as int, k - from) by {
        lemma_reassembled_byte(audio, subcode, want_subcode, out, i as int, k - from);
    }
    assert(whole.subrange(from, from + CD_MAX_SECTOR_DATA) =~= audio.subrange(
        i * CD_MAX_SECTOR_DATA,
        (i + 1) * CD_MAX_SECTOR_DATA,
    ));
    if want_subcode {
        assert(whole.subrange(from + CD_MAX_SECTOR_DATA, from + CD_FRAME_SIZE) =~= subcode.subrange(
            i * CD_MAX_SUBCODE_DATA,
            (i + 1) * CD_MAX_SUBCODE_DATA,
        ));
    } else {
        assert(whole.subrange(from + CD_MAX_SECTOR_DATA, from + CD_FRAME_SIZE) =~= out.subrange(
            from + CD_MAX_SECTOR_DATA,
            from + CD_FRAME_SIZE,
        ));
    }
}

/// Copies `n` bytes of `src` from `from` on to `dst` from `to` on.
fn copy_chunk(src: &[u8], from: usize, dst: &mut [u8], to: usize, n: usize)
    requires
        from + n <= src@.len() <= usize::MAX,
        to + n <= old(dst)@.len() <= usize::MAX,
    ensures
        final(dst)@.len() == old(dst)@.len(),
        forall|k: int|
            0 <= k < old(dst)@.len() ==> final(dst)@[k] == if to <= k < to + n {
                src@[from + (k - to)]
            } else {
                old(dst)@[k]
            },
{
    let mut i: usize = 0;
    while i < n
        invariant
            0 <= i <= n,
            from + n <= src@.len() <= usize::MAX,
            to + n <= dst@.len() <= usize::MAX,
            dst@.len() == old(dst)@.len(),
            forall|k: int|
                0 <= k < dst@.len() ==> dst@[k] == if to <= k < to + i {
                    src@[from + (k - to)]
                } else {
                    old(dst)@[k]
                },
        decreases n - i,
    {
        dst[to + i] = src[from + i];
        i += 1;
    }
}

/// Puts a hunk of CD frames together in `output`: the sector of each frame
/// from `audio`, which holds all sectors one after the other, and, where
/// subcode is wanted, its subcode from `subcode`, which holds the subcode
/// of all frames one after the other.
///
/// Fails, with `output` unchanged, where `audio` or the wanted `subcode`
/// does not hold exactly what the whole frames of `output` take.
pub fn reassemble(audio: &[u8], subcode: &[u8], want_subcode: bool, output: &mut [u8]) -> (r:
    Result<(), ChdError>)
    ensures
        final(output)@.len() == old(output)@.len(),
        scratch_fits(audio@.len(), subcode@.len(), want_subcode, old(output)@.len()) ==> r is Ok
            && final(output)@ == reassembled(audio@, subcode@, want_subcode, old(output)@),
        !scratch_fits(audio@.len(), subcode@.len(), want_subcode, old(output)@.len()) ==> r
            == Err::<(), ChdError>(ChdError::DecompressionError) && final(output)@ == old(
            output,
        )@,
{
    let sector: usize = CD_MAX_SECTOR_DATA as usize;
    let sub: usize = CD_MAX_SUBCODE_DATA as usize;
    let frame: usize = CD_FRAME_SIZE as usize;
    let total_frames = output.len() / frame;
    if audio.len() != total_frames * sector {
        return Err(ChdError::DecompressionError);
    }
    let subcode_len = subcode.len();
    if want_subcode && subcode_len != total_frames * sub {
        return Err(ChdError::DecompressionError);
    }
    let ghost orig = output@;
    proof {
        lemma_multiples_fit(total_frames as nat, orig.len(), frame as nat);
    }
    let mut frame_num: usize = 0;
    while frame_num < total_frames
        invariant
            0 <= frame_num <= total_frames,
            sector == CD_MAX_SECTOR_DATA,
            sub == CD_MAX_SUBCODE_DATA,
            frame == CD_FRAME_SIZE,
            total_frames == cd_frames(orig.len()),
            total_frames * frame <= orig.len(),
            audio@.len() == total_frames * sector <= usize::MAX,
            subcode@.len() <= usize::MAX,
            want_subcode ==> subcode@.len() == total_frames * sub,
            output@.len() == orig.len() <= usize::MAX,
            forall|k: int|
                0 <= k < frame_num * frame ==> output@[k] == reassembled_byte(
                    audio@,
                    subcode@,
                    want_subcode,
                    orig,
                    k,
                ),
            forall|k: int| frame_num * frame <= k < orig.len() ==> output@[k] == orig[k],
        decreases total_frames - frame_num,
    {
        let ghost before = output@;
        proof {
            assert((frame_num + 1) * frame <= total_frames * frame) by (nonlinear_arith)
                requires
                    frame_num + 1 <= total_frames,
                    frame >= 0,
            ;
            assert((frame_num + 1) * sector <= total_frames * sector) by (nonlinear_arith)
                requires
                    frame_num + 1 <= total_frames,
                    sector >= 0,
            ;
            assert((frame_num + 1) * sub <= total_frames * sub) by (nonlinear_arith)
                requires
                    frame_num + 1 <= total_frames,
                    sub >= 0,
            ;
            assert(frame == sector + sub);
        }
        copy_chunk(audio, frame_num * sector, output, frame_num * frame, sector);
        if want_subcode {
            copy_chunk(subcode, frame_num * sub, output, frame_num * frame + sector, sub);
        }
        proof {
            let from = frame_num * frame;
            assert forall|k: int| 0 <= k < from + frame implies output@[k] == reassembled_byte(
                audio@,
                subcode@,
                want_subcode,
                orig,
                k,
            ) by {
                if k >= from {
                    lemma_reassembled_byte(
                        audio@,
                        subcode@,
                        want_subcode,
                        orig,
                        frame_num as int,
                        k - from,
                    );
                } else {
                    assert(output@[k] == before[k]);
                }
            }
        }
        frame_num += 1;
    }
    proof {
        assert forall|k: int| 0 <= k < orig.len() implies output@[k] == reassembled_byte(
            audio@,
            subcode@,
            want_subcode,
            orig,
            k,
        ) by {
            if k >= total_frames * frame {
                lemma_reassembled_rest(audio@, subcode@, want_subcode, orig, k);
            }
        }
        assert(output@ =~= reassembled(audio@, subcode@, want_subcode, orig));
    }
    Ok(())
}

} // verus!
