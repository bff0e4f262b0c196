//! FLAC frames and the reader that decodes them.
use claxon::frame::FrameReader;
use std::io::Cursor;
use vstd::prelude::*;

verus! {

/// One decoded FLAC frame.
pub struct FlacFrame {
    /// The number of channels of the frame.
    pub channels: u32,
    /// The number of samples of each channel.
    pub block_size: u32,
    /// The samples, channel after channel.
    pub samples: Vec<i32>,
    /// The offset in the input of the first byte after the frame.
    pub end: usize,
}

/// A decoded FLAC frame as a value.
pub struct FrameView {
    pub channels: nat,
    pub block_size: nat,
    pub samples: Seq<i32>,
    pub end: nat,
}

impl View for FlacFrame {
    type V = FrameView;

    open spec fn view(&self) -> FrameView {
        FrameView {
            channels: self.channels as nat,
            block_size: self.block_size as nat,
            samples: self.samples@,
            end: self.end as nat,
        }
    }
}

/// The low byte of the 16 bits a sample is cut down to when it is written.
pub open spec fn sample_low(s: i32) -> u8 {
    (s as int % 256) as u8
}

/// The high byte of the 16 bits a sample is cut down to when it is written.
pub open spec fn sample_high(s: i32) -> u8 {
    ((s as int / 256) % 256) as u8
}

impl FlacFrame {
    /// Whether the frame, read at `pos` in an input of `input_len` bytes,
    /// ends further on within the input.
    pub fn ends_within(&self, pos: usize, input_len: usize) -> (r: bool)
        ensures
            r == self@.ends_within(pos as nat, input_len as nat),
    {
        pos < self.end && self.end <= input_len
    }
}

impl FrameView {
    /// The frame, read at `pos` in an input of `input_len` bytes, ends
    /// further on within the input.
    pub open spec fn ends_within(self, pos: nat, input_len: nat) -> bool {
        pos < self.end <= input_len
    }

    /// The frame holds as many samples as its header announces.
    pub open spec fn complete(self) -> bool {
        self.samples.len() == self.channels * self.block_size
    }

    /// The sample of channel `c` at instant `g` of the frame.
    pub open spec fn sample(self, c: int, g: int) -> i32 {
        self.samples[c * self.block_size + g]
    }

    /// Byte `k` of the frame written as interleaved 16-bit PCM: the
    /// instants follow each other, each with one sample per channel, each
    /// sample with its two bytes in the given order.
    pub open spec fn byte(self, k: int, big: bool) -> u8 {
        let slot = k / 2;
        let s = self.sample(slot % (self.channels as int), slot / (self.channels as int));
        if (k % 2 == 0) == big {
            sample_high(s)
        } else {
            sample_low(s)
        }
    }

    /// The frame written as interleaved 16-bit PCM.
    pub open spec fn bytes(self, big: bool) -> Seq<u8> {
        Seq::new(self.block_size * self.channels * 2, |k: int| self.byte(k, big))
    }
}

/// What the frame reader of `claxon` makes of the bytes of `input` from
/// `pos` on: the frame it decodes, or `None` where the input ends there or
/// the reader reports an error.
pub uninterp spec fn flac_frame(input: Seq<u8>, pos: nat) -> Option<FrameView>;

/// Calls `FrameReader::read_next_or_eof` of `claxon` on a reader that
/// stands at `pos` in `input`, and hands out the decoded block as plain
/// values: `channels()`, `duration()`, `into_buffer()`, and the position of
/// the reader afterwards.
///
/// The contract claims that the outcome is a function of the input and the
/// position, named by `flac_frame`, whatever `buffer` holds: the reader
/// keeps no state between frames and overwrites the buffer.
#[verifier::external_body]
pub(crate) fn read_frame(input: &[u8], pos: usize, buffer: Vec<i32>) -> (r: Option<FlacFrame>)
    ensures
        match flac_frame(input@, pos as nat) {
            Some(f) => r matches Some(frame) && frame@ == f,
            None => r is None,
        },
{
    let mut cursor = Cursor::new(input);
    cursor.set_position(pos as u64);
    let mut reader = FrameReader::new(cursor);
    let block = reader.read_next_or_eof(buffer).ok()??;
    let end = reader.into_inner().position() as usize;
    let (channels, block_size) = (block.channels(), block.duration());
    Some(FlacFrame { channels, block_size, samples: block.into_buffer(), end })
}

} // verus!
