//! Decoding EV1527/PT2262 frames from the pulse widths of an OOK receiver.
//!
//! A fixed-code transmitter sends a short-high/long-low sync pulse, then 24
//! bits, each a high/low pulse pair with a roughly 1:3 or 3:1 ratio. Noise
//! rarely has that shape, so frames are only reported between two syncs
//! with exactly 24 clean bits in between.
use vstd::prelude::*;

verus! {

/// Shorter pulses are glitches (us).
pub const MIN_PULSE_US: u32 = 80;
/// A low pulse below this can't be a sync gap (us).
pub const SYNC_MIN_LOW_US: u32 = 1500;
/// Sync: the low pulse is at least this many times the high pulse before it.
pub const SYNC_RATIO: u32 = 8;
/// Cap on the bits a frame can collect.
pub const MAX_FRAME_BITS: u32 = 32;
/// Bits of an EV1527/PT2262 frame: 20 address bits, then 4 data bits.
pub const FRAME_BITS: u32 = 24;

/// `a * b`, or `u32::MAX` when the product does not fit.
pub open spec fn sat_mul(a: u32, b: u32) -> u32 {
    if a * b > u32::MAX { u32::MAX } else { (a * b) as u32 }
}

/// `u32::saturating_mul`.
pub fn saturating_mul_u32(a: u32, b: u32) -> (r: u32)
    ensures
        r == sat_mul(a, b),
{
    if b == 0 {
        0
    } else if a > u32::MAX / b {
        proof {
            assert(a * b > u32::MAX) by (nonlinear_arith)
                requires
                    a > u32::MAX / b,
                    b > 0,
            ;
        }
        u32::MAX
    } else {
        proof {
            assert(a * b <= u32::MAX) by (nonlinear_arith)
                requires
                    a <= u32::MAX / b,
                    b > 0,
            ;
        }
        a * b
    }
}

/// Decoder state between pulse pairs.
#[derive(Clone, Copy, PartialEq, Eq, Debug, Structural)]
pub struct PulseDecoder {
    pub code: u32,
    pub bit_count: u32,
    pub collecting: bool,
}

/// The decoder after the pulse pair (`high`, `low`) in microseconds, and the
/// frame it completes, if any. `clean_ratio` tells whether the longer pulse
/// is between 1.5 and 6 times the shorter one.
pub open spec fn decode_step(d: PulseDecoder, high: u32, low: u32, clean_ratio: bool) -> (PulseDecoder, Option<u32>) {
    if high < MIN_PULSE_US || low < MIN_PULSE_US {
        (PulseDecoder { collecting: false, ..d }, None)
    } else if low >= SYNC_MIN_LOW_US && low >= sat_mul(high, SYNC_RATIO) {
        (
            PulseDecoder { code: 0, bit_count: 0, collecting: true },
            if d.collecting && d.bit_count == FRAME_BITS { Some(d.code) } else { None },
        )
    } else if d.collecting {
        if clean_ratio && d.bit_count < MAX_FRAME_BITS {
            let bit: u32 = if high > low { 1 } else { 0 };
            (PulseDecoder { code: (d.code << 1u32) | bit, bit_count: (d.bit_count + 1) as u32, collecting: true }, None)
        } else {
            (PulseDecoder { collecting: false, ..d }, None)
        }
    } else {
        (d, None)
    }
}

impl PulseDecoder {
    /// Not collecting anything yet.
    pub fn new() -> (d: PulseDecoder)
        ensures
            d == (PulseDecoder { code: 0, bit_count: 0, collecting: false }),
    {
        PulseDecoder { code: 0, bit_count: 0, collecting: false }
    }

    /// Takes one pulse pair; returns the 24-bit frame it completes, if any.
    pub fn step(&mut self, high: u32, low: u32, clean_ratio: bool) -> (frame: Option<u32>)
        requires
            old(self).bit_count <= MAX_FRAME_BITS,
        ensures
            (*final(self), frame) == decode_step(*old(self), high, low, clean_ratio),
            final(self).bit_count <= MAX_FRAME_BITS,
    {
        if high < MIN_PULSE_US || low < MIN_PULSE_US {
            self.collecting = false;
            None
        } else if low >= SYNC_MIN_LOW_US && low >= saturating_mul_u32(high, SYNC_RATIO) {
            let frame = if self.collecting && self.bit_count == FRAME_BITS { Some(self.code) } else { None };
            self.code = 0;
            self.bit_count = 0;
            self.collecting = true;
            frame
        } else if self.collecting {
            if clean_ratio && self.bit_count < MAX_FRAME_BITS {
                let bit: u32 = if high > low { 1 } else { 0 };
                self.code = (self.code << 1u32) | bit;
                self.bit_count = self.bit_count + 1;
            } else {
                self.collecting = false;
            }
            None
        } else {
            None
        }
    }
}

/// A frame is only reported at a sync gap that ends exactly 24 collected bits.
pub proof fn law_frames_need_sync_and_24_bits(d: PulseDecoder, high: u32, low: u32, clean_ratio: bool)
    requires
        decode_step(d, high, low, clean_ratio).1 is Some,
    ensures
        d.collecting,
        d.bit_count == FRAME_BITS,
        low >= SYNC_MIN_LOW_US,
        high >= MIN_PULSE_US,
        decode_step(d, high, low, clean_ratio).1 == Some(d.code),
        decode_step(d, high, low, clean_ratio).0 == (PulseDecoder { code: 0, bit_count: 0, collecting: true }),
{
}

/// A glitch (a pulse shorter than MIN_PULSE_US) drops the frame in progress.
pub proof fn law_glitch_drops_frame(d: PulseDecoder, high: u32, low: u32, clean_ratio: bool)
    requires
        high < MIN_PULSE_US || low < MIN_PULSE_US,
    ensures
        !decode_step(d, high, low, clean_ratio).0.collecting,
        decode_step(d, high, low, clean_ratio).1 is None,
{
}

/// The address (top 20 bits) and data (low 4 bits) of a frame.
pub open spec fn split_code(code: u32) -> (u32, u8) {
    (code >> 4u32, (code & 0xfu32) as u8)
}

/// Splits a frame into its address and data value.
pub fn split_frame(code: u32) -> (r: (u32, u8))
    ensures
        r == split_code(code),
        r.1 < 16,
{
    let address = code >> 4u32;
    let low = code & 0xfu32;
    proof {
        assert(code & 0xfu32 <= 15) by (bit_vector);
    }
    (address, low as u8)
}

} // verus!
