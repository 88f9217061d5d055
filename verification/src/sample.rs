//! Sample and frame model.
//!
//! A sample is a signal amplitude in fixed point: `SAMPLE_UNIT` units stand
//! for an amplitude of 1.0.  Amplitudes are conventionally within
//! [-1.0, 1.0] but are not clamped here; clamping is an output-stage concern.
//! A frame is one sample per output channel, produced atomically once per
//! tick.

use vstd::prelude::*;

verus! {

/// A single signal amplitude, in fixed point (`SAMPLE_UNIT` = 1.0).
pub type Sample = i64;

/// Fixed-point scale: this many units stand for an amplitude of 1.0.
pub const SAMPLE_UNIT: i64 = 1_000_000;

/// Number of output channels; a frame holds exactly this many samples.
pub const CHANNELS: usize = 1;

/// One multi-channel output unit: exactly `CHANNELS` samples.
#[derive(Debug)]
pub struct Frame {
    pub samples: Vec<Sample>,
}

impl Frame {
    /// A frame always holds exactly one sample per channel.
    pub open spec fn wf(self) -> bool {
        self.samples@.len() == CHANNELS
    }
}

/// Absolute value, as a mathematical integer.
pub open spec fn abs_int(a: int) -> int {
    if a < 0 {
        -a
    } else {
        a
    }
}

/// Clamp a mathematical integer to the representable sample range.
pub open spec fn sat_i64(v: int) -> int {
    if v > i64::MAX {
        i64::MAX as int
    } else if v < i64::MIN {
        i64::MIN as int
    } else {
        v
    }
}

/// Saturating sum of two samples.
pub open spec fn add_samples(a: int, b: int) -> int {
    sat_i64(a + b)
}

/// Saturating difference of two samples.
pub open spec fn sub_samples(a: int, b: int) -> int {
    sat_i64(a - b)
}

/// Fixed-point product of two samples: magnitudes multiply, the result is
/// scaled back down by `SAMPLE_UNIT` (truncating toward zero), and the sign
/// follows the signs of the factors.  Saturates at the representable range.
pub open spec fn mul_samples(a: int, b: int) -> int {
    let m = abs_int(a) * abs_int(b) / (SAMPLE_UNIT as int);
    if (a < 0) == (b < 0) {
        sat_i64(m)
    } else {
        sat_i64(-m)
    }
}

/// Saturating fixed-point addition.
pub fn sample_add(a: Sample, b: Sample) -> (r: Sample)
    ensures
        r as int == add_samples(a as int, b as int),
{
    let s: i128 = a as i128 + b as i128;
    if s > i64::MAX as i128 {
        i64::MAX
    } else if s < i64::MIN as i128 {
        i64::MIN
    } else {
        s as i64
    }
}

/// Saturating fixed-point subtraction.
pub fn sample_sub(a: Sample, b: Sample) -> (r: Sample)
    ensures
        r as int == sub_samples(a as int, b as int),
{
    let s: i128 = a as i128 - b as i128;
    if s > i64::MAX as i128 {
        i64::MAX
    } else if s < i64::MIN as i128 {
        i64::MIN
    } else {
        s as i64
    }
}

/// Magnitude of a sample as an unsigned quantity.
fn sample_magnitude(a: Sample) -> (r: u64)
    ensures
        r as int == abs_int(a as int),
{
    if a >= 0 {
        a as u64
    } else {
        let wide: i128 = -(a as i128);
        wide as u64
    }
}

/// Saturating fixed-point multiplication (`SAMPLE_UNIT` is 1.0).
pub fn sample_mul(a: Sample, b: Sample) -> (r: Sample)
    ensures
        r as int == mul_samples(a as int, b as int),
{
    let ma = sample_magnitude(a);
    let mb = sample_magnitude(b);
    proof {
        assert(ma as int * mb as int <= 0x8000000000000000int * 0x8000000000000000int)
            by (nonlinear_arith)
            requires
                0 <= ma as int <= 0x8000000000000000int,
                0 <= mb as int <= 0x8000000000000000int,
        ;
    }
    let p: u128 = (ma as u128) * (mb as u128);
    let q: u128 = p / (SAMPLE_UNIT as u128);
    let negative = (a < 0) != (b < 0);
    if negative {
        if q > (i64::MAX as u128) + 1 {
            i64::MIN
        } else {
            (-(q as i128)) as i64
        }
    } else {
        if q > i64::MAX as u128 {
            i64::MAX
        } else {
            q as i64
        }
    }
}

} // verus!
