//! RGBA colors with channel-wise saturating arithmetic.

use vstd::prelude::*;
use crate::fixed::{Fixed, Triple, FP_SCALE, tdiv};

verus! {

/// Four bytes, red-green-blue-alpha.
#[derive(Clone, Copy, Debug, PartialEq, Eq)]
pub struct Color(pub [u8; 4]);

/// Clamp a mathematical integer into a byte channel.
pub open spec fn clamp_channel(v: int) -> int {
    if v > 255 {
        255
    } else if v < 0 {
        0
    } else {
        v
    }
}

/// What scaling one channel by a fixed-point factor yields: the exact
/// product, truncated to a whole number and clamped to `[0, 255]`.
pub open spec fn scale_channel_spec(a: int, factor: int) -> int {
    clamp_channel(tdiv(a * factor, FP_SCALE as int))
}

/// What a fixed-point channel value from a scene file becomes: truncated
/// toward zero and clamped to `[0, 255]`.
pub open spec fn to_channel_spec(v: int) -> int {
    clamp_channel(tdiv(v, FP_SCALE as int))
}

/// Saturating byte addition.
pub fn add_with_ceiling(a: u8, b: u8) -> (r: u8)
    ensures
        r as int == clamp_channel(a as int + b as int),
{
    let sum: u16 = (a as u16) + (b as u16);
    if sum > u8::MAX as u16 {
        u8::MAX
    } else {
        sum as u8
    }
}

/// Saturating scaling of a byte by a fixed-point factor; a nonpositive
/// factor darkens to zero, an overlarge product saturates at 255.
pub fn mul_with_ceiling(a: u8, factor: Fixed) -> (r: u8)
    ensures
        r as int == scale_channel_spec(a as int, factor@),
{
    if factor.raw <= 0 {
        proof {
            assert(a as int * factor@ <= 0 && (factor@ < 0 ==> crate::fixed::abs_int(
                a as int * factor@) == a as int * crate::fixed::abs_int(factor@))
                && a as int * crate::fixed::abs_int(factor@) >= 0) by (nonlinear_arith)
                requires
                    a >= 0,
                    factor@ <= 0,
            ;
        }
        0
    } else {
        proof {
            assert(a as int * factor@ == (a as u128) * (factor.raw as u128)
                && a as int * factor@ <= 0xFF_FFFF_FFFF_FFFF_FFFFu128) by (nonlinear_arith)
                requires
                    0 <= a as int <= 255,
                    0 < factor@ <= 0x8000_0000_0000_0000i128,
                    a as u128 == a as int,
                    factor.raw as u128 == factor@,
            ;
        }
        let p: u128 = (a as u128) * (factor.raw as u128);
        let q: u128 = p / (FP_SCALE as u128);
        if q > 255 {
            255
        } else {
            q as u8
        }
    }
}

impl Color {
    pub fn as_array(&self) -> (r: &[u8; 4])
        ensures
            *r == self.0,
    {
        &self.0
    }

    pub fn rgb(red: u8, green: u8, blue: u8) -> (c: Color)
        ensures
            c.0 == [red, green, blue, 255u8],
    {
        Color([red, green, blue, 255])
    }

    pub fn rgba(red: u8, green: u8, blue: u8, alpha: u8) -> (c: Color)
        ensures
            c.0 == [red, green, blue, alpha],
    {
        Color([red, green, blue, alpha])
    }

    pub fn black() -> (c: Color)
        ensures
            c.0 == [0u8, 0u8, 0u8, 255u8],
    {
        Color([0, 0, 0, 255])
    }

    pub fn red(&self) -> (r: u8)
        ensures
            r == self.0[0],
    {
        self.0[0]
    }

    pub fn green(&self) -> (r: u8)
        ensures
            r == self.0[1],
    {
        self.0[1]
    }

    pub fn blue(&self) -> (r: u8)
        ensures
            r == self.0[2],
    {
        self.0[2]
    }

    pub fn alpha(&self) -> (r: u8)
        ensures
            r == self.0[3],
    {
        self.0[3]
    }

    /// The color whose every channel is this one's scaled by `factor`,
    /// saturating channel-wise.
    pub fn scale(&self, factor: Fixed) -> (c: Color)
        ensures
            c == scale_spec(*self, factor@),
    {
        let red: u8 = mul_with_ceiling(self.0[0], factor);
        let green: u8 = mul_with_ceiling(self.0[1], factor);
        let blue: u8 = mul_with_ceiling(self.0[2], factor);
        let alpha: u8 = mul_with_ceiling(self.0[3], factor);
        Color([red, green, blue, alpha])
    }

    /// Channel-wise saturating addition of two colors.
    pub fn add(self, other: Color) -> (c: Color)
        ensures
            c.0 == [add_sat(self.0[0], other.0[0]), add_sat(self.0[1], other.0[1]), add_sat(
                self.0[2], other.0[2]), add_sat(self.0[3], other.0[3])],
    {
        Color(
            [
                add_with_ceiling(self.0[0], other.0[0]),
                add_with_ceiling(self.0[1], other.0[1]),
                add_with_ceiling(self.0[2], other.0[2]),
                add_with_ceiling(self.0[3], other.0[3]),
            ],
        )
    }

    /// A color from a fixed-point triple of a scene file; each component
    /// truncates toward zero and clamps into its byte channel.
    pub fn from_rgb_tuple(tuple: Triple) -> (c: Color)
        ensures
            c.0 == [to_channel_spec(tuple.x@) as u8, to_channel_spec(tuple.y@) as u8,
                to_channel_spec(tuple.z@) as u8, 255u8],
    {
        Color([to_channel(tuple.x), to_channel(tuple.y), to_channel(tuple.z), 255])
    }
}

pub open spec fn add_sat(a: u8, b: u8) -> u8 {
    clamp_channel(a as int + b as int) as u8
}

pub open spec fn scale_spec(c: Color, factor: int) -> Color {
    Color(
        [
            scale_channel_spec(c.0[0] as int, factor) as u8,
            scale_channel_spec(c.0[1] as int, factor) as u8,
            scale_channel_spec(c.0[2] as int, factor) as u8,
            scale_channel_spec(c.0[3] as int, factor) as u8,
        ],
    )
}

/// Truncate a fixed-point value into a byte channel.
pub fn to_channel(v: Fixed) -> (r: u8)
    ensures
        r as int == to_channel_spec(v@),
{
    if v.raw <= 0 {
        0
    } else {
        let q: u64 = (v.raw as u64) / (FP_SCALE as u64);
        if q > 255 {
            255
        } else {
            q as u8
        }
    }
}

/// Color scaling saturates instead of wrapping: with a factor of at least
/// one, a channel never comes out below its original value, and never
/// above 255.
pub proof fn lemma_scale_never_wraps(a: u8, factor: int)
    requires
        factor >= FP_SCALE as int,
    ensures
        a as int <= scale_channel_spec(a as int, factor) <= 255,
{
    let s = FP_SCALE as int;
    let p = a as int * factor;
    assert(a as int * factor >= a as int * (FP_SCALE as int) && a as int * factor >= 0)
        by (nonlinear_arith)
        requires
            factor >= FP_SCALE as int,
            FP_SCALE as int > 0,
            a >= 0,
    ;
    assert(crate::fixed::abs_int(p) == p && crate::fixed::abs_int(s) == s);
    assert(tdiv(p, s) == p / s);
    assert(a as int * s / s == a as int) by {
        vstd::arithmetic::div_mod::lemma_div_multiples_vanish(a as int, s);
        assert(s * (a as int) == a as int * s) by (nonlinear_arith);
    }
    assert(p / s >= a as int * s / s) by {
        vstd::arithmetic::div_mod::lemma_div_is_ordered(a as int * s, p, s);
    }
}

} // verus!
