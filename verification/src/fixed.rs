//! Fixed-point scalar arithmetic.
//!
//! Every real-valued quantity of the renderer (coordinates, radii, light
//! intensities, ray parameters) is a [`Fixed`]: an `i64` holding the value
//! scaled by [`FP_SCALE`].  All operations are total and deterministic:
//! results that would leave the representable range saturate at
//! plus or minus [`FP_MAX`] instead of wrapping, and division by zero
//! saturates with the sign of the dividend.  Each operation is specified
//! exactly by a spec function over mathematical integers.

use vstd::prelude::*;

verus! {

/// Number of raw units per 1.0; six decimal digits of fraction.
pub const FP_SCALE: i64 = 1_000_000;

/// Largest representable raw magnitude; the range is symmetric so that
/// negation never overflows.
pub const FP_MAX: i64 = i64::MAX;

/// A real number represented as `raw / FP_SCALE`.
#[derive(Clone, Copy, Debug, PartialEq, Eq, Structural)]
pub struct Fixed {
    pub raw: i64,
}

impl View for Fixed {
    type V = int;

    open spec fn view(&self) -> int {
        self.raw as int
    }
}


/// Three fixed-point numbers, the shape of a tuple value in a scene file.
#[derive(Clone, Copy, Debug, PartialEq, Eq, Structural)]
pub struct Triple {
    pub x: Fixed,
    pub y: Fixed,
    pub z: Fixed,
}

impl View for Triple {
    type V = (int, int, int);

    open spec fn view(&self) -> (int, int, int) {
        (self.x@, self.y@, self.z@)
    }
}

impl Triple {
    pub fn new(x: Fixed, y: Fixed, z: Fixed) -> (r: Triple)
        ensures
            r == (Triple { x, y, z }),
    {
        Triple { x, y, z }
    }
}

/// Magnitude of a mathematical integer.
pub open spec fn abs_int(a: int) -> int {
    if a < 0 { -a } else { a }
}

/// Saturation to the symmetric representable range.
pub open spec fn fp_clip(v: int) -> int {
    if v > FP_MAX as int {
        FP_MAX as int
    } else if v < -(FP_MAX as int) {
        -(FP_MAX as int)
    } else {
        v
    }
}

/// Division truncating toward zero, as the hardware divides.
pub open spec fn tdiv(a: int, b: int) -> int
    recommends
        b != 0,
{
    let q = abs_int(a) / abs_int(b);
    if (a < 0) != (b < 0) {
        -q
    } else {
        q
    }
}

pub open spec fn fp_add_spec(a: int, b: int) -> int {
    fp_clip(a + b)
}

pub open spec fn fp_sub_spec(a: int, b: int) -> int {
    fp_clip(a - b)
}

pub open spec fn fp_neg_spec(a: int) -> int {
    fp_clip(-a)
}

pub open spec fn fp_mul_spec(a: int, b: int) -> int {
    fp_clip(tdiv(a * b, FP_SCALE as int))
}

/// Division by zero saturates with the sign of the dividend, the
/// fixed-point counterpart of the infinities the formulas would produce
/// over the reals.
pub open spec fn fp_div_spec(a: int, b: int) -> int {
    if b == 0 {
        if a > 0 {
            FP_MAX as int
        } else if a < 0 {
            -(FP_MAX as int)
        } else {
            0
        }
    } else {
        fp_clip(tdiv(a * (FP_SCALE as int), b))
    }
}

/// Integer square root: the largest `r` with `r * r <= n`.
pub open spec fn isqrt_spec(n: nat) -> nat
    decreases n,
{
    if n == 0 {
        0
    } else {
        let r = isqrt_spec((n - 1) as nat);
        if (r + 1) * (r + 1) <= n {
            r + 1
        } else {
            r
        }
    }
}

/// Square root of a nonpositive value is taken as zero; the renderer
/// only applies it to nonnegative quantities.
pub open spec fn fp_sqrt_spec(a: int) -> int {
    if a <= 0 {
        0
    } else {
        isqrt_spec((a * (FP_SCALE as int)) as nat) as int
    }
}

pub proof fn lemma_isqrt_bounds(n: nat)
    ensures
        isqrt_spec(n) * isqrt_spec(n) <= n,
        n < (isqrt_spec(n) + 1) * (isqrt_spec(n) + 1),
    decreases n,
{
    if n == 0 {
        assert(n < (isqrt_spec(n) + 1) * (isqrt_spec(n) + 1)) by (nonlinear_arith)
            requires
                n == 0,
                isqrt_spec(n) == 0,
        ;
    } else {
        lemma_isqrt_bounds((n - 1) as nat);
        let r = isqrt_spec((n - 1) as nat);
        assert(isqrt_spec(n) == if (r + 1) * (r + 1) <= n {
            r + 1
        } else {
            r
        });
        if (r + 1) * (r + 1) <= n {
            assert(isqrt_spec(n) * isqrt_spec(n) <= n) by (nonlinear_arith)
                requires
                    isqrt_spec(n) == r + 1,
                    (r + 1) * (r + 1) <= n,
            ;
            assert(n < (isqrt_spec(n) + 1) * (isqrt_spec(n) + 1)) by (nonlinear_arith)
                requires
                    isqrt_spec(n) == r + 1,
                    n <= (r + 1) * (r + 1),
            ;
        } else {
            assert(isqrt_spec(n) * isqrt_spec(n) <= n) by (nonlinear_arith)
                requires
                    isqrt_spec(n) == r,
                    r * r <= n - 1,
            ;
            assert(n < (isqrt_spec(n) + 1) * (isqrt_spec(n) + 1)) by (nonlinear_arith)
                requires
                    isqrt_spec(n) == r,
                    !((r + 1) * (r + 1) <= n),
            ;
        }
    }
}

pub proof fn lemma_isqrt_unique(n: nat, r: nat)
    requires
        r * r <= n,
        n < (r + 1) * (r + 1),
    ensures
        r == isqrt_spec(n),
{
    let s = isqrt_spec(n);
    lemma_isqrt_bounds(n);
    if r < s {
        assert((r + 1) * (r + 1) <= s * s) by (nonlinear_arith)
            requires
                r + 1 <= s,
        ;
    }
    if s < r {
        assert((s + 1) * (s + 1) <= r * r) by (nonlinear_arith)
            requires
                s + 1 <= r,
        ;
    }
}

/// Magnitude of an `i64`, wide enough to hold `|i64::MIN|`.
fn abs64(v: i64) -> (r: u128)
    ensures
        r as int == abs_int(v as int),
{
    if v < 0 {
        (-(v as i128)) as u128
    } else {
        v as u128
    }
}

/// Saturate a wide intermediate back into the raw range.
fn clip_i128(v: i128) -> (r: i64)
    ensures
        r as int == fp_clip(v as int),
{
    if v > FP_MAX as i128 {
        FP_MAX
    } else if v < -(FP_MAX as i128) {
        -FP_MAX
    } else {
        v as i64
    }
}

/// Combine an unsigned magnitude and a sign, saturating.
pub(crate) fn clip_mag(mag: u128, neg: bool) -> (r: i64)
    ensures
        r as int == fp_clip(if neg { -(mag as int) } else { mag as int }),
{
    if mag > FP_MAX as u128 {
        if neg {
            -FP_MAX
        } else {
            FP_MAX
        }
    } else {
        if neg {
            -(mag as i64)
        } else {
            mag as i64
        }
    }
}

impl Fixed {
    pub fn from_raw(raw: i64) -> (r: Fixed)
        ensures
            r@ == raw as int,
    {
        Fixed { raw }
    }

    /// The fixed-point image of a small integer.
    pub fn from_int(v: i64) -> (r: Fixed)
        ensures
            r@ == fp_clip(v * (FP_SCALE as int)),
    {
        proof {
            assert(-0x8000_0000_0000_0000_0000_0000i128 <= (v as int) * (FP_SCALE as int)
                <= 0x8000_0000_0000_0000_0000_0000i128) by (nonlinear_arith)
                requires
                    -0x8000_0000_0000_0000i128 <= v as int <= 0x8000_0000_0000_0000i128,
                    FP_SCALE == 1_000_000,
            ;
        }
        let wide: i128 = (v as i128) * (FP_SCALE as i128);
        Fixed { raw: clip_i128(wide) }
    }

    pub fn zero() -> (r: Fixed)
        ensures
            r@ == 0,
    {
        Fixed { raw: 0 }
    }

    pub fn one() -> (r: Fixed)
        ensures
            r@ == FP_SCALE as int,
    {
        Fixed { raw: FP_SCALE }
    }

    pub fn add(self, other: Fixed) -> (r: Fixed)
        ensures
            r@ == fp_add_spec(self@, other@),
    {
        let wide: i128 = self.raw as i128 + other.raw as i128;
        Fixed { raw: clip_i128(wide) }
    }

    pub fn sub(self, other: Fixed) -> (r: Fixed)
        ensures
            r@ == fp_sub_spec(self@, other@),
    {
        let wide: i128 = self.raw as i128 - other.raw as i128;
        Fixed { raw: clip_i128(wide) }
    }

    pub fn neg(self) -> (r: Fixed)
        ensures
            r@ == fp_neg_spec(self@),
    {
        let wide: i128 = -(self.raw as i128);
        Fixed { raw: clip_i128(wide) }
    }

    pub fn mul(self, other: Fixed) -> (r: Fixed)
        ensures
            r@ == fp_mul_spec(self@, other@),
    {
        let neg: bool = (self.raw < 0) != (other.raw < 0);
        let ma: u128 = abs64(self.raw);
        let mb: u128 = abs64(other.raw);
        proof {
            lemma_abs_product(self.raw as int, other.raw as int);
            assert(ma * mb <= u128::MAX) by (nonlinear_arith)
                requires
                    ma as int == abs_int(self.raw as int),
                    mb as int == abs_int(other.raw as int),
                    abs_int(self.raw as int) <= 0x8000_0000_0000_0000,
                    abs_int(other.raw as int) <= 0x8000_0000_0000_0000,
            ;
        }
        let p: u128 = ma * mb;
        let q: u128 = p / (FP_SCALE as u128);
        let raw: i64 = clip_mag(q, neg && q > 0);
        proof {
            lemma_tdiv_by_sign(self.raw as int * other.raw as int, FP_SCALE as int);
        }
        Fixed { raw }
    }

    pub fn div(self, other: Fixed) -> (r: Fixed)
        ensures
            r@ == fp_div_spec(self@, other@),
    {
        if other.raw == 0 {
            if self.raw > 0 {
                Fixed { raw: FP_MAX }
            } else if self.raw < 0 {
                Fixed { raw: -FP_MAX }
            } else {
                Fixed { raw: 0 }
            }
        } else {
            let neg: bool = (self.raw < 0) != (other.raw < 0);
            let ma: u128 = abs64(self.raw);
            let mb: u128 = abs64(other.raw);
            proof {
                assert(ma * (FP_SCALE as u128) <= u128::MAX) by (nonlinear_arith)
                    requires
                        ma <= 0x8000_0000_0000_0000u128,
                        FP_SCALE == 1_000_000,
                ;
            }
            let wide: u128 = ma * (FP_SCALE as u128);
            let q: u128 = wide / mb;
            proof {
                lemma_abs_product(self.raw as int, FP_SCALE as int);
                lemma_tdiv_by_sign(self.raw as int * (FP_SCALE as int), other.raw as int);
            }
            let raw: i64 = clip_mag(q, neg && q > 0);
            Fixed { raw }
        }
    }

    pub fn sqrt(self) -> (r: Fixed)
        ensures
            r@ == fp_sqrt_spec(self@),
    {
        if self.raw <= 0 {
            Fixed { raw: 0 }
        } else {
            let n: u128 = (self.raw as u128) * (FP_SCALE as u128);
            let root: u128 = isqrt_u128(n);
            proof {
                lemma_isqrt_unique(n as nat, root as nat);
                assert(root < 0x8000_0000_0000_0000) by (nonlinear_arith)
                    requires
                        root * root <= n,
                        n < 0x8000_0000_0000_0000_0000_0000u128,
                ;
            }
            Fixed { raw: root as i64 }
        }
    }

    pub fn lt(self, other: Fixed) -> (r: bool)
        ensures
            r == (self@ < other@),
    {
        self.raw < other.raw
    }

    pub fn le(self, other: Fixed) -> (r: bool)
        ensures
            r == (self@ <= other@),
    {
        self.raw <= other.raw
    }

    /// Truncation to a pixel count: negative values give zero and
    /// overlarge ones saturate at `usize::MAX`.
    pub fn to_count(self) -> (r: usize)
        ensures
            r as int == fp_count_spec(self@),
    {
        if self.raw <= 0 {
            0
        } else {
            let q: u64 = (self.raw as u64) / (FP_SCALE as u64);
            if q > usize::MAX as u64 {
                usize::MAX
            } else {
                q as usize
            }
        }
    }
}

/// The whole-number part of a nonnegative value, capped at `usize::MAX`.
pub open spec fn fp_count_spec(a: int) -> int {
    if a <= 0 {
        0
    } else {
        let q = a / (FP_SCALE as int);
        if q > usize::MAX as int {
            usize::MAX as int
        } else {
            q
        }
    }
}

proof fn lemma_abs_product(a: int, b: int)
    ensures
        abs_int(a * b) == abs_int(a) * abs_int(b),
        (a * b < 0) <==> (abs_int(a) * abs_int(b) > 0 && ((a < 0) != (b < 0))),
{
    assert(abs_int(a * b) == abs_int(a) * abs_int(b) && ((a * b < 0) <==> (abs_int(a)
        * abs_int(b) > 0 && ((a < 0) != (b < 0))))) by (nonlinear_arith);
}

/// Relates truncating division of a signed value to division of magnitudes.
proof fn lemma_tdiv_by_sign(a: int, b: int)
    requires
        b != 0,
    ensures
        tdiv(a, b) == if (a < 0) != (b < 0) {
            -(abs_int(a) / abs_int(b))
        } else {
            abs_int(a) / abs_int(b)
        },
{
}

fn isqrt_u128(n: u128) -> (r: u128)
    ensures
        r * r <= n,
        n < (r + 1) * (r + 1),
{
    let mut lo: u128 = 0;
    let mut hi: u128 = 0x1_0000_0000_0000_0000;
    proof {
        assert(n < hi * hi) by (nonlinear_arith)
            requires
                hi == 0x1_0000_0000_0000_0000u128,
                n <= u128::MAX,
        ;
    }
    while lo + 1 < hi
        invariant
            lo * lo <= n,
            n < hi * hi,
            lo < hi,
            hi <= 0x1_0000_0000_0000_0000,
        decreases hi - lo,
    {
        let mid: u128 = lo + (hi - lo) / 2;
        proof {
            assert(mid * mid <= u128::MAX) by (nonlinear_arith)
                requires
                    mid < 0x1_0000_0000_0000_0000u128,
            ;
        }
        if mid * mid <= n {
            lo = mid;
        } else {
            hi = mid;
        }
    }
    lo
}

} // verus!

