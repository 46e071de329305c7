//! Lights and the Lambertian contribution each makes at a surface point.

use vstd::prelude::*;
use crate::fixed::{Fixed, FP_SCALE, FP_MAX, fp_mul_spec, fp_div_spec, tdiv,
    lemma_isqrt_unique};
use crate::coord::{WorldCoordinate, dot_spec, abs_spec, sub_spec};

verus! {

/// A light source; `intensity` is its nonnegative strength.
#[derive(Clone, Copy, Debug, PartialEq, Eq, Structural)]
pub enum Light {
    Point { position: WorldCoordinate, intensity: Fixed },
    Direction { direction: WorldCoordinate, intensity: Fixed },
    Ambient { intensity: Fixed },
}

/// The cosine-normalized Lambertian term: zero when the surface faces away
/// from the light, else `intensity * n_dot_l / (|normal| * |light|)`.
pub open spec fn directional_intensity_spec(
    direction: WorldCoordinate,
    normal: WorldCoordinate,
    intensity: int,
) -> int {
    let n_dot_l = dot_spec(normal, direction);
    if n_dot_l > 0 {
        fp_div_spec(
            fp_mul_spec(intensity, n_dot_l),
            fp_mul_spec(abs_spec(normal), abs_spec(direction)),
        )
    } else {
        0
    }
}

/// What one light contributes at a point with the given surface normal:
/// ambient light unconditionally, a directional light along its fixed
/// direction, a point light along the vector from the point to it.  Point
/// lights do not attenuate with distance beyond the cosine term.
pub open spec fn illumination_spec(
    light: Light,
    point: WorldCoordinate,
    normal: WorldCoordinate,
) -> int {
    match light {
        Light::Ambient { intensity } => intensity@,
        Light::Direction { direction, intensity } => directional_intensity_spec(
            direction,
            normal,
            intensity@,
        ),
        Light::Point { position, intensity } => directional_intensity_spec(
            sub_spec(position, point),
            normal,
            intensity@,
        ),
    }
}

/// The Lambertian term as the fixed-point operations compute it.
pub fn directional_intensity(
    direction: WorldCoordinate,
    surface_normal: WorldCoordinate,
    intensity: Fixed,
) -> (r: Fixed)
    ensures
        r@ == directional_intensity_spec(direction, surface_normal, intensity@),
{
    let n_dot_l = surface_normal.dot(direction);
    if Fixed::zero().lt(n_dot_l) {
        intensity.mul(n_dot_l).div(surface_normal.abs().mul(direction.abs()))
    } else {
        Fixed::zero()
    }
}

impl Light {
    /// This light's contribution at `point` with surface normal
    /// `surface_normal`.
    pub fn illumination_at_point(
        self,
        point: WorldCoordinate,
        surface_normal: WorldCoordinate,
    ) -> (r: Fixed)
        ensures
            r@ == illumination_spec(self, point, surface_normal),
    {
        match self {
            Light::Ambient { intensity } => intensity,
            Light::Direction { direction, intensity } => directional_intensity(
                direction,
                surface_normal,
                intensity,
            ),
            Light::Point { position, intensity } => directional_intensity(
                position.sub(point),
                surface_normal,
                intensity,
            ),
        }
    }

    pub fn ambient(intensity: Fixed) -> (r: Light)
        ensures
            r == (Light::Ambient { intensity }),
    {
        Light::Ambient { intensity }
    }

    pub fn point(position: WorldCoordinate, intensity: Fixed) -> (r: Light)
        ensures
            r == (Light::Point { position, intensity }),
    {
        Light::Point { position, intensity }
    }

    pub fn direction(direction: WorldCoordinate, intensity: Fixed) -> (r: Light)
        ensures
            r == (Light::Direction { direction, intensity }),
    {
        Light::Direction { direction, intensity }
    }
}

/// A light pointing away from, or grazing along, the surface contributes
/// exactly nothing.
pub proof fn lemma_backfacing_light_contributes_nothing(
    direction: WorldCoordinate,
    normal: WorldCoordinate,
    intensity: int,
)
    requires
        dot_spec(normal, direction) <= 0,
    ensures
        directional_intensity_spec(direction, normal, intensity) == 0,
{
}

/// A directional light shining straight along a unit surface normal
/// contributes its intensity exactly: `n_dot_l` equals
/// `|normal| * |direction|`, so the cosine factor is one.
pub proof fn lemma_directional_light_along_normal(normal: WorldCoordinate, intensity: int)
    requires
        dot_spec(normal, normal) == FP_SCALE as int,
        0 <= intensity <= FP_MAX as int,
    ensures
        directional_intensity_spec(normal, normal, intensity) == intensity,
{
    let s = FP_SCALE as int;
    assert(crate::fixed::fp_sqrt_spec(s) == s) by {
        assert(s * s == 1000000000000) by (nonlinear_arith)
            requires
                s == 1000000,
        ;
        assert((s + 1) * (s + 1) == 1000002000001) by (nonlinear_arith)
            requires
                s == 1000000,
        ;
        lemma_isqrt_unique((s * s) as nat, s as nat);
    }
    assert(abs_spec(normal) == s);
    assert(tdiv(s * s, s) == s) by {
        vstd::arithmetic::div_mod::lemma_div_multiples_vanish(s, s);
        assert(crate::fixed::abs_int(s * s) == s * s) by (nonlinear_arith)
            requires
                s > 0,
        ;
        assert((s * s) / s == s) by {
            assert(s * s == s * s);
            vstd::arithmetic::div_mod::lemma_div_multiples_vanish(s, s);
        }
    }
    assert(fp_mul_spec(s, s) == s);
    assert(tdiv(intensity * s, s) == intensity) by {
        vstd::arithmetic::div_mod::lemma_div_multiples_vanish(intensity, s);
        assert(crate::fixed::abs_int(intensity * s) == intensity * s) by (nonlinear_arith)
            requires
                s > 0,
                intensity >= 0,
        ;
        assert(s * intensity == intensity * s) by (nonlinear_arith);
    }
    assert(fp_mul_spec(intensity, s) == intensity);
    assert(fp_div_spec(intensity, s) == intensity);
}

} // verus!
