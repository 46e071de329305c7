//! Spheres and the quadratic ray/sphere intersection.

use vstd::prelude::*;
use crate::fixed::{Fixed, fp_mul_spec, fp_sub_spec, fp_add_spec, fp_neg_spec, fp_div_spec,
    fp_sqrt_spec, FP_SCALE};
use crate::coord::{WorldCoordinate, dot_spec, sub_spec};
use crate::color::Color;

verus! {

/// A sphere with its base color.
#[derive(Clone, Copy, Debug, PartialEq, Eq)]
pub struct Sphere {
    pub radius: Fixed,
    pub center: WorldCoordinate,
    pub color: Color,
}

/// The fixed-point value of two.
pub open spec fn fp_two() -> int {
    2 * (FP_SCALE as int)
}

/// The fixed-point value of four.
pub open spec fn fp_four() -> int {
    4 * (FP_SCALE as int)
}

/// Where a ray from `camera` along `d` meets the sphere: the two roots
/// `(-b +- sqrt(disc)) / 2a` of the quadratic, or nothing when the
/// discriminant is negative and the sphere is missed.
pub open spec fn intersect_spec(s: Sphere, camera: WorldCoordinate, d: WorldCoordinate) -> Option<
    (int, int),
> {
    let co = sub_spec(camera, s.center);
    let a = dot_spec(d, d);
    let b = fp_mul_spec(fp_two(), dot_spec(co, d));
    let c = fp_sub_spec(dot_spec(co, co), fp_mul_spec(s.radius@, s.radius@));
    let disc = fp_sub_spec(fp_mul_spec(b, b), fp_mul_spec(fp_mul_spec(fp_four(), a), c));
    if disc < 0 {
        None
    } else {
        let root = fp_sqrt_spec(disc);
        let t1 = fp_div_spec(fp_add_spec(fp_neg_spec(b), root), fp_mul_spec(fp_two(), a));
        let t2 = fp_div_spec(fp_sub_spec(fp_neg_spec(b), root), fp_mul_spec(fp_two(), a));
        Some((t1, t2))
    }
}

impl Sphere {
    pub fn new(radius: Fixed, center: WorldCoordinate, color: Color) -> (r: Sphere)
        ensures
            r == (Sphere { radius, center, color }),
    {
        Sphere { radius, center, color }
    }

    pub fn color(self) -> (r: Color)
        ensures
            r == self.color,
    {
        self.color
    }

    pub fn center(self) -> (r: WorldCoordinate)
        ensures
            r == self.center,
    {
        self.center
    }

    /// The two ray parameters at which the ray meets this sphere, or
    /// `None` for a miss.
    pub fn intersect_ray(&self, camera: WorldCoordinate, viewport: WorldCoordinate) -> (r: Option<
        (Fixed, Fixed),
    >)
        ensures
            match intersect_spec(*self, camera, viewport) {
                None => r is None,
                Some(p) => r matches Some(q) && q.0@ == p.0 && q.1@ == p.1,
            },
    {
        let two = Fixed::from_raw(2 * FP_SCALE);
        let four = Fixed::from_raw(4 * FP_SCALE);
        let vec_co = camera.sub(self.center);
        let a = viewport.dot(viewport);
        let b = two.mul(vec_co.dot(viewport));
        let c = vec_co.dot(vec_co).sub(self.radius.mul(self.radius));
        let disc = b.mul(b).sub(four.mul(a).mul(c));
        if disc.lt(Fixed::zero()) {
            None
        } else {
            let root = disc.sqrt();
            let t1 = b.neg().add(root).div(two.mul(a));
            let t2 = b.neg().sub(root).div(two.mul(a));
            Some((t1, t2))
        }
    }
}

} // verus!
