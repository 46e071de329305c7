//! The three coordinate systems of the renderer, kept as distinct types:
//! real-valued world space, the integer canvas centered on the image
//! middle, and the integer screen with its origin at the top left.

use vstd::prelude::*;
use crate::fixed::{Fixed, Triple, fp_add_spec, fp_sub_spec, fp_mul_spec, fp_div_spec, fp_sqrt_spec};

verus! {

/// A position or direction in 3D world space.
#[derive(Clone, Copy, Debug, PartialEq, Eq, Structural)]
pub struct WorldCoordinate {
    pub x: Fixed,
    pub y: Fixed,
    pub z: Fixed,
}

/// The dot product as the fixed-point operations compute it: products of
/// the components, summed left to right.
pub open spec fn dot_spec(a: WorldCoordinate, b: WorldCoordinate) -> int {
    fp_add_spec(fp_add_spec(fp_mul_spec(a.x@, b.x@), fp_mul_spec(a.y@, b.y@)), fp_mul_spec(
        a.z@, b.z@))
}

/// The Euclidean norm: square root of the vector's dot product with itself.
pub open spec fn abs_spec(a: WorldCoordinate) -> int {
    fp_sqrt_spec(dot_spec(a, a))
}

pub open spec fn sub_spec(a: WorldCoordinate, b: WorldCoordinate) -> WorldCoordinate {
    WorldCoordinate {
        x: Fixed { raw: fp_sub_spec(a.x@, b.x@) as i64 },
        y: Fixed { raw: fp_sub_spec(a.y@, b.y@) as i64 },
        z: Fixed { raw: fp_sub_spec(a.z@, b.z@) as i64 },
    }
}

pub open spec fn add_vec_spec(a: WorldCoordinate, b: WorldCoordinate) -> WorldCoordinate {
    WorldCoordinate {
        x: Fixed { raw: fp_add_spec(a.x@, b.x@) as i64 },
        y: Fixed { raw: fp_add_spec(a.y@, b.y@) as i64 },
        z: Fixed { raw: fp_add_spec(a.z@, b.z@) as i64 },
    }
}

pub open spec fn scale_vec_spec(a: WorldCoordinate, s: int) -> WorldCoordinate {
    WorldCoordinate {
        x: Fixed { raw: fp_mul_spec(a.x@, s) as i64 },
        y: Fixed { raw: fp_mul_spec(a.y@, s) as i64 },
        z: Fixed { raw: fp_mul_spec(a.z@, s) as i64 },
    }
}

pub open spec fn div_vec_spec(a: WorldCoordinate, s: int) -> WorldCoordinate {
    WorldCoordinate {
        x: Fixed { raw: fp_div_spec(a.x@, s) as i64 },
        y: Fixed { raw: fp_div_spec(a.y@, s) as i64 },
        z: Fixed { raw: fp_div_spec(a.z@, s) as i64 },
    }
}

impl WorldCoordinate {
    pub fn new(x: Fixed, y: Fixed, z: Fixed) -> (r: WorldCoordinate)
        ensures
            r == (WorldCoordinate { x, y, z }),
    {
        WorldCoordinate { x, y, z }
    }

    /// The world origin, where the camera sits.
    pub fn origin() -> (r: WorldCoordinate)
        ensures
            r.x@ == 0 && r.y@ == 0 && r.z@ == 0,
    {
        WorldCoordinate { x: Fixed { raw: 0 }, y: Fixed { raw: 0 }, z: Fixed { raw: 0 } }
    }

    pub fn from_tuple(tuple: Triple) -> (r: WorldCoordinate)
        ensures
            r == (WorldCoordinate { x: tuple.x, y: tuple.y, z: tuple.z }),
    {
        WorldCoordinate { x: tuple.x, y: tuple.y, z: tuple.z }
    }

    pub fn dot(self, other: WorldCoordinate) -> (r: Fixed)
        ensures
            r@ == dot_spec(self, other),
    {
        self.x.mul(other.x).add(self.y.mul(other.y)).add(self.z.mul(other.z))
    }

    /// Euclidean length of the vector.
    pub fn abs(self) -> (r: Fixed)
        ensures
            r@ == abs_spec(self),
    {
        self.dot(self).sqrt()
    }

    pub fn sub(self, other: WorldCoordinate) -> (r: WorldCoordinate)
        ensures
            r == sub_spec(self, other),
    {
        WorldCoordinate {
            x: self.x.sub(other.x),
            y: self.y.sub(other.y),
            z: self.z.sub(other.z),
        }
    }

    pub fn add(self, other: WorldCoordinate) -> (r: WorldCoordinate)
        ensures
            r == add_vec_spec(self, other),
    {
        WorldCoordinate {
            x: self.x.add(other.x),
            y: self.y.add(other.y),
            z: self.z.add(other.z),
        }
    }

    /// Component-wise scaling by a fixed-point factor.
    pub fn mul(self, factor: Fixed) -> (r: WorldCoordinate)
        ensures
            r == scale_vec_spec(self, factor@),
    {
        WorldCoordinate {
            x: self.x.mul(factor),
            y: self.y.mul(factor),
            z: self.z.mul(factor),
        }
    }

    /// Component-wise division by a fixed-point factor.
    pub fn div(self, factor: Fixed) -> (r: WorldCoordinate)
        ensures
            r == div_vec_spec(self, factor@),
    {
        WorldCoordinate {
            x: self.x.div(factor),
            y: self.y.div(factor),
            z: self.z.div(factor),
        }
    }
}

/// An integer coordinate centered on the image middle; x grows rightward,
/// y grows upward.
#[derive(Clone, Copy, Debug, PartialEq, Eq, Structural)]
pub struct CanvasCoordinate {
    pub x: isize,
    pub y: isize,
}

impl CanvasCoordinate {
    pub fn new(x: isize, y: isize) -> (r: CanvasCoordinate)
        ensures
            r == (CanvasCoordinate { x, y }),
    {
        CanvasCoordinate { x, y }
    }
}

/// An integer pixel position with its origin at the top left and y growing
/// downward; a target outside the image is the representable `OffScreen`,
/// never an out-of-range write.
#[derive(Clone, Copy, Debug, PartialEq, Eq, Structural)]
pub enum ScreenCoordinate {
    OffScreen,
    OnScreen { x: usize, y: usize },
}

} // verus!
