//! Points and displacements in three dimensions.

use vstd::prelude::*;
use crate::fixed::Fixed;

verus! {

/// A point of the simulated space.
#[derive(Clone, Copy, Debug, PartialEq, Eq, Structural)]
pub struct Vec3 {
    pub x: Fixed,
    pub y: Fixed,
    pub z: Fixed,
}

impl Vec3 {
    /// The point with the given coordinates.
    pub fn new(x: Fixed, y: Fixed, z: Fixed) -> (r: Vec3)
        ensures
            r == (Vec3 { x, y, z }),
    {
        Vec3 { x, y, z }
    }

    /// The point with the given whole-number coordinates.
    pub open spec fn from_ints_spec(x: i16, y: i16, z: i16) -> Vec3 {
        Vec3 {
            x: Fixed { raw: (x * 65536) as i32 },
            y: Fixed { raw: (y * 65536) as i32 },
            z: Fixed { raw: (z * 65536) as i32 },
        }
    }

    /// The point with the given whole-number coordinates.
    pub fn from_ints(x: i16, y: i16, z: i16) -> (r: Vec3)
        ensures
            r == Self::from_ints_spec(x, y, z),
    {
        Vec3 { x: Fixed::from_int(x), y: Fixed::from_int(y), z: Fixed::from_int(z) }
    }

    /// Whether every coordinate of `self` is at most that of `rhs`.
    pub open spec fn spec_le(self, rhs: Vec3) -> bool {
        &&& self.x.raw <= rhs.x.raw
        &&& self.y.raw <= rhs.y.raw
        &&& self.z.raw <= rhs.z.raw
    }

    /// Whether every coordinate of `self` is at most that of `rhs`.
    pub fn le(&self, rhs: &Vec3) -> (r: bool)
        ensures
            r == self.spec_le(*rhs),
    {
        self.x.le(&rhs.x) && self.y.le(&rhs.y) && self.z.le(&rhs.z)
    }

    /// The coordinate-wise sum, each coordinate clamped to the representable
    /// range.
    pub open spec fn spec_saturating_add(self, rhs: Vec3) -> Vec3 {
        Vec3 {
            x: Fixed { raw: crate::fixed::clamp_raw(self.x.raw + rhs.x.raw) as i32 },
            y: Fixed { raw: crate::fixed::clamp_raw(self.y.raw + rhs.y.raw) as i32 },
            z: Fixed { raw: crate::fixed::clamp_raw(self.z.raw + rhs.z.raw) as i32 },
        }
    }

    /// The coordinate-wise sum, each coordinate clamped to the representable
    /// range.
    pub fn saturating_add(self, rhs: Vec3) -> (r: Vec3)
        ensures
            r == self.spec_saturating_add(rhs),
    {
        Vec3 {
            x: self.x.saturating_add(rhs.x),
            y: self.y.saturating_add(rhs.y),
            z: self.z.saturating_add(rhs.z),
        }
    }
}

} // verus!
