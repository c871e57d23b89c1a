//! Axis-aligned bounding boxes and their corners.

use vstd::prelude::*;
use crate::vec3::Vec3;

verus! {

/// An axis-aligned box, given by its least and its greatest corner.
#[derive(Clone, Copy, Debug, PartialEq, Eq, Structural)]
pub struct AABB {
    pub min: Vec3,
    pub max: Vec3,
}

/// A walk over the eight corners of a box.
pub struct AABBIter {
    positions: [Vec3; 8],
    i: usize,
}

impl AABB {
    /// A box is well formed when `min` is at most `max` on every axis.
    pub open spec fn wf(self) -> bool {
        self.min.spec_le(self.max)
    }

    /// The eight corners, in the order in which `points` hands them out:
    /// `min`, `max`, then the six mixed corners.
    pub open spec fn corners(self) -> Seq<Vec3> {
        seq![
            self.min,
            self.max,
            Vec3 { x: self.min.x, y: self.min.y, z: self.max.z },
            Vec3 { x: self.min.x, y: self.max.y, z: self.min.z },
            Vec3 { x: self.min.x, y: self.max.y, z: self.max.z },
            Vec3 { x: self.max.x, y: self.min.y, z: self.max.z },
            Vec3 { x: self.max.x, y: self.max.y, z: self.min.z },
            Vec3 { x: self.max.x, y: self.min.y, z: self.min.z },
        ]
    }

    /// The box translated by `offset`, each coordinate clamped to the
    /// representable range.
    pub open spec fn spec_translated(self, offset: Vec3) -> AABB {
        AABB {
            min: offset.spec_saturating_add(self.min),
            max: offset.spec_saturating_add(self.max),
        }
    }

    /// The box between `min` and `max`.
    pub fn new(min: Vec3, max: Vec3) -> (r: AABB)
        requires
            min.spec_le(max),
        ensures
            r.min == min,
            r.max == max,
            r.wf(),
    {
        AABB { min, max }
    }

    /// A fresh walk over the corners of the box.
    pub fn points(&self) -> (it: AABBIter)
        ensures
            it.remaining() == self.corners(),
    {
        let points = [
            self.min,
            self.max,
            Vec3::new(self.min.x, self.min.y, self.max.z),
            Vec3::new(self.min.x, self.max.y, self.min.z),
            Vec3::new(self.min.x, self.max.y, self.max.z),
            Vec3::new(self.max.x, self.min.y, self.max.z),
            Vec3::new(self.max.x, self.max.y, self.min.z),
            Vec3::new(self.max.x, self.min.y, self.min.z),
        ];
        let it = AABBIter { positions: points, i: 0 };
        assert(it.remaining() =~= self.corners());
        it
    }

    /// The box translated by `offset`.  Translation keeps a well-formed box
    /// well formed, also where a coordinate is clamped.
    pub fn translated(&self, offset: Vec3) -> (r: AABB)
        ensures
            r == self.spec_translated(offset),
            self.wf() ==> r.wf(),
    {
        AABB { min: offset.saturating_add(self.min), max: offset.saturating_add(self.max) }
    }
}

impl AABBIter {
    #[verifier::type_invariant]
    spec fn inv(self) -> bool {
        self.i <= 8
    }

    /// The corners that have not been handed out yet, next one first.
    pub closed spec fn remaining(self) -> Seq<Vec3> {
        self.positions@.skip(self.i as int)
    }

    /// The next corner, or `None` once all eight have been handed out.
    pub fn next(&mut self) -> (r: Option<Vec3>)
        ensures
            old(self).remaining().len() > 0 ==> r == Some(old(self).remaining()[0])
                && final(self).remaining() == old(self).remaining().skip(1),
            old(self).remaining().len() == 0 ==> r.is_none() && final(self).remaining() == old(
                self,
            ).remaining(),
    {
        proof {
            use_type_invariant(&*self);
        }
        if self.i < 8 {
            self.i += 1;
            assert(self.remaining() =~= old(self).remaining().skip(1));
            return Some(self.positions[self.i - 1]);
        }
        None
    }
}

} // verus!
