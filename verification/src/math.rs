//! Integer vectors.

use vstd::prelude::*;

verus! {

/// A three-component integer vector; the coordinate type of the voxel
/// grid.
#[allow(non_camel_case_types)]
#[derive(Clone, Copy, PartialEq, Eq, Structural, Debug)]
pub struct ivec3 {
    pub x: i32,
    pub y: i32,
    pub z: i32,
}

impl ivec3 {
    pub fn new(x: i32, y: i32, z: i32) -> (v: ivec3)
        ensures
            v == (ivec3 { x, y, z }),
    {
        ivec3 { x, y, z }
    }

    /// Component-wise sum.
    pub fn add(&self, rhs: &ivec3) -> (v: ivec3)
        requires
            i32::MIN <= self.x + rhs.x <= i32::MAX,
            i32::MIN <= self.y + rhs.y <= i32::MAX,
            i32::MIN <= self.z + rhs.z <= i32::MAX,
        ensures
            v.x == self.x + rhs.x,
            v.y == self.y + rhs.y,
            v.z == self.z + rhs.z,
    {
        ivec3 { x: self.x + rhs.x, y: self.y + rhs.y, z: self.z + rhs.z }
    }

    /// Component-wise difference.
    pub fn sub(&self, rhs: &ivec3) -> (v: ivec3)
        requires
            i32::MIN <= self.x - rhs.x <= i32::MAX,
            i32::MIN <= self.y - rhs.y <= i32::MAX,
            i32::MIN <= self.z - rhs.z <= i32::MAX,
        ensures
            v.x == self.x - rhs.x,
            v.y == self.y - rhs.y,
            v.z == self.z - rhs.z,
    {
        ivec3 { x: self.x - rhs.x, y: self.y - rhs.y, z: self.z - rhs.z }
    }

    /// Scales every component by `f`.
    pub fn mul(&self, f: i32) -> (v: ivec3)
        requires
            i32::MIN <= self.x * f <= i32::MAX,
            i32::MIN <= self.y * f <= i32::MAX,
            i32::MIN <= self.z * f <= i32::MAX,
        ensures
            v.x == self.x * f,
            v.y == self.y * f,
            v.z == self.z * f,
    {
        ivec3 { x: self.x * f, y: self.y * f, z: self.z * f }
    }
}

} // verus!
