//! Small geometric value types shared by the mesh pipeline.

use vstd::prelude::*;

verus! {

/// An unsigned integer position in volume space.
#[derive(Clone, Copy, Debug, PartialEq, Eq, Structural)]
pub struct Vec3 {
    pub x: u32,
    pub y: u32,
    pub z: u32,
}

impl Vec3 {
    pub fn new(x: u32, y: u32, z: u32) -> (r: Self)
        ensures
            r.x == x,
            r.y == y,
            r.z == z,
    {
        Self { x, y, z }
    }
}

/// A signed integer triple; axis-aligned unit normals use it with
/// components in -1..=1.
#[derive(Clone, Copy, Debug, PartialEq, Eq, Structural)]
pub struct IVec3 {
    pub x: i32,
    pub y: i32,
    pub z: i32,
}

impl IVec3 {
    pub fn new(x: i32, y: i32, z: i32) -> (r: Self)
        ensures
            r.x == x,
            r.y == y,
            r.z == z,
    {
        Self { x, y, z }
    }
}

/// One corner of a triangulated face: 1-based indices into the mesh's
/// position, texture-coordinate and normal tables.
#[derive(Clone, Copy, Debug, PartialEq, Eq, Structural)]
pub struct FaceVertex {
    pub v: usize,
    pub vt: usize,
    pub vn: usize,
}

impl FaceVertex {
    pub fn new(v: usize, vt: usize, vn: usize) -> (r: Self)
        ensures
            r.v == v,
            r.vt == vt,
            r.vn == vn,
    {
        Self { v, vt, vn }
    }
}

pub type Face = [FaceVertex; 3];

} // verus!
