//! The decoded voxel-file data model: sparse voxel models, the color
//! and material tables, and the scene graph of transform, group and
//! shape nodes.

use vstd::prelude::*;
use crate::math::Vec3;

verus! {

/// One sparse voxel: coordinates inside the model's bounding box and a
/// color-table index.
#[derive(Clone, Copy, Debug, PartialEq, Eq, Structural)]
pub struct SparseVoxel {
    pub x: u8,
    pub y: u8,
    pub z: u8,
    pub i: u8,
}

/// A voxel model: a bounding-box size and the sparse voxel list.
#[derive(Clone, Debug)]
pub struct Model {
    pub size: Vec3,
    pub voxels: Vec<SparseVoxel>,
}

impl Model {
    /// Every voxel lies inside the bounding box, and the padded volume
    /// (two extra cells per axis) fits in an addressable allocation.
    pub open spec fn wf(self) -> bool {
        &&& forall|k: int|
            0 <= k < self.voxels@.len() ==> {
                &&& (#[trigger] self.voxels@[k]).x < self.size.x
                &&& self.voxels@[k].y < self.size.y
                &&& self.voxels@[k].z < self.size.z
            }
        &&& (self.size.x + 2) * (self.size.z + 2) * (self.size.y + 2) <= usize::MAX
    }

    /// Runtime test of `wf`, for callers that receive a model from an
    /// unverified decoder.
    pub fn check(&self) -> (r: bool)
        ensures
            r == self.wf(),
    {
        proof {
            let a = self.size.x as int + 2;
            let b = self.size.z as int + 2;
            let c = self.size.y as int + 2;
            assert(a * b <= 0x2_0000_0000 * 0x2_0000_0000 && a * b * c <= 0x2_0000_0000
                * 0x2_0000_0000 * 0x2_0000_0000) by (nonlinear_arith)
                requires
                    2 <= a <= 0x2_0000_0000,
                    2 <= b <= 0x2_0000_0000,
                    2 <= c <= 0x2_0000_0000,
            ;
        }
        let p: u128 = (self.size.x as u128 + 2) * (self.size.z as u128 + 2) * (self.size.y
            as u128 + 2);
        if p > usize::MAX as u128 {
            return false;
        }
        let mut k: usize = 0;
        while k < self.voxels.len()
            invariant
                k <= self.voxels@.len(),
                forall|j: int|
                    0 <= j < k ==> {
                        &&& (#[trigger] self.voxels@[j]).x < self.size.x
                        &&& self.voxels@[j].y < self.size.y
                        &&& self.voxels@[j].z < self.size.z
                    },
            decreases self.voxels@.len() - k,
        {
            let v = self.voxels[k];
            if !((v.x as u32) < self.size.x && (v.y as u32) < self.size.y && (v.z as u32)
                < self.size.z) {
                return false;
            }
            k += 1;
        }
        true
    }
}

/// One RGBA entry of the 256-entry color table.
#[derive(Clone, Copy, Debug, PartialEq, Eq, Structural)]
pub struct Color {
    pub r: u8,
    pub g: u8,
    pub b: u8,
    pub a: u8,
}

/// Optional per-entry material properties, each already quantized to
/// the 0..=255 range that the palette images store. `id` is the
/// 1-based color-table slot the entry refers to.
#[derive(Clone, Copy, Debug, PartialEq, Eq, Structural)]
pub struct Material {
    pub id: u32,
    pub metalness: Option<u8>,
    pub roughness: Option<u8>,
    pub emission: Option<u8>,
}

/// One model reference of a shape node, with the animation frame index
/// it is assigned to, when the file declares one.
#[derive(Clone, Copy, Debug, PartialEq, Eq, Structural)]
pub struct ShapeModel {
    pub model_id: u32,
    pub frame_index: Option<u32>,
}

/// A scene graph node. The graph is a tree whose legal transitions are
/// transform-to-group and transform-to-shape; nodes refer to each
/// other by index into the scene list.
#[derive(Clone, Debug)]
pub enum SceneNode {
    Transform { name: Option<String>, child: u32 },
    Group { children: Vec<u32> },
    Shape { models: Vec<ShapeModel> },
}

/// Everything the conversion consumes from a decoded voxel file.
#[derive(Clone, Debug)]
pub struct VoxData {
    pub models: Vec<Model>,
    pub scenes: Vec<SceneNode>,
    pub palette: Vec<Color>,
    pub materials: Vec<Material>,
}

impl VoxData {
    /// All models are well-formed.
    pub open spec fn wf(self) -> bool {
        forall|k: int| 0 <= k < self.models@.len() ==> (#[trigger] self.models@[k]).wf()
    }

    /// Runtime test of `wf`, for callers that receive data from an
    /// unverified decoder.
    pub fn check(&self) -> (r: bool)
        ensures
            r == self.wf(),
    {
        let mut k: usize = 0;
        while k < self.models.len()
            invariant
                k <= self.models@.len(),
                forall|j: int| 0 <= j < k ==> (#[trigger] self.models@[j]).wf(),
            decreases self.models@.len() - k,
        {
            if !self.models[k].check() {
                return false;
            }
            k += 1;
        }
        true
    }
}

} // verus!
