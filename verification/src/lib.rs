//! Conversion of color-indexed voxel models into textured polygonal
//! surface meshes.
//!
//! The pipeline builds a padded dense voxel volume from a sparse voxel
//! list, extracts and greedily merges the visible boundary faces into
//! maximal axis-aligned quads per material, and assembles those quads
//! into a deduplicated mesh serialized to a line-oriented text format.
//! A scene graph of transform, group and shape nodes is walked into a
//! plan of directories and mesh files, and the model's color table is
//! turned into small palette lookup images.

pub mod math;
pub mod error;
pub mod model;
pub mod volume;
pub mod extract;
pub mod area;
pub mod surface;
pub mod obj;
pub mod palette;
pub mod convert;
pub mod scene;
