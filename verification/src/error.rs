//! Conversion errors. Every error is fatal to the run that raised it:
//! there is no retry and no partial-output mode.

use vstd::prelude::*;

verus! {

/// A structural failure of the conversion.
#[derive(Clone, Copy, Debug, PartialEq, Eq, Structural)]
pub enum Error {
    /// The input holds no model.
    EmptyModel,
    /// Single-model conversion was asked of an input with more than
    /// one model.
    TooManyModels,
    /// The scene graph violates the tree shape the walker assumes: a
    /// transform not followed by a group or shape, a node index out
    /// of range, a cycle, or an animation frame without a resolvable
    /// frame index.
    InvalidSceneGraph,
}

} // verus!
