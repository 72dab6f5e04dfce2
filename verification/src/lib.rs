//! Tile-based constrained procedural map generation.
//!
//! The library slices a sample image into fixed-size pixel fragments,
//! derives directional adjacency constraints between fragments by exact
//! pixel-overlap comparison (including rotational and reflective variants),
//! assembles a grid of constrained node positions, and reconstructs a full
//! output pixel grid once an external solver has chosen one fragment per
//! node.  The solver itself is an external collaborator: this crate builds
//! its input and consumes its output.

use vstd::prelude::*;

pub mod pixel;
pub mod fragment;
pub mod catalog;
pub mod constraints;
pub mod grid;
pub mod canvas;

verus! {

/// Every failure the generation pipeline can report.  Each variant is
/// produced by exactly one validation, stated in the `ensures` of the
/// function that returns it.
#[derive(Clone, Copy, PartialEq, Eq, Structural, Debug)]
pub enum GenError {
    /// A pixel grid handed in from outside is empty or not rectangular.
    InvalidPixelGrid,
    /// The requested fragment size is zero or larger than the sample image.
    InvalidFragmentSize,
    /// The catalog holds fragments of differing dimensions, so pairwise
    /// overlap testing is not defined.
    MixedFragmentSizes,
    /// The requested output is smaller than one fragment.
    InvalidOutputSize,
    /// A solver assignment has the wrong shape or holds a fragment of the
    /// wrong dimensions.
    MalformedAssignment,
}

} // verus!
