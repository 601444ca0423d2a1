//! Verified core of a small offline renderer: the Wavefront OBJ reader that
//! turns mesh text into vertex and face records, the resolution of faces into
//! triangles, and the top-down construction of the bounding-volume hierarchy.
use vstd::prelude::*;

pub mod bvh;
pub mod mesh;
pub mod obj;

verus! {

} // verus!
