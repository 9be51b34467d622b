//! Builder for a GPU-friendly bounding volume hierarchy (BVH).
//!
//! The crate turns an unordered list of renderable primitives into a binary
//! BVH and serialises that hierarchy into two flat arrays: a linear node
//! array and a reordered primitive array, both ready for texture-encoded
//! upload.  Geometry is carried as fixed-point `i64` coordinates so that
//! every step of the construction is exact; the thin front end that talks to
//! the graphics stack converts to and from its own floating-point scale.

pub mod aabb;
pub mod bvh;
pub mod linear;
pub mod object;
pub mod pack;
mod seqs;
pub mod utils;
