//! The discrete core of a recursive ray tracer.
//!
//! Every decision that a ray tracer takes between two pieces of arithmetic
//! lives here: which crossing of a ray is the visible hit, which media a ray
//! travels through at a boundary, whether a secondary ray is traced at all,
//! which terms light a point, what the text of a mesh says and whether its
//! faces are well formed, how matrices are laid out, and where a pixel lands
//! in the frame buffer. Real numbers are carried by their IEEE-754 binary32
//! bit pattern; they are compared and their sign is read or turned, and
//! nothing else is computed with them.

pub mod canvas;
pub mod geometry;
pub mod intersection;
pub mod material;
pub mod mesh;
pub mod pattern;
pub mod scalar;
pub mod search;
pub mod shape;
pub mod util;
pub mod world;
