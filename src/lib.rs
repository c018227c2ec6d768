//! Mesh topology for a small 3D renderer: the corner layout and triangle
//! lists of an axis-aligned box, and the vertex plan and triangle lists of a
//! latitude/longitude sphere.
//!
//! Coordinates are left generic (box) or expressed in whole angular steps
//! (sphere), so that everything here is exact; turning them into floats is
//! the caller's business.
pub mod box_mesh;
pub mod mesh;
pub mod sphere;
pub mod viewport;
