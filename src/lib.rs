//! A brute-force ray caster: one ray per pixel against boxes, planes and
//! triangles, the nearest hit turned into a gray level, the viewport rendered
//! cell by cell in parallel and merged into one RGBA8 frame.
//!
//! Geometry is exact: coordinates are integers, and a hit parameter is a
//! fraction, so every comparison the kernels make is decided without rounding.

pub mod box_shape;
pub mod camera;
pub mod depth;
pub mod plane_shape;
pub mod ray;
pub mod render;
pub mod shape;
pub mod triangle_shape;
pub mod vector;
