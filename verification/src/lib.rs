//! A verified software 3D renderer core.
//!
//! Geometry is carried in Q47.16 fixed-point scalars (an `i64` raw value
//! denotes `raw / ONE`), so every arithmetic step has an exact integer
//! meaning that contracts can state and Verus can check.  The host supplies
//! trigonometric values (sines, cosines, focal factors) as fixed-point
//! numbers; everything downstream of them — vector and matrix algebra, mesh
//! pose updates, perspective projection, culling, and scanline
//! rasterization into a pixel surface — is verified here.

pub mod camera;
pub mod fixed;
pub mod graphics;
pub mod matrix;
pub mod mesh;
pub mod surface;
pub mod triangle;
pub mod vector3;
