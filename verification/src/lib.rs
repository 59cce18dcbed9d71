//! Verified core of a Gaussian-splat viewer: the PLY splat-file parser, the
//! keyboard and mouse control logic, and the surface bookkeeping of the renderer.
pub mod controls;
pub mod ply;
pub mod surface;
pub mod text;

