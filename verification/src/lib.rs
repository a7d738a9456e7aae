//! Core of a sphere path tracer, split along what a verifier can hold.
//!
//! The floating-point light transport (camera rays, sphere intersection,
//! material scattering, the recursive radiance estimate) lives outside this
//! library; what stands here is everything the renderer decides or assembles
//! over exact values: clamping, command-line format selection, decimal
//! parsing and formatting, the row-major pixel buffer, the PPM document,
//! and the PNG byte stream obtained through the `image` crate.

pub mod color;
pub mod math;
pub mod png;
pub mod ppm;
pub mod utility;
