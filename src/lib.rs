//! Verified core of a terminal path tracer.
//!
//! The geometry and shading run on floating-point numbers and live with the
//! program around this library; what is proved here is the discrete logic
//! they are driven by:
//!
//! - `bvh`: the bounding-volume hierarchy, its midpoint build and its pruned
//!   nearest-hit search, shown to agree with a linear scan;
//! - `integrator`: the bounce-limited recursion of the path tracer;
//! - `framebuffer`: the image grid and the order in which pixels are shaded;
//! - `encode`: PPM bytes, braille dot patterns and the ASCII ramp;
//! - `progress`: when the displayed percentage of a render changes;
//! - `config`: render settings and their names.
use vstd::prelude::*;

pub mod bvh;
pub mod config;
pub mod encode;
pub mod framebuffer;
pub mod integrator;
pub mod progress;

verus! {

} // verus!
