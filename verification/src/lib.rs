//! A Monte Carlo path tracer for scenes of spheres, over saturating
//! fixed-point arithmetic.
use vstd::prelude::*;

pub mod camera;
pub mod color_util;
pub mod fixed;
pub mod hit_record;
pub mod material;
pub mod mirror;
pub mod ray;
pub mod renderer;
pub mod sampling;
pub mod scatter_info;
pub mod scene;
pub mod scheduler;
pub mod sphere;
pub mod surface;
pub mod texture;
pub mod unit;
pub mod vec3;

verus! {

/// Width of the rendered image, in pixels.
pub const IMAGE_WIDTH: u32 = 1920;

/// Height of the rendered image, in pixels.
pub const IMAGE_HEIGHT: u32 = 1080;

/// How many bounces a path may take before its light is dropped.
pub const MAX_RAY_TRACE_DEPTH: u32 = 50;

/// How many paths are averaged per pixel where the caller does not say.
pub const DEFAULT_SAMPLES_PER_PIXEL: u32 = 100;

} // verus!
