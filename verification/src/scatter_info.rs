//! The outcome of one material evaluation.
use vstd::prelude::*;
use crate::ray::Ray;
use crate::vec3::Vector3;

verus! {

/// What a surface did with a ray.
#[derive(Clone, Copy, PartialEq, Eq, Structural, Debug)]
pub struct ScatterInfo {
    /// Whether the ray goes on; it was absorbed otherwise.
    pub does_scatter: bool,
    /// The colour by which the surface multiplies the light of the path.
    pub attenuation: Vector3,
    pub scattered_ray: Ray,
}

impl ScatterInfo {
    /// The outcome of an absorption.
    pub open spec fn absorbed() -> ScatterInfo {
        ScatterInfo {
            does_scatter: false,
            attenuation: Vector3::of_raw(0, 0, 0),
            scattered_ray: Ray { origin: Vector3::of_raw(0, 0, 0), direction: Vector3::of_raw(0, 0, 0) },
        }
    }

    /// The outcome of an absorption.
    pub fn no_scatter() -> (r: ScatterInfo)
        ensures
            r == ScatterInfo::absorbed(),
    {
        ScatterInfo { does_scatter: false, attenuation: Vector3::zero(), scattered_ray: Ray::none() }
    }
}

} // verus!
