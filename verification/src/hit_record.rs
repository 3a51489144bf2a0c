//! The outcome of one intersection test.
use vstd::prelude::*;
use crate::fixed::Fixed;
use crate::material::Material;
use crate::vec3::Vector3;

verus! {

/// Where a ray met a surface, if it did.
#[derive(Clone, Copy, PartialEq, Eq, Structural, Debug)]
pub struct HitRecord {
    /// Whether the ray met the surface; the other fields carry no meaning
    /// where it did not.
    pub hit: bool,
    /// The ray parameter of the meeting point.
    pub t: Fixed,
    pub point: Vector3,
    /// The surface normal, turned against the incoming ray.
    pub normal: Vector3,
    /// Whether the ray came from outside the surface.
    pub is_front_face: bool,
    pub material: Material,
}

impl HitRecord {
    /// The record of a miss that carries the parameter `t`.
    pub open spec fn miss(t: Fixed) -> HitRecord {
        HitRecord {
            hit: false,
            t,
            point: Vector3::of_raw(0, 0, 0),
            normal: Vector3::of_raw(0, 0, 0),
            is_front_face: true,
            material: Material::NONE,
        }
    }

    /// The record of a miss.
    pub fn no_hit() -> (r: HitRecord)
        ensures
            r == HitRecord::miss(Fixed { raw: 0 }),
    {
        HitRecord {
            hit: false,
            t: Fixed::zero(),
            point: Vector3::zero(),
            normal: Vector3::zero(),
            is_front_face: true,
            material: Material::NONE,
        }
    }
}

} // verus!
