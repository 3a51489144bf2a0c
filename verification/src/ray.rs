//! Rays: an origin and a direction, which need not have unit length.
use vstd::prelude::*;
use crate::fixed::Fixed;
use crate::vec3::Vector3;

verus! {

/// The half-line `origin + t * direction`.
#[derive(Clone, Copy, PartialEq, Eq, Structural, Debug)]
pub struct Ray {
    pub origin: Vector3,
    pub direction: Vector3,
}

impl Ray {
    /// The point at parameter `t`.
    pub open spec fn at_spec(self, t: Fixed) -> Vector3 {
        self.origin.plus(self.direction.scaled(t))
    }

    /// The placeholder ray: from the origin, with no direction.
    pub fn none() -> (r: Ray)
        ensures
            r == (Ray { origin: Vector3::of_raw(0, 0, 0), direction: Vector3::of_raw(0, 0, 0) }),
    {
        Ray { origin: Vector3::zero(), direction: Vector3::zero() }
    }

    /// The point at parameter `t`.
    pub fn at(&self, t: Fixed) -> (r: Vector3)
        ensures
            r == self.at_spec(t),
    {
        self.origin + self.direction * t
    }
}

} // verus!
