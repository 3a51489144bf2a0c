//! The camera: from image coordinates to rays, with depth of field.
use vstd::prelude::*;
use crate::fixed::{Fixed, SCALE};
use crate::ray::Ray;
use crate::vec3::Vector3;
use crate::{IMAGE_HEIGHT, IMAGE_WIDTH};

verus! {

/// A camera, fixed once built.
#[derive(Clone, Copy, PartialEq, Eq, Structural, Debug)]
pub struct Camera {
    pub look_from: Vector3,
    pub upper_left_corner: Vector3,
    pub horizontal_direction: Vector3,
    pub vertical_direction: Vector3,
    pub up_vector: Vector3,
    pub right_vector: Vector3,
    pub aperture: Fixed,
}

impl Camera {
    /// Width over height of the image.
    pub open spec fn aspect_ratio_spec() -> Fixed {
        Fixed::whole(IMAGE_WIDTH as int).over(Fixed::whole(IMAGE_HEIGHT as int))
    }

    /// The direction in which the camera looks: from `look_from` to
    /// `look_at`, normalized.
    pub open spec fn forward_spec(look_from: Vector3, look_at: Vector3) -> Vector3 {
        look_at.minus(look_from).normalized_spec()
    }

    /// World up cross forward: what is normalized to the direction to the
    /// camera's right. It is the zero vector where the camera looks
    /// straight up or down.
    pub open spec fn sideways_spec(look_from: Vector3, look_at: Vector3) -> Vector3 {
        Vector3::of_raw(0, SCALE as int, 0).cross_spec(Camera::forward_spec(look_from, look_at))
    }

    /// The direction to the camera's right: world up cross forward,
    /// normalized.
    pub open spec fn right_spec(look_from: Vector3, look_at: Vector3) -> Vector3 {
        Camera::sideways_spec(look_from, look_at).normalized_spec()
    }

    /// Forward cross right: what is normalized to the camera's own upward
    /// direction.
    pub open spec fn upward_spec(look_from: Vector3, look_at: Vector3) -> Vector3 {
        Camera::forward_spec(look_from, look_at).cross_spec(Camera::right_spec(look_from, look_at))
    }

    /// The camera's own upward direction: forward cross right, normalized.
    pub open spec fn up_spec(look_from: Vector3, look_at: Vector3) -> Vector3 {
        Camera::upward_spec(look_from, look_at).normalized_spec()
    }

    /// The height of the viewport at distance one: twice the tangent of
    /// half the field of view.
    pub open spec fn viewport_height_spec(half_fov_tangent: Fixed) -> Fixed {
        half_fov_tangent.times(Fixed { raw: 2_000_000_000 })
    }

    /// The width of the viewport at distance one.
    pub open spec fn viewport_width_spec(half_fov_tangent: Fixed) -> Fixed {
        Camera::viewport_height_spec(half_fov_tangent).times(Camera::aspect_ratio_spec())
    }

    /// The camera that `new` builds.
    pub open spec fn new_spec(
        look_from: Vector3,
        look_at: Vector3,
        half_fov_tangent: Fixed,
        aperture: Fixed,
        focus_distance: Fixed,
    ) -> Camera {
        let half = Fixed { raw: 500_000_000 };
        let forward = Camera::forward_spec(look_from, look_at);
        let right = Camera::right_spec(look_from, look_at);
        let up = Camera::up_spec(look_from, look_at);
        let horizontal = right.scaled(Camera::viewport_width_spec(half_fov_tangent)).scaled(
            focus_distance,
        );
        let vertical = up.scaled(Camera::viewport_height_spec(half_fov_tangent)).scaled(
            focus_distance,
        );
        Camera {
            look_from,
            upper_left_corner: look_from.minus(
                horizontal.scaled(half).plus(vertical.scaled(half)).plus(
                    forward.scaled(focus_distance),
                ),
            ),
            horizontal_direction: horizontal,
            vertical_direction: vertical,
            up_vector: up,
            right_vector: right,
            aperture,
        }
    }

    /// Whether the upper left corner lies where the frame puts it: half the
    /// viewport to the left of and above the point `ahead` of the eye, in
    /// the camera's sign convention.
    pub open spec fn is_framed(self, ahead: Vector3) -> bool {
        let half = Fixed { raw: 500_000_000 };
        self.upper_left_corner == self.look_from.minus(
            self.horizontal_direction.scaled(half).plus(self.vertical_direction.scaled(half)).plus(
                ahead,
            ),
        )
    }

    /// Where on the lens a ray starts, relative to `look_from`: the
    /// sample, shrunk to half the aperture, is read as a point of the lens
    /// plane.
    pub open spec fn lens_offset_spec(self, sample: Vector3) -> Vector3 {
        let shrunk = sample.scaled(self.aperture.times(Fixed { raw: 500_000_000 }));
        self.up_vector.scaled(shrunk.y).plus(self.right_vector.scaled(shrunk.x))
    }

    /// The point of the focus plane at the image coordinates `(u, v)`,
    /// where `(0, 0)` is the upper left corner.
    pub open spec fn target_spec(self, u: Fixed, v: Fixed) -> Vector3 {
        self.upper_left_corner.plus(
            self.horizontal_direction.scaled(u).minus(self.vertical_direction.scaled(v)),
        )
    }

    /// The ray through the image coordinates `(u, v)` that starts at the
    /// lens point for `sample`.
    pub open spec fn ray_spec(self, u: Fixed, v: Fixed, sample: Vector3) -> Ray {
        let origin = self.look_from.plus(self.lens_offset_spec(sample));
        Ray { origin, direction: self.target_spec(u, v).minus(origin) }
    }

    /// Builds a camera at `look_from` that looks at `look_at`.
    /// `half_fov_tangent` is the tangent of half the vertical field of view.
    pub fn new(
        look_from: Vector3,
        look_at: Vector3,
        half_fov_tangent: Fixed,
        aperture: Fixed,
        focus_distance: Fixed,
    ) -> (camera: Camera)
        ensures
            camera == Camera::new_spec(look_from, look_at, half_fov_tangent, aperture, focus_distance),
            camera.is_framed(Camera::forward_spec(look_from, look_at).scaled(focus_distance)),
            look_at != look_from ==> Camera::forward_spec(look_from, look_at).is_unit(),
            Camera::sideways_spec(look_from, look_at).square_sum() != 0
                ==> camera.right_vector.is_unit(),
            look_at != look_from ==> camera.right_vector.y.raw == 0 && -2 <= Camera::forward_spec(
                look_from,
                look_at,
            ).dot_spec(camera.right_vector).raw <= 2,
            look_at != look_from && Camera::sideways_spec(look_from, look_at).square_sum() != 0
                ==> camera.up_vector.is_unit() && -24 <= Camera::forward_spec(
                look_from,
                look_at,
            ).dot_spec(camera.up_vector).raw <= 24 && -24 <= camera.right_vector.dot_spec(
                camera.up_vector,
            ).raw <= 24,
    {
        proof {
            if look_at != look_from {
                look_at.minus(look_from).lemma_difference_is_symmetric(look_at, look_from);
                look_at.minus(look_from).lemma_normalized_is_unit();
                Camera::lemma_right_is_level_and_square(Camera::forward_spec(look_from, look_at));
                if Camera::sideways_spec(look_from, look_at).square_sum() != 0 {
                    Camera::lemma_up_is_square(Camera::forward_spec(look_from, look_at));
                }
            }
        }
        let aspect_ratio: Fixed = Fixed::from_int(IMAGE_WIDTH as i32) / Fixed::from_int(
            IMAGE_HEIGHT as i32,
        );
        let half = Fixed::from_raw(500_000_000);
        let viewport_height: Fixed = half_fov_tangent * Fixed::from_int(2);
        let viewport_width: Fixed = viewport_height * aspect_ratio;
        let forward: Vector3 = (look_at - look_from).normalized();
        let right: Vector3 = Vector3::up().cross(&forward).normalized();
        let up: Vector3 = forward.cross(&right).normalized();
        let horizontal_direction: Vector3 = right * viewport_width * focus_distance;
        let vertical_direction: Vector3 = up * viewport_height * focus_distance;
        let upper_left_corner: Vector3 = look_from - (horizontal_direction * half
            + vertical_direction * half + forward * focus_distance);
        Camera {
            look_from,
            upper_left_corner,
            horizontal_direction,
            vertical_direction,
            up_vector: up,
            right_vector: right,
            aperture,
        }
    }

    /// The ray through `(u, v)` for a given lens sample; see
    /// [`Camera::ray_spec`].
    pub fn ray_through(&self, u: Fixed, v: Fixed, sample: Vector3) -> (ray: Ray)
        ensures
            ray == self.ray_spec(u, v, sample),
    {
        let random: Vector3 = sample * (self.aperture * Fixed::from_raw(500_000_000));
        let offset: Vector3 = self.up_vector * random.y + self.right_vector * random.x;
        let origin: Vector3 = self.look_from + offset;
        let target: Vector3 = self.upper_left_corner + (self.horizontal_direction * u
            - self.vertical_direction * v);
        Ray { direction: target - origin, origin }
    }

    /// A ray through the image coordinates `(u, v)`, from a random point of
    /// the lens. With an aperture of zero the lens is a point, and the ray
    /// is the same whatever is drawn.
    pub fn get_ray(&self, u: Fixed, v: Fixed) -> (ray: Ray)
        ensures
            exists|sample: Vector3| sample.is_unit_sample() && ray == #[trigger] self.ray_spec(u, v, sample),
            self.aperture.raw == 0 ==> ray == self.ray_spec(u, v, Vector3::of_raw(0, 0, 0)),
            self.up_vector.is_unit() && self.right_vector.is_unit() && 0 <= self.aperture.raw
                ==> exists|offset: Vector3|
                ray.origin == self.look_from.plus(offset) && -self.aperture.raw <= offset.x.raw
                    <= self.aperture.raw && -self.aperture.raw <= offset.y.raw <= self.aperture.raw
                    && -self.aperture.raw <= offset.z.raw <= self.aperture.raw,
    {
        let sample = Vector3::random_unit_vector();
        proof {
            if self.up_vector.is_unit() && self.right_vector.is_unit() && 0 <= self.aperture.raw {
                self.lemma_lens_offset_bound(sample);
            }
            self.lemma_pinhole_ignores_sample(u, v, sample, Vector3::of_raw(0, 0, 0));
        }
        self.ray_through(u, v, sample)
    }

    /// The ray through the centre of the image of a pinhole camera starts
    /// at `look_from` and runs against the sum of the vertical extent of the
    /// viewport and of `ahead`, the step from the eye to the focus plane.
    /// The vertical extent enters as twice its rounded half. The vectors
    /// involved are asked to be moderate, so that no sum reaches the bounds.
    pub proof fn lemma_centre_ray(self, ahead: Vector3, sample: Vector3)
        requires
            self.aperture.raw == 0,
            self.is_framed(ahead),
            self.look_from.is_moderate(),
            self.horizontal_direction.is_moderate(),
            self.vertical_direction.is_moderate(),
            ahead.is_moderate(),
        ensures
            self.ray_spec(Fixed { raw: 500_000_000 }, Fixed { raw: 500_000_000 }, sample).origin
                == self.look_from,
            self.ray_spec(Fixed { raw: 500_000_000 }, Fixed { raw: 500_000_000 }, sample).direction
                == self.vertical_direction.scaled(Fixed { raw: 500_000_000 }).plus(
                self.vertical_direction.scaled(Fixed { raw: 500_000_000 }),
            ).plus(ahead).negated(),
    {
        let half = Fixed { raw: 500_000_000 };
        self.lemma_pinhole_ignores_sample(half, half, sample, Vector3::of_raw(0, 0, 0));
        let none = Fixed { raw: 0 };
        none.lemma_times_zero();
        self.up_vector.x.lemma_times_zero();
        self.up_vector.y.lemma_times_zero();
        self.up_vector.z.lemma_times_zero();
        self.right_vector.x.lemma_times_zero();
        self.right_vector.y.lemma_times_zero();
        self.right_vector.z.lemma_times_zero();
        self.aperture.lemma_times_exact(half, 0);
        assert(self.lens_offset_spec(Vector3::of_raw(0, 0, 0)) == Vector3::of_raw(0, 0, 0));
        half.lemma_times_fraction_of(self.horizontal_direction.x);
        half.lemma_times_fraction_of(self.horizontal_direction.y);
        half.lemma_times_fraction_of(self.horizontal_direction.z);
        half.lemma_times_fraction_of(self.vertical_direction.x);
        half.lemma_times_fraction_of(self.vertical_direction.y);
        half.lemma_times_fraction_of(self.vertical_direction.z);
    }

    /// The centre ray of a pinhole camera whose viewport has no vertical
    /// extent is a multiple of the camera's forward direction: it runs along
    /// the view axis. With a vertical extent the ray through `(0.5, 0.5)`
    /// also runs against that extent, as `lemma_centre_ray` says, and is
    /// then no multiple of the forward direction.
    pub proof fn lemma_centre_ray_along_view_axis(
        self,
        forward: Vector3,
        focus_distance: Fixed,
        sample: Vector3,
    )
        requires
            self.aperture.raw == 0,
            self.is_framed(forward.scaled(focus_distance)),
            self.vertical_direction.scaled(Fixed { raw: 500_000_000 }) == Vector3::of_raw(0, 0, 0),
            self.look_from.is_moderate(),
            self.horizontal_direction.is_moderate(),
            self.vertical_direction.is_moderate(),
            forward.scaled(focus_distance).is_moderate(),
            crate::fixed::RAW_MIN <= focus_distance.raw,
        ensures
            self.ray_spec(
                Fixed { raw: 500_000_000 },
                Fixed { raw: 500_000_000 },
                sample,
            ).direction.is_multiple_of(forward),
    {
        let half = Fixed { raw: 500_000_000 };
        self.lemma_centre_ray(forward.scaled(focus_distance), sample);
        forward.x.lemma_times_negated(focus_distance);
        forward.y.lemma_times_negated(focus_distance);
        forward.z.lemma_times_negated(focus_distance);
        assert(self.ray_spec(half, half, sample).direction == forward.scaled(
            focus_distance.negated(),
        ));
    }

    /// The direction to the right of a unit vector is level and square to
    /// it: world up cross `forward`, normalized, has no upward component,
    /// and its dot product with `forward` is at most two raw units in
    /// magnitude.
    pub proof fn lemma_right_is_level_and_square(forward: Vector3)
        requires
            forward.is_unit(),
        ensures
            Vector3::of_raw(0, SCALE as int, 0).cross_spec(forward) == (Vector3 {
                x: forward.z,
                y: Fixed { raw: 0 },
                z: forward.x.negated(),
            }),
            Vector3::of_raw(0, SCALE as int, 0).cross_spec(forward).normalized_spec().y.raw == 0,
            -2 <= forward.dot_spec(
                Vector3::of_raw(0, SCALE as int, 0).cross_spec(forward).normalized_spec(),
            ).raw <= 2,
    {
        let s = SCALE as int;
        let one = Fixed { raw: SCALE };
        let none = Fixed { raw: 0 };
        let sideways = Vector3::of_raw(0, SCALE as int, 0).cross_spec(forward);
        forward.x.lemma_times_zero();
        forward.y.lemma_times_zero();
        forward.z.lemma_times_zero();
        assert(one.raw * forward.z.raw == forward.z.raw * SCALE && one.raw * forward.x.raw
            == forward.x.raw * SCALE) by (nonlinear_arith)
            requires
                one.raw == SCALE,
        ;
        one.lemma_times_exact(forward.z, forward.z.raw as int);
        one.lemma_times_exact(forward.x, forward.x.raw as int);
        assert(sideways == (Vector3 { x: forward.z, y: none, z: forward.x.negated() }));
        let right = sideways.normalized_spec();
        assert(sideways.x.raw * sideways.x.raw >= 0 && sideways.z.raw * sideways.z.raw >= 0
            && sideways.y.raw * sideways.y.raw == 0) by (nonlinear_arith)
            requires
                sideways.y.raw == 0,
        ;
        if sideways.square_sum() != 0 {
            sideways.lemma_unit_part_bracket(sideways.x);
            sideways.lemma_unit_part_bracket(sideways.y);
            sideways.lemma_unit_part_bracket(sideways.z);
            let k = sideways.magnifier();
            let l = sideways.unit_divisor();
            let a = vstd::math::abs(forward.z.raw as int) as int;
            let b = vstd::math::abs(forward.x.raw as int) as int;
            let q1 = sideways.unit_magnitude(sideways.x);
            let q2 = sideways.unit_magnitude(sideways.z);
            assert(sideways.unit_magnitude(sideways.y) == 0) by {
                assert(vstd::math::abs(0) * k * SCALE == 0) by (nonlinear_arith);
                vstd::arithmetic::div_mod::lemma_div_basics(l);
            }
            crate::unit::lemma_crosswise(s, k, l, a, b, q1, q2);
            let first = forward.x.raw * right.x.raw;
            let second = forward.z.raw * right.z.raw;
            // The two products have opposite signs and the magnitudes b q1
            // and a q2.
            assert(first + second == b * q1 - a * q2 || first + second == a * q2 - b * q1)
                by (nonlinear_arith)
                requires
                    first == forward.x.raw * right.x.raw,
                    second == forward.z.raw * right.z.raw,
                    a == vstd::math::abs(forward.z.raw as int),
                    b == vstd::math::abs(forward.x.raw as int),
                    right.x.raw == if forward.z.raw < 0 {
                        -q1
                    } else {
                        q1
                    },
                    right.z.raw == if -forward.x.raw < 0 {
                        -q2
                    } else {
                        q2
                    },
            ;
            assert(-s <= first + second <= s);
            crate::mirror::lemma_product_bound(forward.x.raw as int, right.x.raw as int, s, s);
            crate::mirror::lemma_product_bound(forward.z.raw as int, right.z.raw as int, s, s);
            forward.x.lemma_times_rounding(right.x, s);
            forward.z.lemma_times_rounding(right.z, s);
            assert(right.y.raw == 0);
            assert(forward.y.times(right.y).raw == 0);
            let t1 = forward.x.times(right.x).raw;
            let t2 = forward.z.times(right.z).raw;
            assert(-3 * s < s * (t1 + t2) < 3 * s);
            assert(-2 <= t1 + t2 <= 2);
        } else {
            assert(sideways.x.raw == 0 && sideways.z.raw == 0) by (nonlinear_arith)
                requires
                    sideways.x.raw * sideways.x.raw + sideways.y.raw * sideways.y.raw
                        + sideways.z.raw * sideways.z.raw == 0,
                    sideways.y.raw == 0,
            ;
            assert(right == Vector3::of_raw(0, 0, 0));
        }
    }

    /// The cross product of a unit vector with the direction to its right
    /// is at least half a unit long, unless the vector points straight up
    /// or down.
    pub proof fn lemma_upward_is_long(forward: Vector3)
        requires
            forward.is_unit(),
            Vector3::of_raw(0, SCALE as int, 0).cross_spec(forward).square_sum() != 0,
        ensures
            SCALE * SCALE <= 4 * forward.cross_spec(
                Vector3::of_raw(0, SCALE as int, 0).cross_spec(forward).normalized_spec(),
            ).square_sum(),
            Vector3::of_raw(0, SCALE as int, 0).cross_spec(forward).normalized_spec().is_unit(),
            Vector3::of_raw(0, SCALE as int, 0).cross_spec(forward).normalized_spec().y.raw == 0,
    {
        let s = SCALE as int;
        let sideways = Vector3::of_raw(0, SCALE as int, 0).cross_spec(forward);
        let right = sideways.normalized_spec();
        let upward = forward.cross_spec(right);
        Camera::lemma_right_is_level_and_square(forward);
        sideways.lemma_normalized_is_unit();
        right.lemma_unit_length();
        forward.lemma_unit_length();
        sideways.lemma_component_squares();
        sideways.lemma_unit_part_bracket(sideways.x);
        sideways.lemma_unit_part_bracket(sideways.z);
        let k = sideways.magnifier();
        let l = sideways.unit_divisor();
        let a = vstd::math::abs(forward.z.raw as int) as int;
        let b = vstd::math::abs(forward.x.raw as int) as int;
        let y = vstd::math::abs(forward.y.raw as int) as int;
        let q = (sideways.unit_magnitude(sideways.x), sideways.unit_magnitude(sideways.z));
        assert(vstd::math::abs(sideways.x.raw as int) == a && vstd::math::abs(
            sideways.z.raw as int,
        ) == b);
        assert(a * a == forward.z.raw * forward.z.raw && b * b == forward.x.raw * forward.x.raw
            && y * y == forward.y.raw * forward.y.raw && sideways.x.raw * sideways.x.raw == a * a
            && sideways.z.raw * sideways.z.raw == b * b && sideways.y.raw * sideways.y.raw == 0)
            by (nonlinear_arith)
            requires
                a == vstd::math::abs(forward.z.raw as int),
                b == vstd::math::abs(forward.x.raw as int),
                y == vstd::math::abs(forward.y.raw as int),
                vstd::math::abs(sideways.x.raw as int) == a,
                vstd::math::abs(sideways.z.raw as int) == b,
                sideways.y.raw == 0,
        ;
        assert(sideways.square_sum() == a * a + b * b);
        assert((a * a + b * b) * (k * k) >= 0) by (nonlinear_arith)
            requires
                a * a + b * b >= 0,
                k >= 1,
        ;
        crate::fixed::lemma_root_exists((a * a + b * b) * (k * k));
        assert(right.x.raw * right.x.raw == q.0 * q.0 && right.z.raw * right.z.raw == q.1 * q.1
            && right.y.raw * right.y.raw == 0) by (nonlinear_arith)
            requires
                right.x.raw == q.0 || right.x.raw == -q.0,
                right.z.raw == q.1 || right.z.raw == -q.1,
                right.y.raw == 0,
        ;
        // The components of the cross product.
        forward.lemma_cross_rounding(right);
        forward.x.lemma_times_zero();
        forward.z.lemma_times_zero();
        crate::mirror::lemma_product_bound(forward.y.raw as int, right.z.raw as int, s, s);
        crate::mirror::lemma_product_bound(forward.y.raw as int, right.x.raw as int, s, s);
        crate::mirror::lemma_product_bound(forward.z.raw as int, right.x.raw as int, s, s);
        crate::mirror::lemma_product_bound(forward.x.raw as int, right.z.raw as int, s, s);
        forward.y.lemma_times_magnitude(right.z, s);
        forward.y.lemma_times_magnitude(right.x, s);
        forward.z.lemma_times_magnitude(right.x, s);
        forward.x.lemma_times_magnitude(right.z, s);
        let t = (
            vstd::math::abs(forward.z.times(right.x).raw as int) as int,
            vstd::math::abs(forward.x.times(right.z).raw as int) as int,
        );
        let cx = vstd::math::abs(forward.y.times(right.z).raw as int) as int;
        let cz = vstd::math::abs(forward.y.times(right.x).raw as int) as int;
        assert(vstd::math::abs(right.x.raw as int) == q.0 && vstd::math::abs(right.z.raw as int)
            == q.1);
        assert(forward.z.raw * right.x.raw >= 0 && forward.x.raw * right.z.raw <= 0)
            by (nonlinear_arith)
            requires
                0 <= q.0,
                0 <= q.1,
                right.x.raw == if forward.z.raw < 0 {
                    -q.0
                } else {
                    q.0
                },
                right.z.raw == if -forward.x.raw < 0 {
                    -q.1
                } else {
                    q.1
                },
        ;
        assert(upward.y.raw == t.0 + t.1);
        assert(upward.x.raw == forward.y.times(right.z).raw);
        assert(upward.z.raw == -forward.y.times(right.x).raw);
        crate::unit::lemma_upward_is_long(s, k, l, a, b, y, q, t, cx, cz);
        assert(upward.x.raw * upward.x.raw == cx * cx && upward.z.raw * upward.z.raw == cz * cz)
            by (nonlinear_arith)
            requires
                upward.x.raw == cx || upward.x.raw == -cx,
                upward.z.raw == cz || upward.z.raw == -cz,
        ;
    }

    /// The camera's upward direction has unit length and is square to
    /// forward and to right, up to rounding: its dot products with both
    /// are at most 24 raw units in magnitude, unless forward points
    /// straight up or down.
    pub proof fn lemma_up_is_square(forward: Vector3)
        requires
            forward.is_unit(),
            Vector3::of_raw(0, SCALE as int, 0).cross_spec(forward).square_sum() != 0,
        ensures
            ({
                let right = Vector3::of_raw(0, SCALE as int, 0).cross_spec(
                    forward,
                ).normalized_spec();
                let up = forward.cross_spec(right).normalized_spec();
                &&& forward.cross_spec(right).square_sum() != 0
                &&& up.is_unit()
                &&& -24 <= forward.dot_spec(up).raw <= 24
                &&& -24 <= right.dot_spec(up).raw <= 24
            }),
    {
        let s = SCALE as int;
        let right = Vector3::of_raw(0, SCALE as int, 0).cross_spec(forward).normalized_spec();
        let upward = forward.cross_spec(right);
        let up = upward.normalized_spec();
        Camera::lemma_upward_is_long(forward);
        upward.lemma_normalized_is_unit();
        upward.lemma_component_squares();
        upward.lemma_unit_part_signed(upward.x);
        upward.lemma_unit_part_signed(upward.y);
        upward.lemma_unit_part_signed(upward.z);
        let k = upward.magnifier();
        let l = upward.unit_divisor();
        assert(upward.square_sum() * (k * k) >= 0) by (nonlinear_arith)
            requires
                upward.square_sum() >= 0,
                k >= 1,
        ;
        crate::fixed::lemma_root_exists(upward.square_sum() * (k * k));
        crate::unit::lemma_divisor_is_long(s, k, l, upward.square_sum());
        forward.lemma_cross_rounding(right);
        let f = (forward.x.raw as int, forward.y.raw as int, forward.z.raw as int);
        let r = (right.x.raw as int, right.y.raw as int, right.z.raw as int);
        let c = (upward.x.raw as int, upward.y.raw as int, upward.z.raw as int);
        let h = (up.x.raw as int, up.y.raw as int, up.z.raw as int);
        let exact = (f.1 * r.2 - f.2 * r.1, f.2 * r.0 - f.0 * r.2, f.0 * r.1 - f.1 * r.0);
        crate::unit::lemma_triple_product(f, r);
        crate::unit::lemma_square_to_cross(s, f, exact, c);
        crate::unit::lemma_square_to_cross(s, r, exact, c);
        crate::unit::lemma_square_after_normalizing(s, k, l, f, c, h);
        crate::unit::lemma_square_after_normalizing(s, k, l, r, c, h);
        forward.lemma_dot_rounding(up);
        right.lemma_dot_rounding(up);
    }

    /// A ray starts near the eye: with unit vectors for up and right and an
    /// aperture that is not negative, every coordinate of the lens point
    /// for a unit sample is at most the aperture away from `look_from`.
    pub proof fn lemma_lens_offset_bound(self, sample: Vector3)
        requires
            self.up_vector.is_unit(),
            self.right_vector.is_unit(),
            sample.is_unit(),
            0 <= self.aperture.raw,
        ensures
            -self.aperture.raw <= self.lens_offset_spec(sample).x.raw <= self.aperture.raw,
            -self.aperture.raw <= self.lens_offset_spec(sample).y.raw <= self.aperture.raw,
            -self.aperture.raw <= self.lens_offset_spec(sample).z.raw <= self.aperture.raw,
    {
        let half = Fixed { raw: 500_000_000 };
        let reach = self.aperture.times(half);
        half.lemma_times_fraction_of(self.aperture);
        assert(2 * reach.raw <= self.aperture.raw) by {
            assert(self.aperture.raw * half.raw >= 0) by (nonlinear_arith)
                requires
                    self.aperture.raw >= 0,
                    half.raw == 500_000_000,
            ;
            vstd::arithmetic::div_mod::lemma_fundamental_div_mod(
                self.aperture.raw * 500_000_000,
                SCALE as int,
            );
            vstd::arithmetic::div_mod::lemma_mod_pos_bound(
                self.aperture.raw * 500_000_000,
                SCALE as int,
            );
        }
        let shrunk = sample.scaled(reach);
        sample.x.lemma_times_shrinks(reach);
        sample.y.lemma_times_shrinks(reach);
        self.up_vector.x.lemma_times_shrinks(shrunk.y);
        self.up_vector.y.lemma_times_shrinks(shrunk.y);
        self.up_vector.z.lemma_times_shrinks(shrunk.y);
        self.right_vector.x.lemma_times_shrinks(shrunk.x);
        self.right_vector.y.lemma_times_shrinks(shrunk.x);
        self.right_vector.z.lemma_times_shrinks(shrunk.x);
    }

    /// With an aperture of zero the ray through `(u, v)` does not depend on
    /// the lens sample.
    pub proof fn lemma_pinhole_ignores_sample(self, u: Fixed, v: Fixed, first: Vector3, second: Vector3)
        ensures
            self.aperture.raw == 0 ==> self.ray_spec(u, v, first) == self.ray_spec(u, v, second),
    {
        if self.aperture.raw == 0 {
            let none = Fixed { raw: 0 };
            self.aperture.lemma_times_exact(Fixed { raw: 500_000_000 }, 0);
            first.x.lemma_times_zero();
            first.y.lemma_times_zero();
            first.z.lemma_times_zero();
            second.x.lemma_times_zero();
            second.y.lemma_times_zero();
            second.z.lemma_times_zero();
            assert(first.scaled(none) == second.scaled(none));
        }
    }
}

} // verus!
