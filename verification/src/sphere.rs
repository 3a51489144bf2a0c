//! Spheres and the analytic ray-sphere intersection.
use vstd::prelude::*;
use crate::fixed::{Fixed, SCALE};
use crate::mirror::lemma_product_bound;
use crate::surface::{lemma_on_sphere, lemma_steps_agree};
use crate::hit_record::HitRecord;
use crate::material::Material;
use crate::ray::Ray;
use crate::vec3::Vector3;

verus! {

/// A sphere of one material.
#[derive(Clone, Copy, PartialEq, Eq, Structural, Debug)]
pub struct Sphere {
    pub center: Vector3,
    pub radius: Fixed,
    pub material: Material,
}

impl Sphere {
    /// Half the linear coefficient of the quadratic along the unit
    /// direction: `dot(O - C, D / |D|)`.
    pub open spec fn half_b_spec(self, ray: Ray) -> Fixed {
        ray.origin.minus(self.center).dot_spec(ray.direction.normalized_spec())
    }

    /// The constant coefficient: `|O - C|^2 - r^2`.
    pub open spec fn c_spec(self, ray: Ray) -> Fixed {
        ray.origin.minus(self.center).length_squared_spec().minus(self.radius.times(self.radius))
    }

    /// A quarter of the discriminant of the quadratic along the unit
    /// direction, whose leading coefficient is one: `half_b^2 - c`.
    pub open spec fn discriminant_spec(self, ray: Ray) -> Fixed {
        self.half_b_spec(ray).times(self.half_b_spec(ray)).minus(self.c_spec(ray))
    }

    /// The smaller root along the unit direction: `-half_b - sqrt(discriminant)`.
    pub open spec fn near_along_spec(self, ray: Ray) -> Fixed {
        self.half_b_spec(ray).negated().minus(self.discriminant_spec(ray).sqrt_spec())
    }

    /// The larger root along the unit direction: `-half_b + sqrt(discriminant)`.
    pub open spec fn far_along_spec(self, ray: Ray) -> Fixed {
        self.half_b_spec(ray).negated().plus(self.discriminant_spec(ray).sqrt_spec())
    }

    /// The smaller root, as a parameter of the ray itself: the root along
    /// the unit direction over the direction's length.
    pub open spec fn near_root_spec(self, ray: Ray) -> Fixed {
        ray.direction.over_length_spec(self.near_along_spec(ray))
    }

    /// The larger root, as a parameter of the ray itself.
    pub open spec fn far_root_spec(self, ray: Ray) -> Fixed {
        ray.direction.over_length_spec(self.far_along_spec(ray))
    }

    /// By how much the squared distance of `point` from the centre misses
    /// the squared radius, in squared raw units.
    pub open spec fn surface_gap(self, point: Vector3) -> int {
        (point.x.raw - self.center.x.raw) * (point.x.raw - self.center.x.raw) + (point.y.raw
            - self.center.y.raw) * (point.y.raw - self.center.y.raw) + (point.z.raw
            - self.center.z.raw) * (point.z.raw - self.center.z.raw) - self.radius.raw
            * self.radius.raw
    }

    /// The unit normal that points away from the centre at `point`.
    pub open spec fn outward_normal_spec(self, point: Vector3) -> Vector3 {
        point.minus(self.center).normalized_spec()
    }

    /// The record of the ray meeting the sphere at parameter `t`. The
    /// normal is turned against the ray.
    pub open spec fn record_at(self, ray: Ray, t: Fixed) -> HitRecord {
        let point = ray.at_spec(t);
        let outward = self.outward_normal_spec(point);
        let is_front_face = ray.direction.normalized_spec().dot_spec(outward).raw < 0;
        HitRecord {
            hit: true,
            t,
            point,
            normal: if is_front_face {
                outward
            } else {
                outward.negated()
            },
            is_front_face,
            material: self.material,
        }
    }

    /// The ray parameter at which the ray meets the sphere within
    /// `[t_min, t_max]`: the smaller root if it lies in the interval, else
    /// the larger one if that does. A ray that only touches the sphere
    /// meets it.
    pub open spec fn hit_parameter_spec(self, ray: Ray, t_min: Fixed, t_max: Fixed) -> Option<Fixed> {
        let near = self.near_root_spec(ray);
        let far = self.far_root_spec(ray);
        if self.discriminant_spec(ray).raw < 0 {
            None
        } else if t_min.raw <= near.raw <= t_max.raw {
            Some(near)
        } else if t_min.raw <= far.raw <= t_max.raw {
            Some(far)
        } else {
            None
        }
    }

    /// The outcome of the intersection test within `[t_min, t_max]`.
    #[verifier::opaque]
    pub open spec fn hit_spec(self, ray: Ray, t_min: Fixed, t_max: Fixed) -> HitRecord {
        match self.hit_parameter_spec(ray, t_min, t_max) {
            Some(t) => self.record_at(ray, t),
            None => HitRecord::miss(Fixed { raw: 0 }),
        }
    }

    /// The smaller root is not above the larger one.
    pub proof fn lemma_roots_ordered(self, ray: Ray)
        ensures
            self.near_root_spec(ray).raw <= self.far_root_spec(ray).raw,
    {
        let against = self.half_b_spec(ray).negated();
        let sqrt_d = self.discriminant_spec(ray).sqrt_spec();
        self.discriminant_spec(ray).lemma_sqrt_range();
        against.minus(sqrt_d).lemma_over_monotonic(against.plus(sqrt_d), Fixed { raw: 0 });
        ray.direction.lemma_over_length_monotonic(against.minus(sqrt_d), against.plus(sqrt_d));
    }

    /// Lowering the upper bound never brings a new meeting point: the ray
    /// meets the sphere within the smaller interval where its meeting point
    /// within the larger one lies there too, and nowhere else.
    pub proof fn lemma_hit_under_lower_bound(self, ray: Ray, t_min: Fixed, t_max: Fixed, lower: Fixed)
        requires
            lower.raw <= t_max.raw,
        ensures
            self.hit_spec(ray, t_min, lower) == if self.hit_spec(ray, t_min, t_max).hit
                && self.hit_spec(ray, t_min, t_max).t.raw <= lower.raw {
                self.hit_spec(ray, t_min, t_max)
            } else {
                HitRecord::miss(Fixed { raw: 0 })
            },
    {
        reveal(Sphere::hit_spec);
        self.lemma_roots_ordered(ray);
    }

    /// A meeting point lies in the interval that was asked for.
    pub proof fn lemma_hit_in_range(self, ray: Ray, t_min: Fixed, t_max: Fixed)
        ensures
            self.hit_spec(ray, t_min, t_max).hit ==> t_min.raw <= self.hit_spec(
                ray,
                t_min,
                t_max,
            ).t.raw <= t_max.raw,
    {
        reveal(Sphere::hit_spec);
    }

    /// The normal of a meeting point is turned against the ray: its dot
    /// product with the ray's unit direction is never positive.
    pub proof fn lemma_normal_faces_ray(self, ray: Ray, t_min: Fixed, t_max: Fixed)
        ensures
            self.hit_spec(ray, t_min, t_max).hit ==> ray.direction.normalized_spec().dot_spec(
                self.hit_spec(ray, t_min, t_max).normal,
            ).raw <= 0,
    {
        reveal(Sphere::hit_spec);
        let record = self.hit_spec(ray, t_min, t_max);
        if record.hit && !record.is_front_face {
            let outward = self.outward_normal_spec(record.point);
            record.point.minus(self.center).lemma_normalized_is_symmetric();
            ray.direction.normalized_spec().lemma_dot_negated(outward);
        }
    }

    /// The normal of a meeting point has unit length, up to rounding,
    /// unless the meeting point is the centre itself. The record carries
    /// the sphere's material.
    pub proof fn lemma_hit_record(self, ray: Ray, t_min: Fixed, t_max: Fixed)
        ensures
            self.hit_spec(ray, t_min, t_max).hit ==> self.hit_spec(ray, t_min, t_max).material
                == self.material && self.hit_spec(ray, t_min, t_max).point == ray.at_spec(
                self.hit_spec(ray, t_min, t_max).t,
            ),
            self.hit_spec(ray, t_min, t_max).hit && self.hit_spec(ray, t_min, t_max).point
                != self.center ==> self.hit_spec(ray, t_min, t_max).normal.is_unit(),
    {
        reveal(Sphere::hit_spec);
        let record = self.hit_spec(ray, t_min, t_max);
        if record.hit && record.point != self.center {
            let away = record.point.minus(self.center);
            away.lemma_difference_is_symmetric(record.point, self.center);
            away.lemma_normalized_is_unit();
            away.normalized_spec().lemma_negated_is_unit();
        }
    }

    /// A meeting point lies on the sphere, up to rounding. Let `m` bound the
    /// raw magnitudes of the origin seen from the centre, of the direction
    /// and of the radius, and be at most ten thousand in value. Then the
    /// squared distance of the meeting point from the centre misses the
    /// squared radius by at most `1485 m^2 / SCALE` squared raw units: by
    /// about a millionth of `m^2` in value. The direction is not the zero
    /// vector, and the ray parameter has not been pulled back to a bound.
    pub proof fn lemma_hit_lies_on_sphere(self, ray: Ray, t_min: Fixed, t_max: Fixed, m: int)
        requires
            SCALE <= m <= 10_000_000_000_000,
            ray.origin.is_moderate(),
            -m <= ray.origin.x.raw - self.center.x.raw <= m,
            -m <= ray.origin.y.raw - self.center.y.raw <= m,
            -m <= ray.origin.z.raw - self.center.z.raw <= m,
            -m <= ray.direction.x.raw <= m,
            -m <= ray.direction.y.raw <= m,
            -m <= ray.direction.z.raw <= m,
            0 <= self.radius.raw <= m,
            ray.direction.square_sum() != 0,
            self.hit_spec(ray, t_min, t_max).hit,
            crate::fixed::RAW_MIN < self.hit_spec(ray, t_min, t_max).t.raw < crate::fixed::RAW_MAX,
        ensures
            -1485 * (m * m) <= SCALE * self.surface_gap(self.hit_spec(ray, t_min, t_max).point)
                <= 1485 * (m * m),
    {
        reveal(Sphere::hit_spec);
        let s = SCALE as int;
        let record = self.hit_spec(ray, t_min, t_max);
        let oc = ray.origin.minus(self.center);
        let d = ray.direction;
        let u = d.normalized_spec();
        d.lemma_normalized_is_unit();
        u.lemma_unit_length();
        lemma_coefficients(oc, u, self.radius, m);
        let hb = self.half_b_spec(ray);
        let lq = oc.length_squared_spec();
        let r2 = self.radius.times(self.radius);
        let h2 = hb.times(hb);
        let disc = self.discriminant_spec(ray);
        let sq = disc.sqrt_spec();
        let tau = if t_min.raw <= self.near_root_spec(ray).raw <= t_max.raw {
            self.near_along_spec(ray)
        } else {
            self.far_along_spec(ray)
        };
        assert(record.t == d.over_length_spec(tau));
        assert(tau.raw == -hb.raw - sq.raw || tau.raw == -hb.raw + sq.raw);
        lemma_step(d, tau, m);
        let w = d.scaled(record.t);
        assert(record.point == ray.origin.plus(w));
        assert(record.point.x.raw - self.center.x.raw == oc.x.raw + w.x.raw);
        assert(record.point.y.raw - self.center.y.raw == oc.y.raw + w.y.raw);
        assert(record.point.z.raw - self.center.z.raw == oc.z.raw + w.z.raw);
        lemma_on_sphere(
            s,
            m,
            (oc.x.raw as int, oc.y.raw as int, oc.z.raw as int),
            (u.x.raw as int, u.y.raw as int, u.z.raw as int),
            (w.x.raw as int, w.y.raw as int, w.z.raw as int),
            self.radius.raw as int,
            hb.raw as int,
            lq.raw as int,
            r2.raw as int,
            h2.raw as int,
            sq.raw as int,
            tau.raw as int,
        );
    }

    /// Tests the ray against the sphere within `[t_min, t_max]`. The
    /// quadratic is solved along the unit direction, so that a short or a
    /// long direction loses nothing to rounding, and the root is then
    /// divided by the direction's length.
    pub fn ray_hits_sphere(&self, ray: &Ray, t_min: Fixed, t_max: Fixed) -> (record: HitRecord)
        ensures
            record == self.hit_spec(*ray, t_min, t_max),
            record.hit ==> t_min.raw <= record.t.raw <= t_max.raw,
            record.hit ==> record.point == ray.at_spec(record.t) && record.material
                == self.material,
            record.hit && record.point != self.center ==> record.normal.is_unit(),
    {
        proof {
            reveal(Sphere::hit_spec);
            self.lemma_hit_record(*ray, t_min, t_max);
        }
        let oc: Vector3 = ray.origin - self.center;
        let unit_direction: Vector3 = ray.direction.normalized();
        let half_b: Fixed = oc.dot(&unit_direction);
        let c: Fixed = oc.length_squared() - self.radius * self.radius;
        let discriminant: Fixed = half_b * half_b - c;
        if discriminant.raw < 0 {
            return HitRecord::no_hit();
        }
        let sqrt_d: Fixed = discriminant.sqrt();
        let mut t: Fixed = ray.direction.over_length(core::ops::Neg::neg(half_b) - sqrt_d);
        if t.raw < t_min.raw || t.raw > t_max.raw {
            t = ray.direction.over_length(core::ops::Neg::neg(half_b) + sqrt_d);
            if t.raw < t_min.raw || t.raw > t_max.raw {
                return HitRecord::no_hit();
            }
        }
        let point: Vector3 = ray.at(t);
        let normal: Vector3 = (point - self.center).normalized();
        let is_front_face: bool = unit_direction.dot(&normal).raw < 0;
        HitRecord {
            hit: true,
            t,
            point,
            normal: if is_front_face {
                normal
            } else {
                core::ops::Neg::neg(normal)
            },
            is_front_face,
            material: self.material,
        }
    }
}

/// The coefficients of the quadratic along a unit direction are rounded,
/// not pulled back, where the magnitudes are at most `m`: `oc` is the
/// origin seen from the centre and `u` the unit direction.
pub proof fn lemma_coefficients(oc: Vector3, u: Vector3, radius: Fixed, m: int)
    requires
        SCALE <= m <= 10_000_000_000_000,
        -m <= oc.x.raw <= m && -m <= oc.y.raw <= m && -m <= oc.z.raw <= m,
        u.is_unit(),
        0 <= radius.raw <= m,
    ensures
        ({
            let hb = oc.dot_spec(u);
            let lq = oc.length_squared_spec();
            let r2 = radius.times(radius);
            let h2 = hb.times(hb);
            let disc = h2.minus(lq.minus(r2));
            let sq = disc.sqrt_spec();
            &&& -3 * m <= hb.raw <= 3 * m
            &&& -3 * SCALE < oc.x.raw * u.x.raw + oc.y.raw * u.y.raw + oc.z.raw * u.z.raw - SCALE
                * hb.raw < 3 * SCALE
            &&& 0 <= oc.x.raw * oc.x.raw + oc.y.raw * oc.y.raw + oc.z.raw * oc.z.raw - SCALE
                * lq.raw < 3 * SCALE
            &&& 0 <= radius.raw * radius.raw - SCALE * r2.raw < SCALE
            &&& 0 <= hb.raw * hb.raw - SCALE * h2.raw < SCALE
            &&& disc.raw == h2.raw - lq.raw + r2.raw
            &&& disc.raw >= 0 ==> 0 <= sq.raw <= 4 * m && sq.raw * sq.raw <= (h2.raw - lq.raw
                + r2.raw) * SCALE < (sq.raw + 1) * (sq.raw + 1)
        }),
{
    let s = SCALE as int;
    let wide = 100_000_000_000_000_000int;
    lemma_product_bound(oc.x.raw as int, u.x.raw as int, m, s);
    lemma_product_bound(oc.y.raw as int, u.y.raw as int, m, s);
    lemma_product_bound(oc.z.raw as int, u.z.raw as int, m, s);
    oc.x.lemma_times_rounding(u.x, m);
    oc.y.lemma_times_rounding(u.y, m);
    oc.z.lemma_times_rounding(u.z, m);
    let hb = oc.dot_spec(u);
    assert(hb.raw == oc.x.times(u.x).raw + oc.y.times(u.y).raw + oc.z.times(u.z).raw);
    lemma_product_bound(oc.x.raw as int, oc.x.raw as int, m, m);
    lemma_product_bound(oc.y.raw as int, oc.y.raw as int, m, m);
    lemma_product_bound(oc.z.raw as int, oc.z.raw as int, m, m);
    lemma_product_bound(radius.raw as int, radius.raw as int, m, m);
    lemma_product_bound(hb.raw as int, hb.raw as int, 3 * m, 3 * m);
    assert(m * m <= wide * s && (3 * m) * (3 * m) <= (9 * wide) * s) by (nonlinear_arith)
        requires
            0 <= m <= 10_000_000_000_000,
            wide == 100_000_000_000_000_000,
            s == 1_000_000_000,
    ;
    assert(oc.x.raw * oc.x.raw >= 0 && oc.y.raw * oc.y.raw >= 0 && oc.z.raw * oc.z.raw >= 0
        && radius.raw * radius.raw >= 0 && hb.raw * hb.raw >= 0) by (nonlinear_arith);
    oc.x.lemma_times_rounding(oc.x, wide);
    oc.y.lemma_times_rounding(oc.y, wide);
    oc.z.lemma_times_rounding(oc.z, wide);
    radius.lemma_times_rounding(radius, wide);
    hb.lemma_times_rounding(hb, 9 * wide);
    let lq = oc.length_squared_spec();
    let r2 = radius.times(radius);
    let h2 = hb.times(hb);
    assert(lq.raw == oc.x.times(oc.x).raw + oc.y.times(oc.y).raw + oc.z.times(oc.z).raw);
    let disc = h2.minus(lq.minus(r2));
    assert(disc.raw == h2.raw - lq.raw + r2.raw);
    if disc.raw >= 0 {
        let under = disc.raw * s;
        assert(0 <= under <= 10 * wide * s) by (nonlinear_arith)
            requires
                0 <= disc.raw <= 10 * wide,
                under == disc.raw * s,
                s == 1_000_000_000,
        ;
        crate::fixed::lemma_root_exists(under);
        let rt = crate::fixed::root(under);
        assert(rt <= 4 * m) by (nonlinear_arith)
            requires
                0 <= rt,
                0 <= m,
                rt * rt <= under,
                under == disc.raw * s,
                disc.raw == h2.raw - lq.raw + r2.raw,
                lq.raw >= 0,
                s * h2.raw <= hb.raw * hb.raw,
                s * r2.raw <= radius.raw * radius.raw,
                hb.raw * hb.raw <= (3 * m) * (3 * m),
                radius.raw * radius.raw <= m * m,
                s == 1_000_000_000,
        ;
        assert(disc.sqrt_spec().raw == rt);
        assert((h2.raw - lq.raw + r2.raw) * SCALE == under);
    }
}

/// The step from the origin to the meeting point is the step along the
/// unit direction, up to rounding: for a direction `d` with components of
/// at most `m`, a root `tau` along the unit direction of at most `7 m`, and
/// the ray parameter `t`, which is `tau` over the length of `d`, each
/// component of `d * t`, scaled by `SCALE`, is within `10 m` of the
/// component of the unit direction times `tau`.
pub proof fn lemma_step(d: Vector3, tau: Fixed, m: int)
    requires
        SCALE <= m <= 10_000_000_000_000,
        -m <= d.x.raw <= m && -m <= d.y.raw <= m && -m <= d.z.raw <= m,
        -7 * m <= tau.raw <= 7 * m,
        d.square_sum() != 0,
        crate::fixed::RAW_MIN < d.over_length_spec(tau).raw < crate::fixed::RAW_MAX,
    ensures
        ({
            let u = d.normalized_spec();
            let w = d.scaled(d.over_length_spec(tau));
            &&& -10 * m <= SCALE * w.x.raw - u.x.raw * tau.raw <= 10 * m
            &&& -10 * m <= SCALE * w.y.raw - u.y.raw * tau.raw <= 10 * m
            &&& -10 * m <= SCALE * w.z.raw - u.z.raw * tau.raw <= 10 * m
            &&& -15 * m <= w.x.raw <= 15 * m
            &&& -15 * m <= w.y.raw <= 15 * m
            &&& -15 * m <= w.z.raw <= 15 * m
        }),
{
    let s = SCALE as int;
    let u = d.normalized_spec();
    let t = d.over_length_spec(tau);
    let k = d.magnifier();
    let l = d.unit_divisor();
    d.lemma_normalized_is_unit();
    d.lemma_component_squares();
    d.lemma_unit_part_signed(d.x);
    d.lemma_unit_part_signed(d.y);
    d.lemma_unit_part_signed(d.z);
    d.lemma_over_length_bracket(tau);
    lemma_steps_agree(s, k, l, d.x.raw as int, u.x.raw as int, tau.raw as int, t.raw as int);
    lemma_steps_agree(s, k, l, d.y.raw as int, u.y.raw as int, tau.raw as int, t.raw as int);
    lemma_steps_agree(s, k, l, d.z.raw as int, u.z.raw as int, tau.raw as int, t.raw as int);
    lemma_product_bound(u.x.raw as int, tau.raw as int, s, 7 * m);
    lemma_product_bound(u.y.raw as int, tau.raw as int, s, 7 * m);
    lemma_product_bound(u.z.raw as int, tau.raw as int, s, 7 * m);
    assert(s * (7 * m) + 8 * m <= (15 * m) * s) by (nonlinear_arith)
        requires
            1 <= s,
            0 <= m,
    ;
    d.x.lemma_times_rounding(t, 15 * m);
    d.y.lemma_times_rounding(t, 15 * m);
    d.z.lemma_times_rounding(t, 15 * m);
}

} // verus!
