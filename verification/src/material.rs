//! Surface materials and how each scatters an incoming ray.
use vstd::prelude::*;
use crate::fixed::{Fixed, SCALE};
use crate::hit_record::HitRecord;
use crate::mirror::{lemma_mirror_length, lemma_product_bound};
use crate::ray::Ray;
use crate::sampling::{coin, is_unit_draw};
use crate::scatter_info::ScatterInfo;
use crate::vec3::{lemma_up_is_unit_sample, Vector3};

verus! {

/// What a surface is made of.
#[allow(non_camel_case_types)]
#[derive(Clone, Copy, PartialEq, Eq, Structural, Debug)]
pub enum Material {
    /// Absorbs everything; a placeholder.
    NONE,
    /// A matte surface with the given albedo.
    DIFFUSE(Vector3),
    /// A mirror with the given albedo, roughened by the given fuzz.
    METAL(Vector3, Fixed),
    /// Clear glass with the given refraction index.
    DIELECTRIC(Fixed),
}

impl Material {
    /// The mirror image of `vector` at a surface with the given normal:
    /// `v - n * 2 * dot(v, n)`.
    pub open spec fn reflect_spec(vector: Vector3, normal: Vector3) -> Vector3 {
        vector.minus(normal.scaled(Fixed { raw: 2_000_000_000 }).scaled(vector.dot_spec(normal)))
    }

    /// The cosine of the angle of incidence, capped at one.
    pub open spec fn cos_theta_spec(vector: Vector3, normal: Vector3) -> Fixed {
        normal.dot_spec(vector.negated()).min_spec(Fixed { raw: SCALE })
    }

    /// The sine of the angle of incidence.
    pub open spec fn sin_theta_spec(vector: Vector3, normal: Vector3) -> Fixed {
        let cos_theta = Material::cos_theta_spec(vector, normal);
        (Fixed { raw: SCALE }).minus(cos_theta.times(cos_theta)).sqrt_spec()
    }

    /// Schlick's approximation of the share of light that a glass surface
    /// reflects: `r0 + (1 - r0) * (1 - cos)^5`, with
    /// `r0 = ((1 - ratio) / (1 + ratio))^2`.
    pub open spec fn reflectance_spec(cos_theta: Fixed, refraction_ratio: Fixed) -> Fixed {
        let one = Fixed { raw: SCALE };
        let r0 = one.minus(refraction_ratio).over(one.plus(refraction_ratio));
        let r0_squared = r0.times(r0);
        r0_squared.plus(one.minus(r0_squared).times(one.minus(cos_theta).pow5_spec()))
    }

    /// Whether the ray cannot enter the second medium at all.
    pub open spec fn is_total_reflection(vector: Vector3, normal: Vector3, refraction_ratio: Fixed) -> bool {
        refraction_ratio.times(Material::sin_theta_spec(vector, normal)).raw > SCALE
    }

    /// The direction of the ray bent by Snell's law: a part across the
    /// normal, `(v + n * cos) * ratio`, and a part along it,
    /// `n * -sqrt(1 - |across|^2)`.
    pub open spec fn bend_spec(vector: Vector3, normal: Vector3, refraction_ratio: Fixed) -> Vector3 {
        let cos_theta = Material::cos_theta_spec(vector, normal);
        let across = vector.plus(normal.scaled(cos_theta)).scaled(refraction_ratio);
        let along = normal.scaled(
            (Fixed { raw: SCALE }).minus(across.length_squared_spec()).sqrt_spec().negated(),
        );
        across.plus(along)
    }

    /// Where glass sends a ray: mirrored on total reflection, or when the
    /// reflectance exceeds the coin; bent otherwise.
    pub open spec fn refract_spec(
        vector: Vector3,
        normal: Vector3,
        refraction_ratio: Fixed,
        coin: Fixed,
    ) -> Vector3 {
        let cos_theta = Material::cos_theta_spec(vector, normal);
        if Material::is_total_reflection(vector, normal, refraction_ratio)
            || Material::reflectance_spec(cos_theta, refraction_ratio).raw > coin.raw {
            Material::reflect_spec(vector, normal)
        } else {
            Material::bend_spec(vector, normal, refraction_ratio)
        }
    }

    /// What a matte surface does with a ray: it sends it along the normal
    /// plus the sample, or along the normal alone where the two cancel.
    pub open spec fn scatter_diffuse_spec(hit_record: HitRecord, albedo: Vector3, sample: Vector3) -> ScatterInfo {
        let towards = hit_record.normal.plus(sample);
        ScatterInfo {
            does_scatter: true,
            attenuation: albedo,
            scattered_ray: Ray {
                origin: hit_record.point,
                direction: if towards.is_near_zero_spec() {
                    hit_record.normal
                } else {
                    towards
                },
            },
        }
    }

    /// What a metal surface does with a ray: it mirrors the unit direction
    /// and adds the sample times the fuzz. The ray is absorbed where that
    /// sum points into the surface.
    pub open spec fn scatter_metal_spec(
        ray: Ray,
        hit_record: HitRecord,
        albedo: Vector3,
        fuzz: Fixed,
        sample: Vector3,
    ) -> ScatterInfo {
        let towards = Material::reflect_spec(ray.direction.normalized_spec(), hit_record.normal).plus(
            sample.scaled(fuzz),
        );
        ScatterInfo {
            does_scatter: towards.dot_spec(hit_record.normal).raw > 0,
            attenuation: albedo,
            scattered_ray: Ray { origin: hit_record.point, direction: towards },
        }
    }

    /// The ratio of the refraction indices that a ray meets: the inverse of
    /// the glass's index on the way in, the index itself on the way out.
    pub open spec fn refraction_ratio_spec(hit_record: HitRecord, refraction_index: Fixed) -> Fixed {
        if hit_record.is_front_face {
            (Fixed { raw: SCALE }).over(refraction_index)
        } else {
            refraction_index
        }
    }

    /// What glass does with a ray: it never absorbs, and sends the ray where
    /// `refract_spec` says.
    pub open spec fn scatter_dielectric_spec(
        ray: Ray,
        hit_record: HitRecord,
        refraction_index: Fixed,
        coin: Fixed,
    ) -> ScatterInfo {
        ScatterInfo {
            does_scatter: true,
            attenuation: Vector3::of_raw(SCALE as int, SCALE as int, SCALE as int),
            scattered_ray: Ray {
                origin: hit_record.point,
                direction: Material::refract_spec(
                    ray.direction.normalized_spec(),
                    hit_record.normal,
                    Material::refraction_ratio_spec(hit_record, refraction_index),
                    coin,
                ),
            },
        }
    }

    /// What the material does with a ray, given the two random draws that
    /// it may consult: a unit sample for matte and metal surfaces, a coin
    /// for glass.
    pub open spec fn scatter_spec(self, ray: Ray, hit_record: HitRecord, sample: Vector3, coin: Fixed) -> ScatterInfo {
        match self {
            Material::NONE => ScatterInfo::absorbed(),
            Material::DIFFUSE(albedo) => Material::scatter_diffuse_spec(hit_record, albedo, sample),
            Material::METAL(albedo, fuzz) => Material::scatter_metal_spec(
                ray,
                hit_record,
                albedo,
                fuzz,
                sample,
            ),
            Material::DIELECTRIC(refraction_index) => Material::scatter_dielectric_spec(
                ray,
                hit_record,
                refraction_index,
                coin,
            ),
        }
    }

    /// Whether the colour that the material gives to light is an albedo
    /// with every component in `[0, 1]`.
    pub open spec fn has_unit_albedo(self) -> bool {
        match self {
            Material::DIFFUSE(albedo) => albedo.is_unit_colour(),
            Material::METAL(albedo, _) => albedo.is_unit_colour(),
            _ => true,
        }
    }

    /// A reflection keeps the length of a unit vector, up to rounding: where
    /// the vector and the normal both have unit length up to rounding, as
    /// every normalized vector has, the squared length of the mirrored
    /// vector is within 406 raw units of the vector's own.
    pub proof fn lemma_reflect_keeps_unit_length(vector: Vector3, normal: Vector3)
        requires
            vector.is_unit(),
            normal.is_unit(),
        ensures
            -406 < Material::reflect_spec(vector, normal).length_squared_spec().raw
                - vector.length_squared_spec().raw < 406,
    {
        let s = SCALE as int;
        let two = Fixed { raw: 2_000_000_000 };
        vector.lemma_unit_length();
        normal.lemma_unit_length();
        let d = vector.dot_spec(normal);
        lemma_product_bound(vector.x.raw as int, normal.x.raw as int, s, s);
        lemma_product_bound(vector.y.raw as int, normal.y.raw as int, s, s);
        lemma_product_bound(vector.z.raw as int, normal.z.raw as int, s, s);
        vector.x.lemma_times_rounding(normal.x, s);
        vector.y.lemma_times_rounding(normal.y, s);
        vector.z.lemma_times_rounding(normal.z, s);
        assert(d.raw == vector.x.times(normal.x).raw + vector.y.times(normal.y).raw
            + vector.z.times(normal.z).raw);
        normal.x.lemma_times_exact(two, 2 * normal.x.raw);
        normal.y.lemma_times_exact(two, 2 * normal.y.raw);
        normal.z.lemma_times_exact(two, 2 * normal.z.raw);
        let doubled = normal.scaled(two);
        lemma_product_bound(doubled.x.raw as int, d.raw as int, 2 * s, 3 * s);
        lemma_product_bound(doubled.y.raw as int, d.raw as int, 2 * s, 3 * s);
        lemma_product_bound(doubled.z.raw as int, d.raw as int, 2 * s, 3 * s);
        assert((2 * s) * (3 * s) == (6 * s) * s) by (nonlinear_arith);
        doubled.x.lemma_times_rounding(d, 6 * s);
        doubled.y.lemma_times_rounding(d, 6 * s);
        doubled.z.lemma_times_rounding(d, 6 * s);
        let step = doubled.scaled(d);
        assert(doubled.x.raw * d.raw == 2 * (normal.x.raw * d.raw)) by (nonlinear_arith)
            requires
                doubled.x.raw == 2 * normal.x.raw,
        ;
        assert(doubled.y.raw * d.raw == 2 * (normal.y.raw * d.raw)) by (nonlinear_arith)
            requires
                doubled.y.raw == 2 * normal.y.raw,
        ;
        assert(doubled.z.raw * d.raw == 2 * (normal.z.raw * d.raw)) by (nonlinear_arith)
            requires
                doubled.z.raw == 2 * normal.z.raw,
        ;
        let mirrored = Material::reflect_spec(vector, normal);
        assert(mirrored == vector.minus(step));
        assert(mirrored.x.raw == vector.x.raw - step.x.raw);
        assert(mirrored.y.raw == vector.y.raw - step.y.raw);
        assert(mirrored.z.raw == vector.z.raw - step.z.raw);
        lemma_product_bound(mirrored.x.raw as int, mirrored.x.raw as int, 7 * s, 7 * s);
        lemma_product_bound(mirrored.y.raw as int, mirrored.y.raw as int, 7 * s, 7 * s);
        lemma_product_bound(mirrored.z.raw as int, mirrored.z.raw as int, 7 * s, 7 * s);
        assert((7 * s) * (7 * s) == (49 * s) * s) by (nonlinear_arith);
        assert(mirrored.x.raw * mirrored.x.raw >= 0 && mirrored.y.raw * mirrored.y.raw >= 0
            && mirrored.z.raw * mirrored.z.raw >= 0) by (nonlinear_arith);
        mirrored.x.lemma_times_rounding(mirrored.x, 49 * s);
        mirrored.y.lemma_times_rounding(mirrored.y, 49 * s);
        mirrored.z.lemma_times_rounding(mirrored.z, 49 * s);
        let length = mirrored.length_squared_spec();
        assert(length.raw == mirrored.x.times(mirrored.x).raw + mirrored.y.times(mirrored.y).raw
            + mirrored.z.times(mirrored.z).raw);
        lemma_mirror_length(
            s,
            (vector.x.raw as int, vector.y.raw as int, vector.z.raw as int),
            (normal.x.raw as int, normal.y.raw as int, normal.z.raw as int),
            d.raw as int,
            (step.x.raw as int, step.y.raw as int, step.z.raw as int),
            vector.length_squared_spec().raw as int,
            length.raw as int,
        );
    }

    /// A material whose albedo has its components in `[0, 1]` multiplies
    /// the light by a colour with components in `[0, 1]`, whatever is drawn.
    pub proof fn lemma_attenuation_in_unit_range(
        self,
        ray: Ray,
        hit_record: HitRecord,
        sample: Vector3,
        coin: Fixed,
    )
        requires
            self.has_unit_albedo(),
        ensures
            self.scatter_spec(ray, hit_record, sample, coin).attenuation.is_unit_colour(),
    {
    }

    /// Scatters a ray at a hit, drawing the randomness that the material
    /// asks for. The outcome is `scatter_spec` for some unit sample and some
    /// coin in `[0, 1)`.
    pub fn scatter(self, ray: &Ray, hit_record: &HitRecord) -> (info: ScatterInfo)
        ensures
            exists|sample: Vector3, coin: Fixed|
                sample.is_unit_sample() && is_unit_draw(coin) && info == #[trigger] self.scatter_spec(
                    *ray,
                    *hit_record,
                    sample,
                    coin,
                ),
            self.has_unit_albedo() ==> info.attenuation.is_unit_colour(),
    {
        proof {
            lemma_up_is_unit_sample();
        }
        let ghost up = Vector3::of_raw(0, SCALE as int, 0);
        let ghost tails = Fixed { raw: 0 };
        match self {
            Material::NONE => {
                let info = ScatterInfo::no_scatter();
                assert(info == self.scatter_spec(*ray, *hit_record, up, tails));
                info
            },
            Material::DIFFUSE(albedo) => {
                let sample = Vector3::random_unit_vector();
                let info = Material::scatter_diffuse(hit_record, albedo, sample);
                assert(info == self.scatter_spec(*ray, *hit_record, sample, tails));
                info
            },
            Material::METAL(albedo, fuzz) => {
                let sample = Vector3::random_unit_vector();
                let info = Material::scatter_metal(ray, hit_record, albedo, fuzz, sample);
                assert(info == self.scatter_spec(*ray, *hit_record, sample, tails));
                info
            },
            Material::DIELECTRIC(refraction_index) => {
                let toss = coin();
                let info = Material::scatter_dielectric(ray, hit_record, refraction_index, toss);
                assert(info == self.scatter_spec(*ray, *hit_record, up, toss));
                info
            },
        }
    }

    /// Scatters a ray at a matte surface, given the unit sample.
    pub fn scatter_diffuse(hit_record: &HitRecord, albedo: Vector3, sample: Vector3) -> (info: ScatterInfo)
        ensures
            info == Material::scatter_diffuse_spec(*hit_record, albedo, sample),
    {
        let mut scatter_direction: Vector3 = hit_record.normal + sample;
        if scatter_direction.is_near_zero() {
            scatter_direction = hit_record.normal;
        }
        ScatterInfo {
            does_scatter: true,
            attenuation: albedo,
            scattered_ray: Ray { origin: hit_record.point, direction: scatter_direction },
        }
    }

    /// Scatters a ray at a metal surface, given the unit sample.
    pub fn scatter_metal(
        ray: &Ray,
        hit_record: &HitRecord,
        albedo: Vector3,
        fuzz: Fixed,
        sample: Vector3,
    ) -> (info: ScatterInfo)
        ensures
            info == Material::scatter_metal_spec(*ray, *hit_record, albedo, fuzz, sample),
    {
        let scatter_direction: Vector3 = Material::reflect(
            ray.direction.normalized(),
            hit_record.normal,
        ) + sample * fuzz;
        ScatterInfo {
            does_scatter: scatter_direction.dot(&hit_record.normal).raw > 0,
            attenuation: albedo,
            scattered_ray: Ray { origin: hit_record.point, direction: scatter_direction },
        }
    }

    /// Scatters a ray at a glass surface, given the coin.
    pub fn scatter_dielectric(
        ray: &Ray,
        hit_record: &HitRecord,
        refraction_index: Fixed,
        coin: Fixed,
    ) -> (info: ScatterInfo)
        ensures
            info == Material::scatter_dielectric_spec(*ray, *hit_record, refraction_index, coin),
    {
        let refraction_ratio: Fixed = if hit_record.is_front_face {
            Fixed::one() / refraction_index
        } else {
            refraction_index
        };
        let scatter_direction: Vector3 = Material::refract(
            ray.direction.normalized(),
            hit_record.normal,
            refraction_ratio,
            coin,
        );
        ScatterInfo {
            does_scatter: true,
            attenuation: Vector3 { x: Fixed::one(), y: Fixed::one(), z: Fixed::one() },
            scattered_ray: Ray { origin: hit_record.point, direction: scatter_direction },
        }
    }

    /// Mirrors `vector` at a surface with the given normal.
    pub fn reflect(vector: Vector3, normal: Vector3) -> (r: Vector3)
        ensures
            r == Material::reflect_spec(vector, normal),
    {
        vector - normal * Fixed::from_int(2) * vector.dot(&normal)
    }

    /// Sends `vector` through or off a glass surface, given the coin.
    pub fn refract(vector: Vector3, normal: Vector3, refraction_ratio: Fixed, coin: Fixed) -> (r: Vector3)
        ensures
            r == Material::refract_spec(vector, normal, refraction_ratio, coin),
    {
        let one = Fixed::one();
        let cos_theta: Fixed = normal.dot(&core::ops::Neg::neg(vector)).min(one);
        let sin_theta: Fixed = (one - cos_theta * cos_theta).sqrt();
        let r0: Fixed = (one - refraction_ratio) / (one + refraction_ratio);
        let reflectance: Fixed = r0 * r0 + (one - r0 * r0) * (one - cos_theta).pow5();
        if (refraction_ratio * sin_theta).raw > SCALE || reflectance.raw > coin.raw {
            return Material::reflect(vector, normal);
        }
        let r_out_perpendicular: Vector3 = (vector + normal * cos_theta) * refraction_ratio;
        let r_out_parallel: Vector3 = normal * core::ops::Neg::neg(
            (one - r_out_perpendicular.length_squared()).sqrt(),
        );
        r_out_perpendicular + r_out_parallel
    }
}

} // verus!
