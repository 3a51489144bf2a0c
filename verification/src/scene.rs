//! Scenes: an ordered list of spheres, the nearest-hit query, and the
//! generator of the demonstration scene.
use vstd::prelude::*;
use crate::color_util::{colour_of_draw, random_color};
use crate::fixed::{Fixed, SCALE};
use crate::hit_record::HitRecord;
use crate::material::Material;
use crate::ray::Ray;
use crate::sampling::{is_unit_draw, uniform};
use crate::sphere::Sphere;
use crate::vec3::Vector3;

verus! {

/// Cells of the grid of small spheres along each axis.
pub const GRID_SIDE: i32 = 22;

/// The coordinate of the first grid cell along each axis.
pub const GRID_START: i32 = -11;

/// The spheres of a generated scene: the ground, the grid, three large ones.
pub const GENERATED_SPHERES: usize = 488;

/// An ordered list of spheres.
pub struct Scene {
    pub spheres: Vec<Sphere>,
}

impl View for Scene {
    type V = Seq<Sphere>;

    open spec fn view(&self) -> Seq<Sphere> {
        self.spheres@
    }
}

/// The own meeting point of the `i`-th sphere with the ray, within the
/// whole interval `[t_min, t_max]`.
pub open spec fn own_hit(spheres: Seq<Sphere>, i: int, ray: Ray, t_min: Fixed, t_max: Fixed) -> HitRecord {
    spheres[i].hit_spec(ray, t_min, t_max)
}

/// The outcome of scanning the spheres in order: each sphere is tested
/// within `[t_min, t]`, where `t` is the parameter of the best meeting
/// point so far (at first `t_max`), and replaces the best one where it is
/// the first meeting point or a strictly nearer one. With no meeting point
/// at all the outcome is a miss that carries `t_max`.
pub open spec fn nearest_hit(spheres: Seq<Sphere>, ray: Ray, t_min: Fixed, t_max: Fixed) -> HitRecord
    decreases spheres.len(),
{
    if spheres.len() == 0 {
        HitRecord::miss(t_max)
    } else {
        let best = nearest_hit(spheres.drop_last(), ray, t_min, t_max);
        let record = spheres.last().hit_spec(ray, t_min, best.t);
        if record.hit && (!best.hit || record.t.raw < best.t.raw) {
            record
        } else {
            best
        }
    }
}

/// The scan finds the nearest meeting point. It reports a hit exactly where
/// some sphere meets the ray within `[t_min, t_max]`; the hit is then the
/// own meeting point of one sphere, no sphere meets the ray nearer, and no
/// earlier sphere meets it as near.
pub proof fn lemma_nearest_hit_is_nearest(spheres: Seq<Sphere>, ray: Ray, t_min: Fixed, t_max: Fixed)
    ensures
        nearest_hit(spheres, ray, t_min, t_max).hit <==> exists|i: int|
            0 <= i < spheres.len() && (#[trigger] own_hit(spheres, i, ray, t_min, t_max)).hit,
        !nearest_hit(spheres, ray, t_min, t_max).hit ==> nearest_hit(spheres, ray, t_min, t_max)
            == HitRecord::miss(t_max),
        nearest_hit(spheres, ray, t_min, t_max).hit ==> exists|i: int|
            0 <= i < spheres.len() && nearest_hit(spheres, ray, t_min, t_max) == #[trigger] own_hit(
                spheres,
                i,
                ray,
                t_min,
                t_max,
            ) && forall|j: int|
                0 <= j < i && (#[trigger] own_hit(spheres, j, ray, t_min, t_max)).hit ==> own_hit(
                    spheres,
                    j,
                    ray,
                    t_min,
                    t_max,
                ).t.raw > nearest_hit(spheres, ray, t_min, t_max).t.raw,
        forall|i: int|
            0 <= i < spheres.len() && (#[trigger] own_hit(spheres, i, ray, t_min, t_max)).hit
                ==> nearest_hit(spheres, ray, t_min, t_max).hit && nearest_hit(
                spheres,
                ray,
                t_min,
                t_max,
            ).t.raw <= own_hit(spheres, i, ray, t_min, t_max).t.raw,
        nearest_hit(spheres, ray, t_min, t_max).t.raw <= t_max.raw || !nearest_hit(
            spheres,
            ray,
            t_min,
            t_max,
        ).hit,
    decreases spheres.len(),
{
    if spheres.len() > 0 {
        let front = spheres.drop_last();
        let last = spheres.len() - 1;
        lemma_nearest_hit_is_nearest(front, ray, t_min, t_max);
        let best = nearest_hit(front, ray, t_min, t_max);
        let result = nearest_hit(spheres, ray, t_min, t_max);
        assert(best.t.raw <= t_max.raw);
        spheres.last().lemma_hit_under_lower_bound(ray, t_min, t_max, best.t);
        spheres.last().lemma_hit_in_range(ray, t_min, t_max);
        assert forall|i: int| 0 <= i < front.len() implies own_hit(front, i, ray, t_min, t_max)
            == own_hit(spheres, i, ray, t_min, t_max) by {}
        assert(own_hit(spheres, last, ray, t_min, t_max) == spheres.last().hit_spec(
            ray,
            t_min,
            t_max,
        ));
        if best.hit {
            let i = choose|i: int|
                0 <= i < front.len() && best == #[trigger] own_hit(front, i, ray, t_min, t_max)
                    && forall|j: int|
                    0 <= j < i && (#[trigger] own_hit(front, j, ray, t_min, t_max)).hit ==> own_hit(
                        front,
                        j,
                        ray,
                        t_min,
                        t_max,
                    ).t.raw > best.t.raw;
            assert(own_hit(spheres, i, ray, t_min, t_max).hit);
            if result == best {
                assert(result == own_hit(spheres, i, ray, t_min, t_max));
                assert forall|j: int|
                    0 <= j < i && (#[trigger] own_hit(spheres, j, ray, t_min, t_max)).hit implies own_hit(
                    spheres,
                    j,
                    ray,
                    t_min,
                    t_max,
                ).t.raw > result.t.raw by {
                    assert(own_hit(front, j, ray, t_min, t_max).hit);
                }
            }
        }
        if result != best {
            assert(result == own_hit(spheres, last, ray, t_min, t_max));
            assert forall|j: int|
                0 <= j < last && (#[trigger] own_hit(spheres, j, ray, t_min, t_max)).hit implies own_hit(
                spheres,
                j,
                ray,
                t_min,
                t_max,
            ).t.raw > result.t.raw by {
                assert(own_hit(front, j, ray, t_min, t_max).hit);
            }
        }
        assert forall|i: int|
            0 <= i < spheres.len() && (#[trigger] own_hit(spheres, i, ray, t_min, t_max)).hit implies result.hit
            && result.t.raw <= own_hit(spheres, i, ray, t_min, t_max).t.raw by {
            if i < last {
                assert(own_hit(front, i, ray, t_min, t_max).hit);
            }
        }
        if result.hit && !best.hit {
            assert(own_hit(spheres, last, ray, t_min, t_max).hit);
        }
    }
}

/// What the scan finds does not depend on the order of the spheres: two
/// lists of the same spheres agree on whether the ray is hit, and on the
/// parameter of the nearest meeting point.
pub proof fn lemma_nearest_hit_order_independent(
    first: Seq<Sphere>,
    second: Seq<Sphere>,
    ray: Ray,
    t_min: Fixed,
    t_max: Fixed,
)
    requires
        first.to_multiset() == second.to_multiset(),
    ensures
        nearest_hit(first, ray, t_min, t_max).hit == nearest_hit(second, ray, t_min, t_max).hit,
        nearest_hit(first, ray, t_min, t_max).t == nearest_hit(second, ray, t_min, t_max).t,
{
    lemma_nearest_hit_is_nearest(first, ray, t_min, t_max);
    lemma_nearest_hit_is_nearest(second, ray, t_min, t_max);
    first.to_multiset_ensures();
    second.to_multiset_ensures();
    let a = nearest_hit(first, ray, t_min, t_max);
    let b = nearest_hit(second, ray, t_min, t_max);
    if a.hit {
        let i = choose|i: int|
            0 <= i < first.len() && a == #[trigger] own_hit(first, i, ray, t_min, t_max);
        assert(first.contains(first[i]));
        assert(first.to_multiset().count(first[i]) > 0);
        assert(second.to_multiset().count(first[i]) > 0);
        assert(second.contains(first[i]));
        let j = choose|j: int| 0 <= j < second.len() && second[j] == first[i];
        assert(own_hit(second, j, ray, t_min, t_max) == a);
    }
    if b.hit {
        let i = choose|i: int|
            0 <= i < second.len() && b == #[trigger] own_hit(second, i, ray, t_min, t_max);
        assert(second.contains(second[i]));
        assert(second.to_multiset().count(second[i]) > 0);
        assert(first.to_multiset().count(second[i]) > 0);
        assert(first.contains(second[i]));
        let j = choose|j: int| 0 <= j < first.len() && first[j] == second[i];
        assert(own_hit(first, j, ray, t_min, t_max) == b);
    }
}

/// The ground: a sphere of radius 1000 under the origin, matte grey.
pub open spec fn ground_spec() -> Sphere {
    Sphere {
        center: Vector3::of_raw(0, -1_000_000_000_000, 1_000_000_000),
        radius: Fixed { raw: 1_000_000_000_000 },
        material: Material::DIFFUSE(Vector3::of_raw(500_000_000, 500_000_000, 500_000_000)),
    }
}

/// The large glass sphere in the middle.
pub open spec fn glass_spec() -> Sphere {
    Sphere {
        center: Vector3::of_raw(0, 1_000_000_000, 0),
        radius: Fixed { raw: 1_000_000_000 },
        material: Material::DIELECTRIC(Fixed { raw: 1_500_000_000 }),
    }
}

/// The large matte sphere behind it.
pub open spec fn matte_spec() -> Sphere {
    Sphere {
        center: Vector3::of_raw(-4_000_000_000, 1_000_000_000, 0),
        radius: Fixed { raw: 1_000_000_000 },
        material: Material::DIFFUSE(Vector3::of_raw(600_000_000, 300_000_000, 100_000_000)),
    }
}

/// The large mirror in front of it.
pub open spec fn mirror_spec() -> Sphere {
    Sphere {
        center: Vector3::of_raw(4_000_000_000, 1_000_000_000, 0),
        radius: Fixed { raw: 1_000_000_000 },
        material: Material::METAL(
            Vector3::of_raw(700_000_000, 600_000_000, 500_000_000),
            Fixed { raw: 0 },
        ),
    }
}

/// The material that a roll in `[0, 1)` picks for a small sphere: matte
/// below `0.8`, a clean mirror below `0.95`, glass of index `1.5` above.
pub open spec fn material_for_spec(roll: Fixed, colour: Vector3) -> Material {
    if roll.raw < 800_000_000 {
        Material::DIFFUSE(colour)
    } else if roll.raw < 950_000_000 {
        Material::METAL(colour, Fixed { raw: 0 })
    } else {
        Material::DIELECTRIC(Fixed { raw: 1_500_000_000 })
    }
}

/// The small sphere of the grid cell `(x, z)`: of radius `0.2`, resting on
/// the ground, moved within its cell by `0.9` times the two shifts.
pub open spec fn small_sphere_spec(
    x: int,
    z: int,
    roll: Fixed,
    colour: Vector3,
    shift_x: Fixed,
    shift_z: Fixed,
) -> Sphere {
    let reach = Fixed { raw: 900_000_000 };
    Sphere {
        center: Vector3 {
            x: Fixed::whole(x).plus(reach.times(shift_x)),
            y: Fixed { raw: 200_000_000 },
            z: Fixed::whole(z).plus(reach.times(shift_z)),
        },
        radius: Fixed { raw: 200_000_000 },
        material: material_for_spec(roll, colour),
    }
}

/// Whether `sphere` can be the `k`-th small sphere of a generated scene:
/// the one of the grid cell `(k / 22 - 11, k % 22 - 11)`, for some roll,
/// some draw of the hue and some shifts.
pub open spec fn is_grid_sphere(sphere: Sphere, k: int) -> bool {
    exists|roll: Fixed, hue: Fixed, shift_x: Fixed, shift_z: Fixed|
        is_unit_draw(roll) && is_unit_draw(hue) && is_unit_draw(shift_x) && is_unit_draw(shift_z)
            && sphere == #[trigger] small_sphere_spec(
            GRID_START + k / (GRID_SIDE as int),
            GRID_START + k % (GRID_SIDE as int),
            roll,
            colour_of_draw(hue),
            shift_x,
            shift_z,
        )
}

/// Whether `spheres` is a generated scene: the ground, then the grid of
/// small spheres row by row, then the three large spheres.
pub open spec fn is_generated(spheres: Seq<Sphere>) -> bool {
    &&& spheres.len() == GENERATED_SPHERES
    &&& spheres[0] == ground_spec()
    &&& forall|k: int| 0 <= k < GRID_SIDE * GRID_SIDE ==> is_grid_sphere(#[trigger] spheres[1 + k], k)
    &&& spheres[485] == glass_spec()
    &&& spheres[486] == matte_spec()
    &&& spheres[487] == mirror_spec()
}

/// Whether every matte or metal sphere has an albedo with components in
/// `[0, 1]`.
pub open spec fn has_unit_albedos(spheres: Seq<Sphere>) -> bool {
    forall|i: int| 0 <= i < spheres.len() ==> (#[trigger] spheres[i]).material.has_unit_albedo()
}

/// The material for a roll; see [`material_for_spec`].
pub fn material_for(roll: Fixed, colour: Vector3) -> (material: Material)
    ensures
        material == material_for_spec(roll, colour),
{
    if roll.raw < 800_000_000 {
        Material::DIFFUSE(colour)
    } else if roll.raw < 950_000_000 {
        Material::METAL(colour, Fixed::zero())
    } else {
        Material::DIELECTRIC(Fixed::from_raw(1_500_000_000))
    }
}

/// The small sphere of a grid cell; see [`small_sphere_spec`].
pub fn small_sphere(x: i32, z: i32, roll: Fixed, colour: Vector3, shift_x: Fixed, shift_z: Fixed) -> (sphere:
    Sphere)
    ensures
        sphere == small_sphere_spec(x as int, z as int, roll, colour, shift_x, shift_z),
{
    let reach = Fixed::from_raw(900_000_000);
    Sphere {
        center: Vector3 {
            x: Fixed::from_int(x) + reach * shift_x,
            y: Fixed::from_raw(200_000_000),
            z: Fixed::from_int(z) + reach * shift_z,
        },
        radius: Fixed::from_raw(200_000_000),
        material: material_for(roll, colour),
    }
}

impl Scene {
    /// Builds the demonstration scene: the ground, a grid of 22 by 22 small
    /// spheres of random material and place, and three large spheres.
    pub fn generate() -> (scene: Scene)
        ensures
            is_generated(scene@),
            has_unit_albedos(scene@),
    {
        let mut spheres: Vec<Sphere> = Vec::new();
        spheres.push(
            Sphere {
                center: Vector3 {
                    x: Fixed::zero(),
                    y: Fixed::from_int(-1000),
                    z: Fixed::one(),
                },
                radius: Fixed::from_int(1000),
                material: Material::DIFFUSE(
                    Vector3 {
                        x: Fixed::from_raw(500_000_000),
                        y: Fixed::from_raw(500_000_000),
                        z: Fixed::from_raw(500_000_000),
                    },
                ),
            },
        );
        let mut x: i32 = GRID_START;
        while x < GRID_START + GRID_SIDE
            invariant
                GRID_START <= x <= GRID_START + GRID_SIDE,
                spheres@.len() == 1 + (x - GRID_START) * GRID_SIDE,
                spheres@[0] == ground_spec(),
                forall|k: int|
                    0 <= k < (x - GRID_START) * GRID_SIDE ==> is_grid_sphere(
                        #[trigger] spheres@[1 + k],
                        k,
                    ),
                has_unit_albedos(spheres@),
            decreases GRID_START + GRID_SIDE - x,
        {
            let mut z: i32 = GRID_START;
            while z < GRID_START + GRID_SIDE
                invariant
                    GRID_START <= x < GRID_START + GRID_SIDE,
                    GRID_START <= z <= GRID_START + GRID_SIDE,
                    spheres@.len() == 1 + (x - GRID_START) * GRID_SIDE + (z - GRID_START),
                    spheres@[0] == ground_spec(),
                    forall|k: int|
                        0 <= k < (x - GRID_START) * GRID_SIDE + (z - GRID_START) ==> is_grid_sphere(
                            #[trigger] spheres@[1 + k],
                            k,
                        ),
                    has_unit_albedos(spheres@),
                decreases GRID_START + GRID_SIDE - z,
            {
                let roll = uniform();
                let colour = random_color();
                let shift_x = uniform();
                let shift_z = uniform();
                let sphere = small_sphere(x, z, roll, colour, shift_x, shift_z);
                let ghost before = spheres@;
                let ghost place = (x - GRID_START) * GRID_SIDE + (z - GRID_START);
                spheres.push(sphere);
                proof {
                    let hue = choose|hue: Fixed|
                        is_unit_draw(hue) && colour == #[trigger] colour_of_draw(hue);
                    assert(sphere == small_sphere_spec(
                        x as int,
                        z as int,
                        roll,
                        colour_of_draw(hue),
                        shift_x,
                        shift_z,
                    ));
                    assert(place / (GRID_SIDE as int) == x - GRID_START);
                    assert(place % (GRID_SIDE as int) == z - GRID_START);
                    assert(is_grid_sphere(sphere, place));
                    assert(spheres@[1 + place] == sphere);
                    assert forall|k: int| 0 <= k < place + 1 implies is_grid_sphere(
                        #[trigger] spheres@[1 + k],
                        k,
                    ) by {
                        if k < place {
                            assert(spheres@[1 + k] == before[1 + k]);
                        }
                    }
                    assert forall|i: int| 0 <= i < spheres@.len() implies (
                    #[trigger] spheres@[i]).material.has_unit_albedo() by {
                        if i < before.len() {
                            assert(spheres@[i] == before[i]);
                        }
                    }
                }
                z = z + 1;
            }
            x = x + 1;
        }
        let ghost grid = spheres@;
        spheres.push(
            Sphere {
                center: Vector3 { x: Fixed::zero(), y: Fixed::one(), z: Fixed::zero() },
                radius: Fixed::one(),
                material: Material::DIELECTRIC(Fixed::from_raw(1_500_000_000)),
            },
        );
        spheres.push(
            Sphere {
                center: Vector3 { x: Fixed::from_int(-4), y: Fixed::one(), z: Fixed::zero() },
                radius: Fixed::one(),
                material: Material::DIFFUSE(
                    Vector3 {
                        x: Fixed::from_raw(600_000_000),
                        y: Fixed::from_raw(300_000_000),
                        z: Fixed::from_raw(100_000_000),
                    },
                ),
            },
        );
        spheres.push(
            Sphere {
                center: Vector3 { x: Fixed::from_int(4), y: Fixed::one(), z: Fixed::zero() },
                radius: Fixed::one(),
                material: Material::METAL(
                    Vector3 {
                        x: Fixed::from_raw(700_000_000),
                        y: Fixed::from_raw(600_000_000),
                        z: Fixed::from_raw(500_000_000),
                    },
                    Fixed::zero(),
                ),
            },
        );
        proof {
            assert forall|k: int| 0 <= k < GRID_SIDE * GRID_SIDE implies is_grid_sphere(
                #[trigger] spheres@[1 + k],
                k,
            ) by {
                assert(spheres@[1 + k] == grid[1 + k]);
            }
            assert forall|i: int| 0 <= i < spheres@.len() implies (
            #[trigger] spheres@[i]).material.has_unit_albedo() by {
                if i < grid.len() {
                    assert(spheres@[i] == grid[i]);
                }
            }
        }
        Scene { spheres }
    }

    /// Finds the nearest meeting point of the ray with any sphere, within
    /// `[t_min, t_max]`.
    pub fn ray_hit_scene(&self, ray: &Ray, t_min: Fixed, t_max: Fixed) -> (record: HitRecord)
        ensures
            record == nearest_hit(self@, *ray, t_min, t_max),
            record.hit <==> exists|i: int|
                0 <= i < self@.len() && (#[trigger] own_hit(self@, i, *ray, t_min, t_max)).hit,
            forall|i: int|
                0 <= i < self@.len() && (#[trigger] own_hit(self@, i, *ray, t_min, t_max)).hit
                    ==> record.t.raw <= own_hit(self@, i, *ray, t_min, t_max).t.raw,
            record.hit ==> exists|i: int|
                0 <= i < self@.len() && record.material == (#[trigger] self@[i]).material,
    {
        let mut current_record: HitRecord = HitRecord::no_hit();
        current_record.t = t_max;
        let mut index: usize = 0;
        while index < self.spheres.len()
            invariant
                index <= self.spheres.len(),
                current_record == nearest_hit(self@.take(index as int), *ray, t_min, t_max),
            decreases self.spheres.len() - index,
        {
            let record: HitRecord = self.spheres[index].ray_hits_sphere(ray, t_min, current_record.t);
            proof {
                assert(self@.take(index + 1).drop_last() =~= self@.take(index as int));
                assert(self@.take(index + 1).last() == self@[index as int]);
            }
            if record.hit && (!current_record.hit || record.t.raw < current_record.t.raw) {
                current_record = record;
            }
            index = index + 1;
        }
        proof {
            assert(self@.take(index as int) =~= self@);
            lemma_nearest_hit_is_nearest(self@, *ray, t_min, t_max);
            if current_record.hit {
                let i = choose|i: int|
                    0 <= i < self@.len() && current_record == #[trigger] own_hit(
                        self@,
                        i,
                        *ray,
                        t_min,
                        t_max,
                    );
                self@[i].lemma_hit_record(*ray, t_min, t_max);
                assert(current_record.material == self@[i].material);
            }
        }
        current_record
    }
}

} // verus!
