use path_tracer::fixed::{Fixed, SCALE};
use path_tracer::hit_record::HitRecord;
use path_tracer::material::Material;
use path_tracer::ray::Ray;
use path_tracer::scatter_info::ScatterInfo;
use path_tracer::texture::{sine_sign, Texture};
use path_tracer::vec3::Vector3;

fn fx(raw: i64) -> Fixed {
    Fixed::from_raw(raw)
}

fn v(x: i64, y: i64, z: i64) -> Vector3 {
    Vector3 { x: fx(x), y: fx(y), z: fx(z) }
}

fn whole(x: i32, y: i32, z: i32) -> Vector3 {
    Vector3 { x: Fixed::from_int(x), y: Fixed::from_int(y), z: Fixed::from_int(z) }
}

fn floor_hit(material: Material) -> HitRecord {
    HitRecord {
        hit: true,
        t: Fixed::one(),
        point: whole(0, 0, 0),
        normal: whole(0, 1, 0),
        is_front_face: true,
        material,
    }
}

fn falling_ray() -> Ray {
    Ray { origin: v(-600_000_000, 800_000_000, 0), direction: v(1_200_000_000, -1_600_000_000, 0) }
}

#[test]
fn reflection_flips_the_part_along_the_normal() {
    let mirrored = Material::reflect(v(600_000_000, -800_000_000, 0), whole(0, 1, 0));
    assert_eq!(mirrored, v(600_000_000, 800_000_000, 0));
}

#[test]
fn reflection_keeps_the_length_of_unit_vectors() {
    let normal = v(600_000_000, 0, 800_000_000);
    for vector in [whole(1, 0, 0), whole(0, 0, -1), v(0, 600_000_000, -800_000_000)] {
        let mirrored = Material::reflect(vector, normal);
        assert!((mirrored.length_squared().raw - SCALE).abs() <= 10);
    }
    assert_eq!(Material::reflect(whole(0, 0, -1), normal), v(960_000_000, 0, 280_000_000));
}

#[test]
fn reflection_keeps_the_length_of_normalized_vectors_up_to_rounding() {
    let normal = v(-3, 17, 4).normalized();
    for vector in [v(1, 1, 1), v(7, -2, 5), v(-900_000_000_000, 3, 12), whole(0, -1, 0)] {
        let unit = vector.normalized();
        let before = unit.length_squared().raw;
        let after = Material::reflect(unit, normal).length_squared().raw;
        assert!((after - before).abs() < 406, "{} {}", before, after);
    }
}

#[test]
fn reflection_may_miss_the_unit_length_by_a_few_raw_units() {
    let vector = v(319_219_280, 260_783_593, 911_093_283);
    let normal = v(-7_226_327, -126_366_435, 991_957_311);
    assert_eq!(vector.length_squared(), Fixed::one());
    assert_eq!(normal.length_squared(), Fixed::one());
    let mirrored = Material::reflect(vector, normal);
    assert_eq!(mirrored, v(331_771_476, 480_283_245, -811_945_630));
    assert_eq!(mirrored.length_squared().raw, SCALE + 13);
}

#[test]
fn matched_index_leaves_the_direction_unchanged() {
    let never = fx(SCALE - 1);
    assert_eq!(Material::refract(whole(0, 0, 1), whole(0, 0, -1), Fixed::one(), never), whole(0, 0, 1));
    let slanted = v(600_000_000, 0, 800_000_000);
    assert_eq!(Material::refract(slanted, whole(0, 0, -1), Fixed::one(), never), slanted);
}

#[test]
fn glass_bends_a_slanted_ray_towards_the_normal() {
    let bent = Material::refract(
        v(600_000_000, 0, 800_000_000),
        whole(0, 0, -1),
        fx(500_000_000),
        fx(SCALE - 1),
    );
    // across = 0.6 * 0.5 = 0.3; along = sqrt(1 - 0.09) = 0.953939201...
    assert_eq!(bent, v(300_000_000, 0, 953_939_201));
}

#[test]
fn glass_mirrors_where_the_coin_falls_below_the_reflectance() {
    // Head-on, ratio 0.5: r0 = (0.5 / 1.5)^2 = 0.111111110 on the grid.
    let head_on = whole(0, 0, 1);
    let normal = whole(0, 0, -1);
    let half = fx(500_000_000);
    assert_eq!(Material::refract(head_on, normal, half, fx(111_111_109)), whole(0, 0, -1));
    assert_eq!(Material::refract(head_on, normal, half, fx(111_111_110)), whole(0, 0, 1));
}

#[test]
fn glass_mirrors_on_total_internal_reflection() {
    // sin = 0.8, ratio 1.5: 1.2 > 1.
    let slanted = v(800_000_000, 0, 600_000_000);
    let mirrored = Material::refract(slanted, whole(0, 0, -1), fx(1_500_000_000), fx(SCALE - 1));
    assert_eq!(mirrored, v(800_000_000, 0, -600_000_000));
}

#[test]
fn placeholder_material_absorbs() {
    let info = Material::NONE.scatter(&falling_ray(), &floor_hit(Material::NONE));
    assert_eq!(info, ScatterInfo::no_scatter());
    assert!(!info.does_scatter);
}

#[test]
fn matte_surface_scatters_around_the_normal() {
    let albedo = v(100_000_000, 500_000_000, 900_000_000);
    let hit = floor_hit(Material::DIFFUSE(albedo));
    let info = Material::scatter_diffuse(&hit, albedo, v(600_000_000, 0, 800_000_000));
    assert!(info.does_scatter);
    assert_eq!(info.attenuation, albedo);
    assert_eq!(info.scattered_ray.origin, hit.point);
    assert_eq!(info.scattered_ray.direction, v(600_000_000, 1_000_000_000, 800_000_000));
}

#[test]
fn matte_surface_falls_back_to_the_normal_where_the_sample_cancels_it() {
    let albedo = v(100_000_000, 500_000_000, 900_000_000);
    let hit = floor_hit(Material::DIFFUSE(albedo));
    let info = Material::scatter_diffuse(&hit, albedo, v(3, -999_999_995, -9));
    assert_eq!(info.scattered_ray.direction, whole(0, 1, 0));
    let info = Material::scatter_diffuse(&hit, albedo, v(10, -1_000_000_000, 0));
    assert_eq!(info.scattered_ray.direction, v(10, 0, 0));
}

#[test]
fn clean_mirror_reflects_the_unit_direction() {
    let albedo = v(700_000_000, 600_000_000, 500_000_000);
    let hit = floor_hit(Material::METAL(albedo, fx(0)));
    let info = Material::scatter_metal(&falling_ray(), &hit, albedo, fx(0), whole(1, 0, 0));
    assert!(info.does_scatter);
    assert_eq!(info.attenuation, albedo);
    assert_eq!(info.scattered_ray.origin, hit.point);
    assert_eq!(info.scattered_ray.direction, v(600_000_000, 800_000_000, 0));
}

#[test]
fn rough_mirror_absorbs_what_the_fuzz_pushes_into_the_surface() {
    let albedo = v(700_000_000, 600_000_000, 500_000_000);
    let hit = floor_hit(Material::METAL(albedo, Fixed::one()));
    let info = Material::scatter_metal(&falling_ray(), &hit, albedo, Fixed::one(), whole(0, -1, 0));
    assert!(!info.does_scatter);
    assert_eq!(info.scattered_ray.direction, v(600_000_000, -200_000_000, 0));
    let info = Material::scatter_metal(&falling_ray(), &hit, albedo, fx(500_000_000), whole(0, -1, 0));
    assert!(info.does_scatter);
    assert_eq!(info.scattered_ray.direction, v(600_000_000, 300_000_000, 0));
}

#[test]
fn glass_never_absorbs_and_does_not_tint() {
    let hit = floor_hit(Material::DIELECTRIC(Fixed::one()));
    let info = Material::scatter_dielectric(&falling_ray(), &hit, Fixed::one(), fx(SCALE - 1));
    assert!(info.does_scatter);
    assert_eq!(info.attenuation, whole(1, 1, 1));
    assert_eq!(info.scattered_ray.origin, hit.point);
    assert_eq!(info.scattered_ray.direction, v(600_000_000, -800_000_000, 0));
}

#[test]
fn glass_uses_the_inverse_index_on_the_way_in_only() {
    let mut hit = floor_hit(Material::DIELECTRIC(Fixed::from_int(2)));
    let never = fx(SCALE - 1);
    // On the way in the ratio is 0.5: across 0.3, along sqrt(1 - 0.09).
    let info = Material::scatter_dielectric(&falling_ray(), &hit, Fixed::from_int(2), never);
    assert_eq!(info.scattered_ray.direction, v(300_000_000, -953_939_201, 0));
    // On the way out the ratio is 2: 2 * 0.6 > 1, so the ray is mirrored.
    hit.is_front_face = false;
    let info = Material::scatter_dielectric(&falling_ray(), &hit, Fixed::from_int(2), never);
    assert_eq!(info.scattered_ray.direction, v(600_000_000, 800_000_000, 0));
}

#[test]
fn scattering_keeps_albedos_as_attenuation() {
    let albedo = v(0, 500_000_000, SCALE);
    for material in [Material::DIFFUSE(albedo), Material::METAL(albedo, fx(300_000_000))] {
        for _ in 0..50 {
            let info = material.scatter(&falling_ray(), &floor_hit(material));
            assert_eq!(info.attenuation, albedo);
            assert_eq!(info.scattered_ray.origin, whole(0, 0, 0));
        }
    }
}

#[test]
fn glass_of_matched_index_lets_most_slanted_rays_through() {
    let material = Material::DIELECTRIC(Fixed::one());
    let mut through = 0;
    for _ in 0..200 {
        let info = material.scatter(&falling_ray(), &floor_hit(material));
        assert!(info.does_scatter);
        if info.scattered_ray.direction == v(600_000_000, -800_000_000, 0) {
            through += 1;
        } else {
            assert_eq!(info.scattered_ray.direction, v(600_000_000, 800_000_000, 0));
        }
    }
    // The reflectance is 0.2^5 = 0.00032.
    assert!(through >= 190);
}

#[test]
fn sine_sign_follows_the_half_periods() {
    assert_eq!(sine_sign(fx(0)), (true, false));
    assert_eq!(sine_sign(fx(1)), (false, false));
    assert_eq!(sine_sign(fx(3_141_592_653)), (false, false));
    assert_eq!(sine_sign(fx(3_141_592_654)), (true, false));
    assert_eq!(sine_sign(fx(3_141_592_655)), (false, true));
    assert_eq!(sine_sign(fx(6_283_185_309)), (false, false));
    assert_eq!(sine_sign(fx(-1)), (false, true));
    assert_eq!(sine_sign(fx(-3_141_592_654)), (true, false));
    assert_eq!(sine_sign(fx(-3_141_592_655)), (false, false));
}

#[test]
fn solid_texture_is_the_same_everywhere() {
    let colour = v(1, 2, 3);
    assert_eq!(Texture::SOLID(colour).get_color(&whole(5, -7, 9)), colour);
}

#[test]
fn checkered_texture_alternates_by_the_sign_of_the_sines() {
    let odd = v(50_000_000, 50_000_000, 50_000_000);
    let even = v(950_000_000, 950_000_000, 950_000_000);
    let texture = Texture::CHECKERED(odd, even);
    let tenth = 100_000_000;
    assert_eq!(texture.get_color(&v(tenth, tenth, tenth)), even);
    assert_eq!(texture.get_color(&v(600_000_000, tenth, tenth)), odd);
    assert_eq!(texture.get_color(&v(600_000_000, 600_000_000, tenth)), even);
    assert_eq!(texture.get_color(&v(600_000_000, 600_000_000, 600_000_000)), odd);
    assert_eq!(texture.get_color(&v(-tenth, tenth, tenth)), odd);
    assert_eq!(texture.get_color(&v(0, 600_000_000, tenth)), even);
}
