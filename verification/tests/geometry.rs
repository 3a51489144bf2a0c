use path_tracer::camera::Camera;
use path_tracer::fixed::{Fixed, RAW_MAX, SCALE};
use path_tracer::hit_record::HitRecord;
use path_tracer::material::Material;
use path_tracer::ray::Ray;
use path_tracer::scene::{material_for, small_sphere, Scene};
use path_tracer::sphere::Sphere;
use path_tracer::vec3::Vector3;

fn fx(raw: i64) -> Fixed {
    Fixed::from_raw(raw)
}

fn v(x: i64, y: i64, z: i64) -> Vector3 {
    Vector3 { x: fx(x), y: fx(y), z: fx(z) }
}

fn whole(x: i32, y: i32, z: i32) -> Vector3 {
    Vector3 { x: Fixed::from_int(x), y: Fixed::from_int(y), z: Fixed::from_int(z) }
}

fn grey() -> Material {
    Material::DIFFUSE(v(500_000_000, 500_000_000, 500_000_000))
}

fn forward_ray() -> Ray {
    Ray { origin: whole(0, 0, 0), direction: whole(0, 0, 1) }
}

#[test]
fn ray_at_follows_the_direction() {
    let ray = Ray { origin: whole(1, 2, 3), direction: whole(0, -2, 4) };
    assert_eq!(ray.at(fx(500_000_000)), whole(1, 1, 5));
    assert_eq!(Ray::none(), Ray { origin: Vector3::zero(), direction: Vector3::zero() });
}

#[test]
fn sphere_in_front_is_hit_at_its_near_side() {
    let sphere = Sphere { center: whole(0, 0, 1), radius: fx(500_000_000), material: grey() };
    let record = sphere.ray_hits_sphere(&forward_ray(), fx(1_000_000), fx(RAW_MAX));
    assert!(record.hit);
    assert_eq!(record.t, fx(500_000_000));
    assert_eq!(record.point, v(0, 0, 500_000_000));
    assert_eq!(record.normal, whole(0, 0, -1));
    assert!(record.is_front_face);
    assert_eq!(record.material, grey());
}

#[test]
fn ray_from_inside_meets_the_far_side_with_the_normal_turned() {
    let sphere = Sphere { center: whole(0, 0, 0), radius: Fixed::from_int(2), material: grey() };
    let record = sphere.ray_hits_sphere(&forward_ray(), fx(1_000_000), fx(RAW_MAX));
    assert!(record.hit);
    assert_eq!(record.t, Fixed::from_int(2));
    assert_eq!(record.point, whole(0, 0, 2));
    assert_eq!(record.normal, whole(0, 0, -1));
    assert!(!record.is_front_face);
}

#[test]
fn sphere_beside_the_ray_is_missed() {
    let sphere = Sphere { center: whole(0, 3, 1), radius: Fixed::one(), material: grey() };
    let record = sphere.ray_hits_sphere(&forward_ray(), fx(1_000_000), fx(RAW_MAX));
    assert_eq!(record, HitRecord::no_hit());
    assert!(!record.hit);
}

#[test]
fn ray_that_touches_the_sphere_hits_it() {
    let sphere = Sphere { center: whole(0, 1, 5), radius: Fixed::one(), material: grey() };
    let record = sphere.ray_hits_sphere(&forward_ray(), fx(1_000_000), fx(RAW_MAX));
    assert!(record.hit);
    assert_eq!(record.t, Fixed::from_int(5));
    assert_eq!(record.point, whole(0, 0, 5));
}

#[test]
fn interval_bounds_are_inclusive_and_cut_both_roots() {
    let sphere = Sphere { center: whole(0, 0, 5), radius: Fixed::one(), material: grey() };
    let ray = forward_ray();
    assert_eq!(sphere.ray_hits_sphere(&ray, fx(0), Fixed::from_int(4)).t, Fixed::from_int(4));
    assert!(!sphere.ray_hits_sphere(&ray, fx(0), fx(3_999_999_999)).hit);
    assert_eq!(
        sphere.ray_hits_sphere(&ray, fx(4_000_000_001), Fixed::from_int(6)).t,
        Fixed::from_int(6)
    );
    assert!(!sphere.ray_hits_sphere(&ray, fx(4_000_000_001), fx(5_999_999_999)).hit);
    assert!(!sphere.ray_hits_sphere(&ray, fx(6_000_000_001), fx(RAW_MAX)).hit);
}

#[test]
fn scene_returns_the_nearer_of_two_spheres_in_either_order() {
    let near = Sphere { center: whole(0, 0, 3), radius: Fixed::one(), material: grey() };
    let far = Sphere {
        center: v(0, 0, 3_500_000_000),
        radius: Fixed::one(),
        material: Material::DIELECTRIC(fx(1_500_000_000)),
    };
    let one = Scene { spheres: vec![near, far] };
    let other = Scene { spheres: vec![far, near] };
    let ray = forward_ray();
    let first = one.ray_hit_scene(&ray, fx(1_000_000), fx(RAW_MAX));
    let second = other.ray_hit_scene(&ray, fx(1_000_000), fx(RAW_MAX));
    assert!(first.hit);
    assert_eq!(first.t, Fixed::from_int(2));
    assert_eq!(first.material, grey());
    assert_eq!(first, second);
}

#[test]
fn of_two_equally_near_spheres_the_first_wins() {
    let matte = Sphere { center: whole(0, 0, 3), radius: Fixed::one(), material: grey() };
    let glass = Sphere {
        center: whole(0, 0, 3),
        radius: Fixed::one(),
        material: Material::DIELECTRIC(fx(1_500_000_000)),
    };
    let ray = forward_ray();
    let hit = Scene { spheres: vec![matte, glass] }.ray_hit_scene(&ray, fx(1_000_000), fx(RAW_MAX));
    assert_eq!(hit.material, grey());
    let hit = Scene { spheres: vec![glass, matte] }.ray_hit_scene(&ray, fx(1_000_000), fx(RAW_MAX));
    assert_eq!(hit.material, Material::DIELECTRIC(fx(1_500_000_000)));
}

#[test]
fn empty_scene_reports_a_miss_that_carries_the_upper_bound() {
    let record = Scene { spheres: vec![] }.ray_hit_scene(&forward_ray(), fx(1_000_000), fx(77));
    assert!(!record.hit);
    assert_eq!(record.t, fx(77));
}

#[test]
fn sphere_at_the_upper_bound_is_hit() {
    let sphere = Sphere { center: whole(0, 0, 3), radius: Fixed::one(), material: grey() };
    let scene = Scene { spheres: vec![sphere] };
    let record = scene.ray_hit_scene(&forward_ray(), fx(1_000_000), Fixed::from_int(2));
    assert!(record.hit);
    assert_eq!(record.t, Fixed::from_int(2));
}

#[test]
fn roll_picks_the_material() {
    let colour = v(100_000_000, 200_000_000, 300_000_000);
    assert_eq!(material_for(fx(0), colour), Material::DIFFUSE(colour));
    assert_eq!(material_for(fx(799_999_999), colour), Material::DIFFUSE(colour));
    assert_eq!(material_for(fx(800_000_000), colour), Material::METAL(colour, fx(0)));
    assert_eq!(material_for(fx(949_999_999), colour), Material::METAL(colour, fx(0)));
    assert_eq!(material_for(fx(950_000_000), colour), Material::DIELECTRIC(fx(1_500_000_000)));
}

#[test]
fn small_sphere_sits_in_its_cell() {
    let colour = v(100_000_000, 200_000_000, 300_000_000);
    let sphere = small_sphere(-11, 4, fx(0), colour, fx(500_000_000), fx(0));
    assert_eq!(sphere.center, v(-10_550_000_000, 200_000_000, 4_000_000_000));
    assert_eq!(sphere.radius, fx(200_000_000));
    assert_eq!(sphere.material, Material::DIFFUSE(colour));
}

#[test]
fn generated_scene_has_ground_grid_and_three_large_spheres() {
    let scene = Scene::generate();
    assert_eq!(scene.spheres.len(), 488);
    assert_eq!(scene.spheres[0].center, whole(0, -1000, 1));
    assert_eq!(scene.spheres[0].radius, Fixed::from_int(1000));
    assert_eq!(scene.spheres[0].material, grey());
    for k in 0..484usize {
        let sphere = &scene.spheres[1 + k];
        let x = (k / 22) as i64 - 11;
        let z = (k % 22) as i64 - 11;
        assert_eq!(sphere.radius, fx(200_000_000));
        assert_eq!(sphere.center.y, fx(200_000_000));
        assert!(x * SCALE <= sphere.center.x.raw && sphere.center.x.raw < x * SCALE + 900_000_000);
        assert!(z * SCALE <= sphere.center.z.raw && sphere.center.z.raw < z * SCALE + 900_000_000);
        match sphere.material {
            Material::DIFFUSE(albedo) | Material::METAL(albedo, _) => {
                for part in [albedo.x.raw, albedo.y.raw, albedo.z.raw] {
                    assert!(0 <= part && part <= SCALE);
                }
            }
            Material::DIELECTRIC(index) => assert_eq!(index, fx(1_500_000_000)),
            Material::NONE => panic!("a generated sphere absorbs everything"),
        }
    }
    assert_eq!(scene.spheres[485].center, whole(0, 1, 0));
    assert_eq!(scene.spheres[485].material, Material::DIELECTRIC(fx(1_500_000_000)));
    assert_eq!(scene.spheres[486].center, whole(-4, 1, 0));
    assert_eq!(
        scene.spheres[486].material,
        Material::DIFFUSE(v(600_000_000, 300_000_000, 100_000_000))
    );
    assert_eq!(scene.spheres[487].center, whole(4, 1, 0));
    assert_eq!(
        scene.spheres[487].material,
        Material::METAL(v(700_000_000, 600_000_000, 500_000_000), fx(0))
    );
}

#[test]
fn camera_frame_for_a_right_angle_of_view() {
    let camera = Camera::new(whole(0, 0, 0), whole(0, 0, 1), Fixed::one(), fx(0), Fixed::one());
    assert_eq!(camera.look_from, whole(0, 0, 0));
    assert_eq!(camera.right_vector, whole(1, 0, 0));
    assert_eq!(camera.up_vector, whole(0, 1, 0));
    assert_eq!(camera.horizontal_direction, v(3_555_555_554, 0, 0));
    assert_eq!(camera.vertical_direction, whole(0, 2, 0));
    assert_eq!(camera.upper_left_corner, v(-1_777_777_777, -1_000_000_000, -1_000_000_000));
    assert_eq!(camera.aperture, fx(0));
}

#[test]
fn pinhole_rays_start_at_the_eye_and_aim_at_the_focus_plane() {
    let camera = Camera::new(whole(0, 0, 0), whole(0, 0, 1), Fixed::one(), fx(0), Fixed::one());
    let corner = camera.get_ray(fx(0), fx(0));
    assert_eq!(corner.origin, whole(0, 0, 0));
    assert_eq!(corner.direction, v(-1_777_777_777, -1_000_000_000, -1_000_000_000));
    let centre = camera.get_ray(fx(500_000_000), fx(500_000_000));
    assert_eq!(centre.origin, whole(0, 0, 0));
    assert_eq!(centre.direction, whole(0, -2, -1));
}

#[test]
fn centre_ray_of_a_flat_viewport_runs_along_the_view_axis() {
    let camera = Camera::new(whole(1, 2, 3), whole(1, 2, 9), fx(0), fx(0), Fixed::from_int(4));
    let centre = camera.get_ray(fx(500_000_000), fx(500_000_000));
    assert_eq!(centre.origin, whole(1, 2, 3));
    assert_eq!(centre.direction, whole(0, 0, -4));
}

#[test]
fn lens_sample_moves_the_origin_within_the_aperture() {
    let camera = Camera::new(whole(0, 0, 0), whole(0, 0, 1), Fixed::one(), Fixed::from_int(2), Fixed::one());
    let ray = camera.ray_through(fx(0), fx(0), v(600_000_000, -800_000_000, 0));
    assert_eq!(ray.origin, v(600_000_000, -800_000_000, 0));
    assert_eq!(ray.direction, v(-2_377_777_777, -200_000_000, -1_000_000_000));
    for _ in 0..50 {
        let ray = camera.get_ray(fx(0), fx(0));
        assert_eq!(ray.origin.z, fx(0));
        assert!(ray.origin.x.raw.abs() <= SCALE + 1_000 && ray.origin.y.raw.abs() <= SCALE + 1_000);
    }
}

#[test]
fn short_direction_meets_the_sphere_far_along_the_ray() {
    let sphere = Sphere { center: whole(0, 0, 1), radius: fx(500_000_000), material: grey() };
    let ray = Ray { origin: whole(0, 0, 0), direction: v(0, 0, 20) };
    let record = sphere.ray_hits_sphere(&ray, fx(1_000_000), fx(RAW_MAX));
    assert!(record.hit);
    assert_eq!(record.t, fx(25_000_000_000_000_000));
    assert_eq!(record.point, v(0, 0, 500_000_000));
    assert_eq!(record.normal, whole(0, 0, -1));
    assert!(record.is_front_face);
}

#[test]
fn long_direction_meets_the_sphere_early_along_the_ray() {
    let sphere = Sphere { center: whole(0, 0, 1), radius: fx(500_000_000), material: grey() };
    let ray = Ray { origin: whole(0, 0, 0), direction: whole(0, 0, 1_000_000) };
    let record = sphere.ray_hits_sphere(&ray, fx(0), fx(RAW_MAX));
    assert!(record.hit);
    assert_eq!(record.t, fx(500));
    assert_eq!(record.point, v(0, 0, 500_000_000));
    assert_eq!(record.normal, whole(0, 0, -1));
    assert!(record.is_front_face);
}

#[test]
fn slanted_hit_has_a_unit_normal() {
    let sphere = Sphere { center: whole(3, -2, 7), radius: Fixed::from_int(2), material: grey() };
    let ray = Ray { origin: whole(0, 0, 0), direction: v(30, -17, 71) };
    let record = sphere.ray_hits_sphere(&ray, fx(1_000_000), fx(RAW_MAX));
    assert!(record.hit);
    let length_squared = record.normal.length_squared().raw;
    assert!(SCALE - 9 <= length_squared && length_squared <= SCALE + 2);
    let away = record.point - sphere.center;
    assert!((away.length().raw - 2 * SCALE).abs() <= 1_000, "{:?} {:?}", away.length(), record);
}

#[test]
fn camera_that_looks_at_a_near_point_has_a_unit_frame() {
    let camera =
        Camera::new(whole(0, 0, 0), v(0, 0, 2), fx(500_000_000), Fixed::from_int(2), Fixed::one());
    assert_eq!(camera.right_vector, whole(1, 0, 0));
    assert_eq!(camera.up_vector, whole(0, 1, 0));
    assert_eq!(camera.horizontal_direction, v(1_777_777_777, 0, 0));
    assert_eq!(camera.vertical_direction, whole(0, 1, 0));
    let ray = camera.ray_through(fx(0), fx(0), whole(1, 0, 0));
    assert_eq!(ray.origin, whole(1, 0, 0));
}

#[test]
fn slanted_camera_has_a_unit_frame() {
    let camera = Camera::new(whole(12, 2, -3), whole(0, 0, 0), fx(221_694_663), fx(0), Fixed::from_int(10));
    for axis in [camera.right_vector, camera.up_vector] {
        let length_squared = axis.length_squared().raw;
        assert!(SCALE - 9 <= length_squared && length_squared <= SCALE + 2);
    }
    assert!(camera.right_vector.dot(&camera.up_vector).raw.abs() <= 10);
    assert_eq!(camera.right_vector.y, fx(0));
}

fn surface_gap(sphere: &Sphere, point: Vector3) -> i128 {
    let square = |a: i64, b: i64| ((a - b) as i128) * ((a - b) as i128);
    square(point.x.raw, sphere.center.x.raw)
        + square(point.y.raw, sphere.center.y.raw)
        + square(point.z.raw, sphere.center.z.raw)
        - (sphere.radius.raw as i128) * (sphere.radius.raw as i128)
}

#[test]
fn meeting_points_lie_on_the_sphere_up_to_rounding() {
    let ground = Sphere { center: whole(0, -1000, 1), radius: Fixed::from_int(1000), material: grey() };
    let ball = Sphere { center: whole(3, -2, 7), radius: Fixed::from_int(2), material: grey() };
    let rays = [
        Ray { origin: whole(12, 2, -3), direction: v(-9_000_000_000, -2_500_000_000, 2_000_000_000) },
        Ray { origin: whole(0, 0, 0), direction: v(30, -17, 71) },
        Ray { origin: whole(1, 1, 1), direction: whole(2_000, -3_000, 5_000) },
        Ray { origin: whole(3, -2, 7), direction: v(1, 0, 0) },
    ];
    let mut hits = 0;
    for sphere in [ground, ball] {
        for ray in rays {
            let record = sphere.ray_hits_sphere(&ray, fx(1_000_000), fx(RAW_MAX));
            // A parameter beyond the largest scalar is pulled back to it; the
            // point is then not the meeting point.
            if record.hit && record.t.raw < RAW_MAX {
                hits += 1;
                // Every magnitude involved is at most 5000.
                let m: i128 = 5_000_000_000_000;
                let gap = surface_gap(&sphere, record.point);
                assert!((SCALE as i128) * gap.abs() <= 1485 * m * m, "{}", gap);
                // In fact the point is much nearer: within a hundred thousandth.
                let away = (record.point - sphere.center).length().raw - sphere.radius.raw;
                assert!(away.abs() <= 10_000, "{}", away);
            }
        }
    }
    assert!(hits >= 4);
}
