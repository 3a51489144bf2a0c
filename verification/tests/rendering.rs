use path_tracer::camera::Camera;
use path_tracer::color_util::{hsv_to_rgb, random_color};
use path_tracer::fixed::{Fixed, SCALE};
use path_tracer::material::Material;
use path_tracer::ray::Ray;
use path_tracer::renderer::{
    channel, color_to_rgb, image_coordinate, pixel_of, ray_color, render_row, sky, Rgb,
};
use path_tracer::scene::Scene;
use path_tracer::sphere::Sphere;
use path_tracer::vec3::Vector3;
use path_tracer::{IMAGE_HEIGHT, IMAGE_WIDTH, MAX_RAY_TRACE_DEPTH};

fn fx(raw: i64) -> Fixed {
    Fixed::from_raw(raw)
}

fn v(x: i64, y: i64, z: i64) -> Vector3 {
    Vector3 { x: fx(x), y: fx(y), z: fx(z) }
}

fn whole(x: i32, y: i32, z: i32) -> Vector3 {
    Vector3 { x: Fixed::from_int(x), y: Fixed::from_int(y), z: Fixed::from_int(z) }
}

fn wall(material: Material) -> Scene {
    Scene { spheres: vec![Sphere { center: whole(0, 0, 5), radius: Fixed::one(), material }] }
}

fn forward_ray() -> Ray {
    Ray { origin: whole(0, 0, 0), direction: whole(0, 0, 1) }
}

#[test]
fn sky_runs_from_white_to_blue() {
    let up = Ray { origin: whole(0, 0, 0), direction: whole(0, 3, 0) };
    assert_eq!(sky(&up), v(500_000_000, 700_000_000, SCALE));
    let down = Ray { origin: whole(0, 0, 0), direction: whole(0, -3, 0) };
    assert_eq!(sky(&down), whole(1, 1, 1));
    assert_eq!(sky(&forward_ray()), v(750_000_000, 850_000_000, SCALE));
}

#[test]
fn no_bounces_left_means_black() {
    assert_eq!(ray_color(&Scene::generate(), &forward_ray(), 0), Vector3::zero());
    assert_eq!(ray_color(&Scene { spheres: vec![] }, &forward_ray(), 0), Vector3::zero());
}

#[test]
fn ray_that_meets_nothing_brings_the_sky() {
    let empty = Scene { spheres: vec![] };
    assert_eq!(ray_color(&empty, &forward_ray(), 1), v(750_000_000, 850_000_000, SCALE));
    let behind = wall(Material::NONE);
    let back = Ray { origin: whole(0, 0, 0), direction: whole(0, 0, -1) };
    assert_eq!(ray_color(&behind, &back, 7), v(750_000_000, 850_000_000, SCALE));
}

#[test]
fn absorbing_surface_brings_black() {
    assert_eq!(ray_color(&wall(Material::NONE), &forward_ray(), 5), Vector3::zero());
}

#[test]
fn last_bounce_brings_black_from_any_surface() {
    let albedo = v(500_000_000, 500_000_000, 500_000_000);
    assert_eq!(ray_color(&wall(Material::DIFFUSE(albedo)), &forward_ray(), 1), Vector3::zero());
}

#[test]
fn clean_mirror_tints_the_sky_behind_the_viewer() {
    let albedo = v(500_000_000, SCALE, 0);
    let colour = ray_color(&wall(Material::METAL(albedo, fx(0))), &forward_ray(), 2);
    // The ray comes straight back and runs on along -z: sky (0.75, 0.85, 1).
    assert_eq!(colour, v(375_000_000, 850_000_000, 0));
}

#[test]
fn matte_surface_with_unit_albedo_stays_within_the_sky_range() {
    let albedo = v(500_000_000, 500_000_000, 500_000_000);
    let scene = wall(Material::DIFFUSE(albedo));
    for _ in 0..50 {
        let colour = ray_color(&scene, &forward_ray(), MAX_RAY_TRACE_DEPTH);
        for part in [colour.x.raw, colour.y.raw, colour.z.raw] {
            assert!(0 <= part && part <= SCALE);
        }
    }
}

#[test]
fn channel_takes_the_root_clamps_and_scales() {
    assert_eq!(channel(fx(0)), 0);
    assert_eq!(channel(fx(250_000_000)), 128);
    assert_eq!(channel(fx(SCALE)), 255);
    assert_eq!(channel(Fixed::from_int(9)), 255);
    assert_eq!(channel(fx(-5)), 0);
    assert_eq!(channel(fx(990_000_000)), 254);
    assert_eq!(channel(fx(10_000_000)), 25);
}

#[test]
fn colour_becomes_a_pixel_channel_by_channel() {
    assert_eq!(
        color_to_rgb(v(0, 250_000_000, 2_000_000_000)),
        Rgb { red: 0, green: 128, blue: 255 }
    );
}

#[test]
fn pixel_is_the_mean_of_its_samples() {
    assert_eq!(pixel_of(whole(1, 4, 0), 4), Rgb { red: 128, green: 255, blue: 0 });
    assert_eq!(pixel_of(whole(1, 4, 0), 0), Rgb { red: 255, green: 255, blue: 0 });
    assert_eq!(pixel_of(whole(0, 0, 0), 0), Rgb { red: 0, green: 0, blue: 0 });
}

#[test]
fn image_coordinates_run_from_zero_to_one() {
    assert_eq!(image_coordinate(0, fx(0), IMAGE_WIDTH), fx(0));
    assert_eq!(image_coordinate(1919, fx(0), IMAGE_WIDTH), Fixed::one());
    assert_eq!(image_coordinate(539, fx(500_000_000), IMAGE_HEIGHT), fx(500_000_000));
    assert_eq!(image_coordinate(3, fx(500_000_000), 8), fx(500_000_000));
}

#[test]
fn rendered_row_has_one_pixel_per_column() {
    let camera = Camera::new(whole(0, 0, 0), whole(0, 0, 1), Fixed::one(), fx(0), Fixed::one());
    let row = render_row(0, 1, &camera, &Scene { spheres: vec![] });
    assert_eq!(row.len(), IMAGE_WIDTH as usize);
    // Every ray of the upper row meets nothing: the sky is at least half a
    // channel bright, and brighter after the square root.
    for pixel in row {
        assert!(pixel.red >= 181 && pixel.green >= 181 && pixel.blue == 255);
    }
}

#[test]
fn row_without_samples_is_black() {
    let camera = Camera::new(whole(0, 0, 0), whole(0, 0, 1), Fixed::one(), fx(0), Fixed::one());
    let row = render_row(7, 0, &camera, &wall(Material::NONE));
    assert_eq!(row.len(), IMAGE_WIDTH as usize);
    assert!(row.iter().all(|pixel| *pixel == Rgb { red: 0, green: 0, blue: 0 }));
}

#[test]
fn primary_colours_from_hue() {
    let one = Fixed::one();
    assert_eq!(hsv_to_rgb(Fixed::from_int(0), one, one), whole(1, 0, 0));
    assert_eq!(hsv_to_rgb(Fixed::from_int(60), one, one), whole(1, 1, 0));
    assert_eq!(hsv_to_rgb(Fixed::from_int(120), one, one), whole(0, 1, 0));
    assert_eq!(hsv_to_rgb(Fixed::from_int(180), one, one), whole(0, 1, 1));
    assert_eq!(hsv_to_rgb(Fixed::from_int(240), one, one), whole(0, 0, 1));
    assert_eq!(hsv_to_rgb(Fixed::from_int(300), one, one), whole(1, 0, 1));
}

#[test]
fn muted_colour_from_hue_saturation_and_value() {
    // c = 0.3375, x = c * 0.5, m = 0.1125
    let colour = hsv_to_rgb(Fixed::from_int(30), fx(750_000_000), fx(450_000_000));
    assert_eq!(colour, v(450_000_000, 281_250_000, 112_500_000));
    let colour = hsv_to_rgb(Fixed::from_int(210), fx(750_000_000), fx(450_000_000));
    assert_eq!(colour, v(112_500_000, 281_250_000, 450_000_000));
}

#[test]
fn hue_outside_the_circle_takes_the_last_sector() {
    let one = Fixed::one();
    assert_eq!(hsv_to_rgb(Fixed::from_int(360), one, one), whole(1, 0, 0));
    assert_eq!(hsv_to_rgb(Fixed::from_int(420), one, one), whole(1, 0, 1));
}

#[test]
fn random_colours_have_the_fixed_value_as_largest_component() {
    for _ in 0..100 {
        let colour = random_color();
        let parts = [colour.x.raw, colour.y.raw, colour.z.raw];
        assert_eq!(*parts.iter().max().unwrap(), 450_000_000);
        assert_eq!(*parts.iter().min().unwrap(), 112_500_000);
    }
}

#[test]
fn sky_along_a_short_direction_is_the_sky_along_the_unit_direction() {
    let up = Ray { origin: whole(0, 0, 0), direction: v(0, 2, 0) };
    assert_eq!(sky(&up), v(500_000_000, 700_000_000, SCALE));
    assert_eq!(
        ray_color(&Scene { spheres: vec![] }, &up, 1),
        v(500_000_000, 700_000_000, SCALE)
    );
    let nowhere = Ray { origin: whole(0, 0, 0), direction: Vector3::zero() };
    assert_eq!(sky(&nowhere), v(750_000_000, 850_000_000, SCALE));
}

#[test]
fn generated_scene_brings_colours_in_the_unit_range() {
    let scene = Scene::generate();
    let camera = Camera::new(whole(12, 2, -3), whole(0, 0, 0), fx(221_694_663), fx(0), Fixed::from_int(10));
    for step in 0..40 {
        let ray = camera.get_ray(fx(25_000_000 * step), fx(999_999_999 - 25_000_000 * step));
        let colour = ray_color(&scene, &ray, MAX_RAY_TRACE_DEPTH);
        for part in [colour.x.raw, colour.y.raw, colour.z.raw] {
            assert!(0 <= part && part <= SCALE);
        }
    }
}
