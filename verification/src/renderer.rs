//! The radiance estimator and the rendering of one image row.
use vstd::prelude::*;
use crate::camera::Camera;
use crate::fixed::{Fixed, RAW_MAX, SCALE};
use crate::hit_record::HitRecord;
use crate::ray::Ray;
use crate::sampling::{is_unit_draw, uniform};
use crate::scatter_info::ScatterInfo;
use crate::scene::{has_unit_albedos, nearest_hit, Scene};
use crate::sphere::Sphere;
use crate::vec3::Vector3;
use crate::{IMAGE_HEIGHT, IMAGE_WIDTH, MAX_RAY_TRACE_DEPTH};

verus! {

/// The nearest ray parameter at which a surface counts as met: `0.001`.
/// Nearer meeting points are a surface meeting the ray that just left it.
pub const NEAREST_RAW: i64 = 1_000_000;

/// One pixel of the finished image: eight bits per channel.
#[derive(Clone, Copy, PartialEq, Eq, Structural, Debug)]
pub struct Rgb {
    pub red: u8,
    pub green: u8,
    pub blue: u8,
}

/// The colour of the sky along a ray that meets nothing: white at the
/// horizon's lower end, sky blue `(0.5, 0.7, 1.0)` at the upper one, mixed
/// by `t = 0.5 * (y + 1)` for the unit direction's `y`.
pub open spec fn sky_spec(ray: Ray) -> Vector3 {
    let one = Fixed { raw: SCALE };
    let t = (Fixed { raw: 500_000_000 }).times(ray.direction.normalized_spec().y.plus(one));
    Vector3::of_raw(SCALE as int, SCALE as int, SCALE as int).scaled(one.minus(t)).plus(
        Vector3::of_raw(500_000_000, 700_000_000, SCALE as int).scaled(t),
    )
}

/// The light that comes back along a path after a surface has scattered
/// it: the light of the rest of the path, times the surface's colour; none
/// where the surface absorbed the ray.
pub open spec fn shade_spec(info: ScatterInfo, rest: Vector3) -> Vector3 {
    if info.does_scatter {
        info.attenuation.times(rest)
    } else {
        Vector3::of_raw(0, 0, 0)
    }
}

/// Whether `colour` is the light that some path of at most `depth` bounces
/// brings back along `ray`. A path of no bounces brings none. A ray that
/// meets nothing brings the sky's colour. A ray that meets a surface is
/// scattered there, for some unit sample and some coin, and brings back
/// the light of the scattered ray, with one bounce less, shaded by the
/// surface.
pub open spec fn is_radiance(spheres: Seq<Sphere>, ray: Ray, depth: nat, colour: Vector3) -> bool
    decreases depth,
{
    if depth == 0 {
        colour == Vector3::of_raw(0, 0, 0)
    } else {
        let record = nearest_hit(spheres, ray, Fixed { raw: NEAREST_RAW }, Fixed { raw: RAW_MAX });
        if !record.hit {
            colour == sky_spec(ray)
        } else {
            exists|sample: Vector3, coin: Fixed, rest: Vector3|
                sample.is_unit_sample() && is_unit_draw(coin) && colour == #[trigger] shade_spec(
                    record.material.scatter_spec(ray, record, sample, coin),
                    rest,
                ) && (record.material.scatter_spec(ray, record, sample, coin).does_scatter
                    ==> is_radiance(
                    spheres,
                    record.material.scatter_spec(ray, record, sample, coin).scattered_ray,
                    (depth - 1) as nat,
                    rest,
                ))
        }
    }
}

/// The byte of a colour channel: the channel's square root, pulled into
/// `[0, 1]`, times 256 and rounded down, with 255 for a full channel.
pub open spec fn channel_spec(value: Fixed) -> u8 {
    let level = value.sqrt_spec().clamp_unit_spec().times(Fixed { raw: 256_000_000_000 }).raw
        / SCALE;
    if level >= 255 {
        255u8
    } else {
        level as u8
    }
}

/// The pixel of a colour; see [`channel_spec`].
pub open spec fn color_to_rgb_spec(color: Vector3) -> Rgb {
    Rgb { red: channel_spec(color.x), green: channel_spec(color.y), blue: channel_spec(color.z) }
}

/// The image coordinate of a sample in the pixel column or row `index` of
/// an image `extent` pixels across: `(index + jitter) / (extent - 1)`.
pub open spec fn image_coordinate_spec(index: u32, jitter: Fixed, extent: u32) -> Fixed {
    Fixed::whole(index as int).plus(jitter).over(Fixed::whole(extent as int).minus(Fixed { raw: SCALE }))
}

/// The pixel for the summed light of `samples` paths: their mean, as a
/// pixel.
pub open spec fn pixel_spec(sum: Vector3, samples: u32) -> Rgb {
    color_to_rgb_spec(sum.over(Fixed::whole(samples as int)))
}

/// One path through a pixel: where in the pixel and on the lens it
/// starts, and the light that it brings back.
pub struct PathSample {
    pub jitter_x: Fixed,
    pub jitter_y: Fixed,
    pub lens: Vector3,
    pub colour: Vector3,
}

/// Whether `sample` can be a path through the pixel `(x, y)`: its jitters
/// are unit draws, its lens point is a unit sample, and its colour is the
/// light that some path of at most `MAX_RAY_TRACE_DEPTH` bounces brings
/// back along the camera's ray for them.
pub open spec fn is_path_sample(spheres: Seq<Sphere>, camera: Camera, x: u32, y: u32, sample: PathSample) -> bool {
    &&& is_unit_draw(sample.jitter_x)
    &&& is_unit_draw(sample.jitter_y)
    &&& sample.lens.is_unit_sample()
    &&& is_radiance(
        spheres,
        camera.ray_spec(
            image_coordinate_spec(x, sample.jitter_x, IMAGE_WIDTH),
            image_coordinate_spec(y, sample.jitter_y, IMAGE_HEIGHT),
            sample.lens,
        ),
        MAX_RAY_TRACE_DEPTH as nat,
        sample.colour,
    )
}

/// The light of a list of paths, summed in order.
pub open spec fn light_sum(taken: Seq<PathSample>) -> Vector3
    decreases taken.len(),
{
    if taken.len() == 0 {
        Vector3::of_raw(0, 0, 0)
    } else {
        light_sum(taken.drop_last()).plus(taken.last().colour)
    }
}

/// Whether `pixel` can be the rendered pixel `(x, y)`: the pixel for the
/// summed light of `samples_per_pixel` paths through it.
pub open spec fn is_pixel(
    spheres: Seq<Sphere>,
    camera: Camera,
    x: u32,
    y: u32,
    samples_per_pixel: u32,
    pixel: Rgb,
) -> bool {
    exists|taken: Seq<PathSample>|
        taken.len() == samples_per_pixel && (forall|i: int|
            0 <= i < taken.len() ==> is_path_sample(spheres, camera, x, y, #[trigger] taken[i]))
            && pixel == pixel_spec(#[trigger] light_sum(taken), samples_per_pixel)
}

/// The sky's colour has every component in `[0, 1]`, along every ray.
pub proof fn lemma_sky_is_unit_colour(ray: Ray)
    ensures
        sky_spec(ray).is_unit_colour(),
{
    let one = Fixed { raw: SCALE };
    let half = Fixed { raw: 500_000_000 };
    let unit = ray.direction.normalized_spec();
    if ray.direction.square_sum() != 0 {
        ray.direction.lemma_normalized_is_unit();
    } else {
        assert(ray.direction.x.raw * ray.direction.x.raw >= 0 && ray.direction.y.raw
            * ray.direction.y.raw >= 0 && ray.direction.z.raw * ray.direction.z.raw >= 0 && (
        ray.direction.y.raw != 0 ==> ray.direction.y.raw * ray.direction.y.raw > 0))
            by (nonlinear_arith);
    }
    let lifted = unit.y.plus(one);
    assert(0 <= lifted.raw <= 2 * SCALE);
    half.lemma_times_fraction(lifted);
    let t = half.times(lifted);
    assert(half.raw * lifted.raw <= SCALE * SCALE) by (nonlinear_arith)
        requires
            half.raw == 500_000_000,
            0 <= lifted.raw <= 2_000_000_000,
            SCALE == 1_000_000_000,
    ;
    assert(half.raw * lifted.raw >= 0) by (nonlinear_arith)
        requires
            half.raw == 500_000_000,
            0 <= lifted.raw,
    ;
    half.lemma_times_rounding(lifted, SCALE as int);
    assert(0 <= t.raw <= SCALE);
    let rest = one.minus(t);
    one.lemma_times_exact(rest, rest.raw as int);
    (Fixed { raw: 500_000_000 }).lemma_times_fraction(t);
    (Fixed { raw: 700_000_000 }).lemma_times_fraction(t);
    one.lemma_times_fraction(t);
    assert(one.times(rest) == rest.times(one)) by {
        assert(one.raw * rest.raw == rest.raw * one.raw) by (nonlinear_arith);
    }
    assert((Fixed { raw: 500_000_000 }).times(t) == t.times(Fixed { raw: 500_000_000 })) by {
        assert(500_000_000 * t.raw == t.raw * 500_000_000) by (nonlinear_arith);
    }
    assert((Fixed { raw: 700_000_000 }).times(t) == t.times(Fixed { raw: 700_000_000 })) by {
        assert(700_000_000 * t.raw == t.raw * 700_000_000) by (nonlinear_arith);
    }
    assert(one.times(t) == t.times(one)) by {
        assert(one.raw * t.raw == t.raw * one.raw) by (nonlinear_arith);
    }
}

/// The product of two colours with components in `[0, 1]` has its
/// components in `[0, 1]`.
pub proof fn lemma_shaded_is_unit_colour(attenuation: Vector3, rest: Vector3)
    requires
        attenuation.is_unit_colour(),
        rest.is_unit_colour(),
    ensures
        attenuation.times(rest).is_unit_colour(),
{
    attenuation.x.lemma_times_fraction(rest.x);
    attenuation.y.lemma_times_fraction(rest.y);
    attenuation.z.lemma_times_fraction(rest.z);
}

/// In a scene whose albedos have their components in `[0, 1]`, the light
/// that any path brings back has its components in `[0, 1]`.
pub proof fn lemma_radiance_is_unit_colour(spheres: Seq<Sphere>, ray: Ray, depth: nat, colour: Vector3)
    requires
        has_unit_albedos(spheres),
        is_radiance(spheres, ray, depth, colour),
    ensures
        colour.is_unit_colour(),
    decreases depth,
{
    if depth > 0 {
        let near = Fixed { raw: NEAREST_RAW };
        let far = Fixed { raw: RAW_MAX };
        let record = nearest_hit(spheres, ray, near, far);
        if !record.hit {
            lemma_sky_is_unit_colour(ray);
        } else {
            crate::scene::lemma_nearest_hit_is_nearest(spheres, ray, near, far);
            let i = choose|i: int|
                0 <= i < spheres.len() && record == #[trigger] crate::scene::own_hit(
                    spheres,
                    i,
                    ray,
                    near,
                    far,
                );
            spheres[i].lemma_hit_record(ray, near, far);
            assert(record.material.has_unit_albedo());
            let (sample, coin, rest) = choose|sample: Vector3, coin: Fixed, rest: Vector3|
                sample.is_unit_sample() && is_unit_draw(coin) && colour == #[trigger] shade_spec(
                    record.material.scatter_spec(ray, record, sample, coin),
                    rest,
                ) && (record.material.scatter_spec(ray, record, sample, coin).does_scatter
                    ==> is_radiance(
                    spheres,
                    record.material.scatter_spec(ray, record, sample, coin).scattered_ray,
                    (depth - 1) as nat,
                    rest,
                ));
            let info = record.material.scatter_spec(ray, record, sample, coin);
            record.material.lemma_attenuation_in_unit_range(ray, record, sample, coin);
            if info.does_scatter {
                lemma_radiance_is_unit_colour(spheres, info.scattered_ray, (depth - 1) as nat, rest);
                lemma_shaded_is_unit_colour(info.attenuation, rest);
            }
        }
    }
}

/// The byte of a colour channel; see [`channel_spec`].
pub fn channel(value: Fixed) -> (byte: u8)
    ensures
        byte == channel_spec(value),
{
    let scaled: Fixed = value.sqrt().clamp_unit() * Fixed::from_int(256);
    proof {
        value.sqrt_spec().clamp_unit_spec().lemma_times_fraction(Fixed { raw: 256_000_000_000 });
    }
    let level: i64 = scaled.raw / SCALE;
    if level >= 255 {
        255
    } else {
        level as u8
    }
}

/// Turns a colour into a pixel: gamma correction by square root, a clamp
/// to `[0, 1]`, and the scale to eight bits.
pub fn color_to_rgb(color: Vector3) -> (pixel: Rgb)
    ensures
        pixel == color_to_rgb_spec(color),
{
    Rgb { red: channel(color.x), green: channel(color.y), blue: channel(color.z) }
}

/// The image coordinate of a sample; see [`image_coordinate_spec`].
pub fn image_coordinate(index: u32, jitter: Fixed, extent: u32) -> (coordinate: Fixed)
    ensures
        coordinate == image_coordinate_spec(index, jitter, extent),
{
    (Fixed::from_count(index) + jitter) / (Fixed::from_count(extent) - Fixed::one())
}

/// The pixel for the summed light of `samples` paths; see [`pixel_spec`].
pub fn pixel_of(sum: Vector3, samples: u32) -> (pixel: Rgb)
    ensures
        pixel == pixel_spec(sum, samples),
{
    color_to_rgb(sum / Fixed::from_count(samples))
}

/// The colour of the sky along a ray; see [`sky_spec`].
pub fn sky(ray: &Ray) -> (colour: Vector3)
    ensures
        colour == sky_spec(*ray),
{
    let one = Fixed::one();
    let unit_direction: Vector3 = ray.direction.normalized();
    let t: Fixed = Fixed::from_raw(500_000_000) * (unit_direction.y + one);
    Vector3 { x: one, y: one, z: one } * (one - t) + Vector3 {
        x: Fixed::from_raw(500_000_000),
        y: Fixed::from_raw(700_000_000),
        z: one,
    } * t
}

/// Estimates the light that comes back along `ray` by following one random
/// path of at most `depth` bounces.
pub fn ray_color(scene: &Scene, ray: &Ray, depth: u32) -> (colour: Vector3)
    ensures
        is_radiance(scene@, *ray, depth as nat, colour),
        depth == 0 ==> colour == Vector3::of_raw(0, 0, 0),
        has_unit_albedos(scene@) ==> colour.is_unit_colour(),
    decreases depth,
{
    proof {
        lemma_sky_is_unit_colour(*ray);
    }
    if depth == 0 {
        return Vector3::zero();
    }
    let hit_record: HitRecord = scene.ray_hit_scene(
        ray,
        Fixed::from_raw(NEAREST_RAW),
        Fixed::from_raw(RAW_MAX),
    );
    if hit_record.hit {
        let scatter_info: ScatterInfo = hit_record.material.scatter(ray, &hit_record);
        let ghost (sample, coin) = choose|sample: Vector3, coin: Fixed|
            sample.is_unit_sample() && is_unit_draw(coin) && scatter_info
                == #[trigger] hit_record.material.scatter_spec(*ray, hit_record, sample, coin);
        if scatter_info.does_scatter {
            let rest = ray_color(scene, &scatter_info.scattered_ray, depth - 1);
            let colour = scatter_info.attenuation * rest;
            proof {
                if has_unit_albedos(scene@) {
                    lemma_shaded_is_unit_colour(scatter_info.attenuation, rest);
                }
            }
            assert(colour == shade_spec(
                hit_record.material.scatter_spec(*ray, hit_record, sample, coin),
                rest,
            ));
            return colour;
        }
        let colour = Vector3::zero();
        assert(colour == shade_spec(
            hit_record.material.scatter_spec(*ray, hit_record, sample, coin),
            colour,
        ));
        return colour;
    }
    sky(ray)
}

/// Renders the image row `y`: every pixel is the mean of
/// `samples_per_pixel` paths through random points of the pixel.
pub fn render_row(y: u32, samples_per_pixel: u32, camera: &Camera, scene: &Scene) -> (row: Vec<Rgb>)
    ensures
        row@.len() == IMAGE_WIDTH,
        forall|x: int|
            0 <= x < IMAGE_WIDTH ==> is_pixel(
                scene@,
                *camera,
                x as u32,
                y,
                samples_per_pixel,
                #[trigger] row@[x],
            ),
        samples_per_pixel == 0 ==> forall|x: int|
            0 <= x < IMAGE_WIDTH ==> #[trigger] row@[x] == pixel_spec(Vector3::of_raw(0, 0, 0), 0),
{
    let mut row: Vec<Rgb> = Vec::new();
    let mut x: u32 = 0;
    while x < IMAGE_WIDTH
        invariant
            x <= IMAGE_WIDTH,
            row@.len() == x,
            forall|k: int|
                0 <= k < x ==> is_pixel(
                    scene@,
                    *camera,
                    k as u32,
                    y,
                    samples_per_pixel,
                    #[trigger] row@[k],
                ),
            samples_per_pixel == 0 ==> forall|k: int|
                0 <= k < x ==> #[trigger] row@[k] == pixel_spec(Vector3::of_raw(0, 0, 0), 0),
        decreases IMAGE_WIDTH - x,
    {
        let mut pixel_color: Vector3 = Vector3::zero();
        let mut sample: u32 = 0;
        let ghost mut taken: Seq<PathSample> = Seq::empty();
        while sample < samples_per_pixel
            invariant
                sample <= samples_per_pixel,
                taken.len() == sample,
                forall|i: int|
                    0 <= i < taken.len() ==> is_path_sample(scene@, *camera, x, y, #[trigger] taken[i]),
                pixel_color == light_sum(taken),
            decreases samples_per_pixel - sample,
        {
            let jitter_x = uniform();
            let jitter_y = uniform();
            let u: Fixed = image_coordinate(x, jitter_x, IMAGE_WIDTH);
            let v: Fixed = image_coordinate(y, jitter_y, IMAGE_HEIGHT);
            let ray: Ray = camera.get_ray(u, v);
            let colour = ray_color(scene, &ray, MAX_RAY_TRACE_DEPTH);
            proof {
                let lens = choose|lens: Vector3|
                    lens.is_unit_sample() && ray == #[trigger] camera.ray_spec(u, v, lens);
                let path = PathSample { jitter_x, jitter_y, lens, colour };
                let longer = taken.push(path);
                assert(longer.drop_last() =~= taken);
                assert(longer.last() == path);
                assert forall|i: int| 0 <= i < longer.len() implies is_path_sample(
                    scene@,
                    *camera,
                    x,
                    y,
                    #[trigger] longer[i],
                ) by {
                    if i < taken.len() {
                        assert(longer[i] == taken[i]);
                    }
                }
                taken = longer;
            }
            pixel_color = pixel_color + colour;
            sample = sample + 1;
        }
        let pixel = pixel_of(pixel_color, samples_per_pixel);
        let ghost before = row@;
        row.push(pixel);
        proof {
            assert(is_pixel(scene@, *camera, x, y, samples_per_pixel, pixel));
            assert forall|k: int| 0 <= k < x + 1 implies is_pixel(
                scene@,
                *camera,
                k as u32,
                y,
                samples_per_pixel,
                #[trigger] row@[k],
            ) by {
                if k < x {
                    assert(row@[k] == before[k]);
                }
            }
            if samples_per_pixel == 0 {
                assert(taken.len() == 0);
                assert forall|k: int| 0 <= k < x + 1 implies #[trigger] row@[k] == pixel_spec(
                    Vector3::of_raw(0, 0, 0),
                    0,
                ) by {
                    if k < x {
                        assert(row@[k] == before[k]);
                    }
                }
            }
        }
        x = x + 1;
    }
    row
}

} // verus!
