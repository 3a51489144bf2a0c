use path_tracer::fixed::{Fixed, SCALE};
use path_tracer::sampling::{coin, uniform};
use path_tracer::vec3::Vector3;

fn v(x: i64, y: i64, z: i64) -> Vector3 {
    Vector3 { x: Fixed::from_raw(x), y: Fixed::from_raw(y), z: Fixed::from_raw(z) }
}

fn whole(x: i32, y: i32, z: i32) -> Vector3 {
    Vector3 { x: Fixed::from_int(x), y: Fixed::from_int(y), z: Fixed::from_int(z) }
}

#[test]
fn component_wise_operators() {
    let a = whole(1, 2, 3);
    let b = whole(4, -5, 6);
    assert_eq!(a + b, whole(5, -3, 9));
    assert_eq!(a - b, whole(-3, 7, -3));
    assert_eq!(-a, whole(-1, -2, -3));
    assert_eq!(a * Fixed::from_raw(500_000_000), v(500_000_000, 1_000_000_000, 1_500_000_000));
    assert_eq!(a * b, whole(4, -10, 18));
    assert_eq!(a / Fixed::from_int(2), v(500_000_000, 1_000_000_000, 1_500_000_000));
}

#[test]
fn dot_and_cross_products() {
    let a = whole(1, 2, 3);
    let b = whole(4, -5, 6);
    assert_eq!(a.dot(&b), Fixed::from_int(12));
    assert_eq!(a.cross(&b), whole(27, 6, -13));
    assert_eq!(whole(1, 0, 0).cross(&whole(0, 1, 0)), whole(0, 0, 1));
}

#[test]
fn length_of_a_pythagorean_vector() {
    let a = whole(3, 4, 12);
    assert_eq!(a.length_squared(), Fixed::from_int(169));
    assert_eq!(a.length(), Fixed::from_int(13));
}

#[test]
fn normalized_vector_has_unit_length() {
    let n = whole(3, 0, 4).normalized();
    assert_eq!(n, v(600_000_000, 0, 800_000_000));
    assert_eq!(n.length_squared(), Fixed::one());
}

#[test]
fn normalizing_the_zero_vector_divides_by_zero() {
    assert_eq!(Vector3::zero().normalized(), Vector3::zero());
}

#[test]
fn near_zero_is_below_ten_billionths() {
    assert!(v(9, -9, 0).is_near_zero());
    assert!(!v(10, 0, 0).is_near_zero());
    assert!(!v(0, -10, 0).is_near_zero());
    assert!(!v(0, 0, SCALE).is_near_zero());
}

#[test]
fn zero_and_up() {
    assert_eq!(Vector3::zero(), whole(0, 0, 0));
    assert_eq!(Vector3::up(), whole(0, 1, 0));
}

#[test]
fn candidate_maps_unit_draws_to_the_cube() {
    let c = Vector3::candidate(
        Fixed::from_raw(0),
        Fixed::from_raw(500_000_000),
        Fixed::from_raw(999_999_999),
    );
    assert_eq!(c, v(-1_000_000_000, 0, 999_999_998));
}

#[test]
fn random_unit_vectors_have_unit_length_up_to_rounding() {
    for _ in 0..200 {
        let length_squared = Vector3::random_unit_vector().length_squared().raw;
        assert!(SCALE - 9 <= length_squared && length_squared <= SCALE + 2, "{}", length_squared);
    }
}

#[test]
fn uniform_draws_lie_in_the_unit_interval_and_vary() {
    let first = uniform().raw;
    let mut varied = false;
    for _ in 0..64 {
        let draw = uniform().raw;
        assert!(0 <= draw && draw < SCALE);
        varied = varied || draw != first;
    }
    assert!(varied);
}

#[test]
fn coin_tosses_lie_in_the_unit_interval_and_vary() {
    let first = coin().raw;
    let mut varied = false;
    for _ in 0..64 {
        let draw = coin().raw;
        assert!(0 <= draw && draw < SCALE);
        varied = varied || draw != first;
    }
    assert!(varied);
}

#[test]
fn short_vectors_are_normalized_to_unit_length() {
    assert_eq!(v(35_000, 0, 0).normalized(), whole(1, 0, 0));
    assert_eq!(v(0, -2, 0).normalized(), whole(0, -1, 0));
    assert_eq!(v(1, 1, 1).normalized(), v(577_350_269, 577_350_269, 577_350_269));
    assert_eq!(v(3, 0, -4).normalized(), v(600_000_000, 0, -800_000_000));
    let unit = v(20, -1, 7).normalized();
    assert!((unit.length_squared().raw - SCALE).abs() <= 9);
}

#[test]
fn long_vectors_are_normalized_to_unit_length() {
    let far = v(300_000_000_000_000, 0, 400_000_000_000_000).normalized();
    assert_eq!(far, v(600_000_000, 0, 800_000_000));
    let farthest = v(i64::MAX, i64::MIN, i64::MAX).normalized();
    assert_eq!(farthest, v(577_350_269, -577_350_269, 577_350_269));
    assert_eq!(v(0, 0, i64::MIN).normalized(), whole(0, 0, -1));
}

#[test]
fn length_is_the_root_of_the_exact_sum_of_squares() {
    assert_eq!(v(20, 0, 0).length(), Fixed::from_raw(20));
    assert_eq!(v(3, 4, 0).length(), Fixed::from_raw(5));
    assert_eq!(v(1, 1, 1).length(), Fixed::from_raw(1));
    assert_eq!(
        v(300_000_000_000_000, 0, 400_000_000_000_000).length(),
        Fixed::from_raw(500_000_000_000_000)
    );
    assert_eq!(v(i64::MAX, i64::MAX, i64::MAX).length(), Fixed::from_raw(i64::MAX));
}

#[test]
fn cube_points_are_kept_inside_the_unit_sphere_and_away_from_its_centre() {
    let half = Fixed::from_raw(500_000_000);
    // The centre of the cube has no direction.
    assert_eq!(Vector3::unit_vector_of(half, half, half), None);
    // A point of the unit sphere itself is not kept.
    assert_eq!(
        Vector3::unit_vector_of(Fixed::from_raw(800_000_000), half, Fixed::from_raw(100_000_000)),
        None
    );
    // A corner lies outside the unit sphere.
    assert_eq!(Vector3::unit_vector_of(Fixed::zero(), Fixed::zero(), Fixed::zero()), None);
    // The nearest neighbour of the centre is kept and gets unit length.
    assert_eq!(
        Vector3::unit_vector_of(Fixed::from_raw(500_000_001), half, half),
        Some(whole(1, 0, 0))
    );
    assert_eq!(
        Vector3::unit_vector_of(half, Fixed::from_raw(750_000_000), half),
        Some(whole(0, 1, 0))
    );
    assert_eq!(
        Vector3::unit_vector_of(Fixed::from_raw(650_000_000), half, Fixed::from_raw(300_000_000)),
        Some(v(600_000_000, 0, -800_000_000))
    );
}
