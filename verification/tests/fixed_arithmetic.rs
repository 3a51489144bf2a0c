use path_tracer::fixed::{Fixed, RAW_MAX, RAW_MIN, SCALE};

fn fx(raw: i64) -> Fixed {
    Fixed::from_raw(raw)
}

#[test]
fn product_of_halves_is_a_quarter() {
    assert_eq!((fx(500_000_000) * fx(500_000_000)).raw, 250_000_000);
}

#[test]
fn product_rounds_toward_zero_on_both_sides() {
    // 0.000000003 * 0.5 = 0.0000000015, which lies between two grid points.
    assert_eq!((fx(3) * fx(500_000_000)).raw, 1);
    assert_eq!((fx(-3) * fx(500_000_000)).raw, -1);
    assert_eq!((fx(3) * fx(-500_000_000)).raw, -1);
    assert_eq!((fx(-3) * fx(-500_000_000)).raw, 1);
}

#[test]
fn quotient_rounds_toward_zero_on_both_sides() {
    assert_eq!((Fixed::from_int(1) / Fixed::from_int(3)).raw, 333_333_333);
    assert_eq!((Fixed::from_int(-1) / Fixed::from_int(3)).raw, -333_333_333);
    assert_eq!((Fixed::from_int(2) / Fixed::from_int(-3)).raw, -666_666_666);
}

#[test]
fn sums_and_products_saturate() {
    assert_eq!((fx(RAW_MAX) + fx(1)).raw, RAW_MAX);
    assert_eq!((fx(RAW_MIN) - fx(1)).raw, RAW_MIN);
    assert_eq!((fx(RAW_MAX) * Fixed::from_int(2)).raw, RAW_MAX);
    assert_eq!((fx(RAW_MAX) * Fixed::from_int(-2)).raw, RAW_MIN);
    assert_eq!((fx(RAW_MAX) / fx(1)).raw, RAW_MAX);
    assert_eq!((-fx(i64::MIN)).raw, RAW_MAX);
}

#[test]
fn division_by_zero_saturates_by_sign() {
    let zero = Fixed::zero();
    assert_eq!((Fixed::one() / zero).raw, RAW_MAX);
    assert_eq!((Fixed::from_int(-1) / zero).raw, RAW_MIN);
    assert_eq!((zero / zero).raw, 0);
    assert_eq!(Fixed::one().raw, SCALE);
}

#[test]
fn square_root_of_a_quarter_is_a_half() {
    assert_eq!(fx(250_000_000).sqrt().raw, 500_000_000);
}

#[test]
fn square_root_rounds_down_and_is_zero_below_zero() {
    // sqrt(2) = 1.41421356237...
    assert_eq!(Fixed::from_int(2).sqrt().raw, 1_414_213_562);
    assert_eq!(Fixed::from_int(-4).sqrt().raw, 0);
    assert_eq!(Fixed::zero().sqrt().raw, 0);
    assert_eq!(fx(RAW_MAX).sqrt().raw, 96_038_388_349_944);
}

#[test]
fn remainder_takes_the_sign_of_the_dividend() {
    let two = Fixed::from_int(2);
    assert_eq!((fx(5_500_000_000) % two).raw, 1_500_000_000);
    assert_eq!((fx(-5_500_000_000) % two).raw, -1_500_000_000);
    assert_eq!((fx(5_500_000_000) % Fixed::zero()).raw, 0);
}

#[test]
fn floor_goes_down_on_both_sides() {
    assert_eq!(fx(2_700_000_000).floor().raw, 2_000_000_000);
    assert_eq!(fx(-2_700_000_000).floor().raw, -3_000_000_000);
    assert_eq!(fx(-3_000_000_000).floor().raw, -3_000_000_000);
    assert_eq!(fx(i64::MIN).floor().raw, RAW_MIN);
}

#[test]
fn magnitude_minimum_and_clamp() {
    assert_eq!(fx(-7).abs().raw, 7);
    assert_eq!(fx(7).abs().raw, 7);
    assert_eq!(fx(3).min(fx(-4)).raw, -4);
    assert_eq!(fx(1_500_000_000).clamp_unit().raw, SCALE);
    assert_eq!(fx(-1).clamp_unit().raw, 0);
    assert_eq!(fx(123).clamp_unit().raw, 123);
}

#[test]
fn fifth_power_of_a_fifth() {
    // 0.2^5 = 0.00032
    assert_eq!(fx(200_000_000).pow5().raw, 320_000);
}

#[test]
fn whole_numbers_are_exact() {
    assert_eq!(Fixed::from_int(-1000).raw, -1_000_000_000_000);
    assert_eq!(Fixed::from_count(1920).raw, 1_920_000_000_000);
    assert_eq!(Fixed::from_count(u32::MAX).raw, 4_294_967_295_000_000_000);
}
