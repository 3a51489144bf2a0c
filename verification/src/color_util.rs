//! Colours from hue, saturation and value.
use vstd::prelude::*;
use crate::fixed::{Fixed, SCALE};
use crate::sampling::{is_unit_draw, uniform};
use crate::vec3::Vector3;

verus! {

/// The saturation of a random colour: `0.75`.
pub const RANDOM_SATURATION_RAW: i64 = 750_000_000;

/// The value of a random colour: `0.45`.
pub const RANDOM_VALUE_RAW: i64 = 450_000_000;

/// The chroma of a colour: `s * v`.
pub open spec fn chroma_spec(s: Fixed, v: Fixed) -> Fixed {
    s.times(v)
}

/// The second-largest component of a colour above its smallest:
/// `c * (1 - |(h / 60) mod 2 - 1|)`.
pub open spec fn second_spec(h: Fixed, s: Fixed, v: Fixed) -> Fixed {
    let one = Fixed { raw: SCALE };
    let sixty = Fixed { raw: 60_000_000_000 };
    let two = Fixed { raw: 2_000_000_000 };
    chroma_spec(s, v).times(one.minus(h.over(sixty).modulo(two).minus(one).abs_spec()))
}

/// The colour with hue `h` in degrees, saturation `s` and value `v`. The
/// hue circle has six sectors of sixty degrees; a hue outside `[0, 300)`
/// takes the last one.
pub open spec fn hsv_to_rgb_spec(h: Fixed, s: Fixed, v: Fixed) -> Vector3 {
    let c = chroma_spec(s, v);
    let x = second_spec(h, s, v);
    let m = v.minus(c);
    let zero = Fixed { raw: 0 };
    let rgb = if 0 <= h.raw < 60 * SCALE {
        (c, x, zero)
    } else if 60 * SCALE <= h.raw < 120 * SCALE {
        (x, c, zero)
    } else if 120 * SCALE <= h.raw < 180 * SCALE {
        (zero, c, x)
    } else if 180 * SCALE <= h.raw < 240 * SCALE {
        (zero, x, c)
    } else if 240 * SCALE <= h.raw < 300 * SCALE {
        (x, zero, c)
    } else {
        (c, zero, x)
    };
    Vector3 { x: rgb.0.plus(m), y: rgb.1.plus(m), z: rgb.2.plus(m) }
}

/// The colour that a unit draw stands for: its hue is the draw times 360,
/// rounded down to whole degrees.
pub open spec fn colour_of_draw(draw: Fixed) -> Vector3 {
    hsv_to_rgb_spec(
        draw.times(Fixed { raw: 360_000_000_000 }).floor_spec(),
        Fixed { raw: RANDOM_SATURATION_RAW },
        Fixed { raw: RANDOM_VALUE_RAW },
    )
}

/// A colour of random hue, saturation `0.75` and value `0.45`.
pub fn random_color() -> (colour: Vector3)
    ensures
        exists|draw: Fixed| is_unit_draw(draw) && colour == #[trigger] colour_of_draw(draw),
        colour.is_unit_colour(),
{
    let draw = uniform();
    let h: Fixed = (draw * Fixed::from_int(360)).floor();
    let colour = hsv_to_rgb(
        h,
        Fixed::from_raw(RANDOM_SATURATION_RAW),
        Fixed::from_raw(RANDOM_VALUE_RAW),
    );
    proof {
        assert(draw.raw * 360_000_000_000 >= 0) by (nonlinear_arith)
            requires
                draw.raw >= 0,
        ;
        vstd::arithmetic::div_mod::lemma_div_pos_is_pos(draw.raw * 360_000_000_000, SCALE as int);
        let turned = draw.times(Fixed { raw: 360_000_000_000 });
        vstd::arithmetic::div_mod::lemma_div_pos_is_pos(turned.raw as int, SCALE as int);
        assert((turned.raw / SCALE) * SCALE >= 0) by (nonlinear_arith)
            requires
                turned.raw / SCALE >= 0,
        ;
        lemma_hsv_in_unit_range(
            h,
            Fixed { raw: RANDOM_SATURATION_RAW },
            Fixed { raw: RANDOM_VALUE_RAW },
        );
        assert(colour == colour_of_draw(draw));
    }
    colour
}

/// Converts hue, saturation and value to red, green and blue.
pub fn hsv_to_rgb(h: Fixed, s: Fixed, v: Fixed) -> (colour: Vector3)
    ensures
        colour == hsv_to_rgb_spec(h, s, v),
{
    let one = Fixed::one();
    let c: Fixed = s * v;
    let x: Fixed = c * (one - ((h / Fixed::from_int(60)) % Fixed::from_int(2) - one).abs());
    let m: Fixed = v - c;
    let r: Fixed;
    let g: Fixed;
    let b: Fixed;
    if h.raw >= 0 && h.raw < 60 * SCALE {
        r = c;
        g = x;
        b = Fixed::zero();
    } else if h.raw >= 60 * SCALE && h.raw < 120 * SCALE {
        r = x;
        g = c;
        b = Fixed::zero();
    } else if h.raw >= 120 * SCALE && h.raw < 180 * SCALE {
        r = Fixed::zero();
        g = c;
        b = x;
    } else if h.raw >= 180 * SCALE && h.raw < 240 * SCALE {
        r = Fixed::zero();
        g = x;
        b = c;
    } else if h.raw >= 240 * SCALE && h.raw < 300 * SCALE {
        r = x;
        g = Fixed::zero();
        b = c;
    } else {
        r = c;
        g = Fixed::zero();
        b = x;
    }
    Vector3 { x: r + m, y: g + m, z: b + m }
}

/// With saturation and value in `[0, 1]` and a hue that is not negative,
/// every component of the colour lies between `v - s * v` and `v`.
pub proof fn lemma_hsv_in_unit_range(h: Fixed, s: Fixed, v: Fixed)
    requires
        0 <= h.raw,
        0 <= s.raw <= SCALE,
        0 <= v.raw <= SCALE,
    ensures
        hsv_to_rgb_spec(h, s, v).is_unit_colour(),
        v.minus(chroma_spec(s, v)).raw <= hsv_to_rgb_spec(h, s, v).x.raw <= v.raw,
        v.minus(chroma_spec(s, v)).raw <= hsv_to_rgb_spec(h, s, v).y.raw <= v.raw,
        v.minus(chroma_spec(s, v)).raw <= hsv_to_rgb_spec(h, s, v).z.raw <= v.raw,
{
    let one = Fixed { raw: SCALE };
    let sixty = Fixed { raw: 60_000_000_000 };
    let two = Fixed { raw: 2_000_000_000 };
    let c = chroma_spec(s, v);
    s.lemma_times_fraction(v);
    let turns = h.over(sixty);
    vstd::arithmetic::div_mod::lemma_div_pos_is_pos(h.raw * SCALE, 60_000_000_000);
    assert(h.raw * SCALE >= 0) by (nonlinear_arith)
        requires
            h.raw >= 0,
    ;
    assert(turns.raw >= 0);
    let wave = turns.modulo(two);
    vstd::arithmetic::div_mod::lemma_mod_pos_bound(turns.raw as int, 2_000_000_000);
    assert(0 <= wave.raw < 2_000_000_000);
    let weight = one.minus(wave.minus(one).abs_spec());
    assert(0 <= weight.raw <= SCALE);
    weight.lemma_times_fraction(c);
    assert(c.times(weight) == weight.times(c)) by {
        assert(c.raw * weight.raw == weight.raw * c.raw) by (nonlinear_arith);
    }
}

} // verus!
