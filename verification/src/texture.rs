//! Textures: the colour of a surface as a function of the point.
use vstd::prelude::*;
use crate::fixed::Fixed;
use crate::vec3::Vector3;

verus! {

/// Half a period of the sine, as a raw value: pi, rounded to the grid.
pub const HALF_PERIOD_RAW: i64 = 3_141_592_654;

/// How many radians of the pattern pass per unit of length.
pub const PATTERN_SIZE_RAW: i64 = 6_000_000_000;

/// A colour for every point of space.
#[allow(non_camel_case_types)]
#[derive(Clone, Copy, PartialEq, Eq, Structural, Debug)]
pub enum Texture {
    /// The same colour everywhere.
    SOLID(Vector3),
    /// Cubes that alternate between the first colour and the second.
    CHECKERED(Vector3, Vector3),
}

/// Whether the sine of the angle is zero: the angle is a whole number of
/// half periods.
pub open spec fn sine_is_zero(angle: Fixed) -> bool {
    angle.raw % HALF_PERIOD_RAW == 0
}

/// Whether the sine of the angle is negative: the angle lies strictly
/// inside a half period of odd index, counting from the one that starts at
/// zero.
pub open spec fn sine_is_negative(angle: Fixed) -> bool {
    !sine_is_zero(angle) && (angle.raw / HALF_PERIOD_RAW) % 2 != 0
}

/// Whether the product of the sines of the three scaled coordinates is
/// negative: none of them is zero, and one or all three are negative.
pub open spec fn is_odd_cell(point: Vector3) -> bool {
    let size = Fixed { raw: PATTERN_SIZE_RAW };
    let x = size.times(point.x);
    let y = size.times(point.y);
    let z = size.times(point.z);
    &&& !sine_is_zero(x) && !sine_is_zero(y) && !sine_is_zero(z)
    &&& (sine_is_negative(x) != sine_is_negative(y)) != sine_is_negative(z)
}

/// Tells the half period in which an angle lies: whether the angle sits on
/// a zero of the sine, and whether the sine is negative there.
pub fn sine_sign(angle: Fixed) -> (sign: (bool, bool))
    ensures
        sign.0 == sine_is_zero(angle),
        sign.1 == sine_is_negative(angle),
{
    if angle.raw >= 0 {
        let index: i64 = angle.raw / HALF_PERIOD_RAW;
        let part: i64 = angle.raw % HALF_PERIOD_RAW;
        (part == 0, part != 0 && index % 2 != 0)
    } else {
        let magnitude: i128 = -(angle.raw as i128);
        let index: i128 = magnitude / (HALF_PERIOD_RAW as i128);
        let part: i128 = magnitude % (HALF_PERIOD_RAW as i128);
        proof {
            vstd::arithmetic::div_mod::lemma_fundamental_div_mod(
                magnitude as int,
                HALF_PERIOD_RAW as int,
            );
            vstd::arithmetic::div_mod::lemma_mod_pos_bound(magnitude as int, HALF_PERIOD_RAW as int);
            if part == 0 {
                vstd::arithmetic::div_mod::lemma_fundamental_div_mod_converse(
                    angle.raw as int,
                    HALF_PERIOD_RAW as int,
                    -index,
                    0,
                );
            } else {
                vstd::arithmetic::div_mod::lemma_fundamental_div_mod_converse(
                    angle.raw as int,
                    HALF_PERIOD_RAW as int,
                    -index - 1,
                    HALF_PERIOD_RAW - part,
                );
            }
        }
        (part == 0, part != 0 && index % 2 == 0)
    }
}

impl Texture {
    /// The colour at a point: a solid texture's one colour; of a checkered
    /// one the first colour where the product of the three sines is
    /// negative, the second elsewhere.
    pub open spec fn get_color_spec(self, point: Vector3) -> Vector3 {
        match self {
            Texture::SOLID(albedo) => albedo,
            Texture::CHECKERED(odd, even) => if is_odd_cell(point) {
                odd
            } else {
                even
            },
        }
    }

    /// The colour of the texture at a point.
    pub fn get_color(&self, point: &Vector3) -> (colour: Vector3)
        ensures
            colour == self.get_color_spec(*point),
    {
        match self {
            Texture::SOLID(albedo) => *albedo,
            Texture::CHECKERED(odd, even) => {
                let size = Fixed::from_raw(PATTERN_SIZE_RAW);
                let x = sine_sign(size * point.x);
                let y = sine_sign(size * point.y);
                let z = sine_sign(size * point.z);
                if !x.0 && !y.0 && !z.0 && ((x.1 != y.1) != z.1) {
                    *odd
                } else {
                    *even
                }
            },
        }
    }
}

} // verus!
