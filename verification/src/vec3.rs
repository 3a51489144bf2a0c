//! Three-component vectors over fixed-point scalars.
use vstd::prelude::*;
use crate::fixed::{divide, integer_root, lemma_root_exists, narrow, quotient, root, saturate, Fixed, SCALE};
use crate::unit::{lemma_unit_part, lemma_unit_parts};
use crate::sampling::{is_unit_draw, uniform};

verus! {

/// Raw bound under which a component counts as vanishing: `1e-8`.
pub const NEAR_ZERO_RAW: i64 = 10;

/// The largest sum of squared raw components up to which a vector counts
/// as short: such a vector is magnified by `SCALE` before its length is
/// taken, so that the rounding of the length stays below one part in
/// `SCALE`.
pub const SHORT_SUM: u128 = 100_000_000_000_000_000_000;

/// How many candidates `random_unit_vector` draws before it settles for
/// `up()`. Each candidate is kept with a probability above one half.
pub const SAMPLE_ATTEMPTS: u32 = 1_000;

/// A point, a direction or a colour.
#[derive(Clone, Copy, PartialEq, Eq, Structural, Debug)]
pub struct Vector3 {
    pub x: Fixed,
    pub y: Fixed,
    pub z: Fixed,
}

impl Vector3 {
    /// The vector with the given raw components.
    pub open spec fn of_raw(x: int, y: int, z: int) -> Vector3 {
        Vector3 { x: Fixed { raw: x as i64 }, y: Fixed { raw: y as i64 }, z: Fixed { raw: z as i64 } }
    }

    /// Component-wise negation.
    pub open spec fn negated(self) -> Vector3 {
        Vector3 { x: self.x.negated(), y: self.y.negated(), z: self.z.negated() }
    }

    /// Component-wise sum.
    pub open spec fn plus(self, other: Vector3) -> Vector3 {
        Vector3 { x: self.x.plus(other.x), y: self.y.plus(other.y), z: self.z.plus(other.z) }
    }

    /// Component-wise difference.
    pub open spec fn minus(self, other: Vector3) -> Vector3 {
        Vector3 { x: self.x.minus(other.x), y: self.y.minus(other.y), z: self.z.minus(other.z) }
    }

    /// Every component times a scalar.
    pub open spec fn scaled(self, scalar: Fixed) -> Vector3 {
        Vector3 { x: self.x.times(scalar), y: self.y.times(scalar), z: self.z.times(scalar) }
    }

    /// Component-wise product.
    pub open spec fn times(self, other: Vector3) -> Vector3 {
        Vector3 { x: self.x.times(other.x), y: self.y.times(other.y), z: self.z.times(other.z) }
    }

    /// Every component over a scalar.
    pub open spec fn over(self, scalar: Fixed) -> Vector3 {
        Vector3 { x: self.x.over(scalar), y: self.y.over(scalar), z: self.z.over(scalar) }
    }

    /// The dot product, summed from the left.
    pub open spec fn dot_spec(self, other: Vector3) -> Fixed {
        self.x.times(other.x).plus(self.y.times(other.y)).plus(self.z.times(other.z))
    }

    /// The cross product.
    pub open spec fn cross_spec(self, other: Vector3) -> Vector3 {
        Vector3 {
            x: self.y.times(other.z).minus(self.z.times(other.y)),
            y: self.z.times(other.x).minus(self.x.times(other.z)),
            z: self.x.times(other.y).minus(self.y.times(other.x)),
        }
    }

    /// The squared length: the dot product of the vector with itself.
    pub open spec fn length_squared_spec(self) -> Fixed {
        self.dot_spec(self)
    }

    /// The exact sum of the squared raw components.
    pub open spec fn square_sum(self) -> int {
        self.x.raw * self.x.raw + self.y.raw * self.y.raw + self.z.raw * self.z.raw
    }

    /// The length: the root of the exact sum of the squares, rounded down
    /// to the grid.
    pub open spec fn length_spec(self) -> Fixed {
        Fixed { raw: saturate(root(self.square_sum())) }
    }

    /// By how much a vector is magnified before it is normalized: by
    /// `SCALE` where it is short, not at all elsewhere.
    pub open spec fn magnifier(self) -> int {
        if self.square_sum() <= SHORT_SUM {
            SCALE as int
        } else {
            1
        }
    }

    /// The length of the magnified vector, rounded down.
    pub open spec fn unit_divisor(self) -> int {
        root(self.square_sum() * (self.magnifier() * self.magnifier()))
    }

    /// One component of the normalized vector: the magnified component over
    /// the length of the magnified vector, rounded toward zero.
    pub open spec fn unit_part_spec(self, part: Fixed) -> Fixed {
        Fixed { raw: saturate(quotient(part.raw * (SCALE * self.magnifier()), self.unit_divisor())) }
    }

    /// A scalar over the length of the vector, with the length taken of
    /// the magnified vector, so that a short vector divides as exactly as a
    /// long one. Over the zero vector the scalar is divided by zero.
    pub open spec fn over_length_spec(self, value: Fixed) -> Fixed {
        if self.square_sum() == 0 {
            value.over(Fixed { raw: 0 })
        } else {
            self.unit_part_spec(value)
        }
    }

    /// The vector over its length; the zero vector for the zero vector.
    pub open spec fn normalized_spec(self) -> Vector3 {
        if self.square_sum() == 0 {
            self
        } else {
            Vector3 {
                x: self.unit_part_spec(self.x),
                y: self.unit_part_spec(self.y),
                z: self.unit_part_spec(self.z),
            }
        }
    }

    /// Whether the vector has unit length up to rounding: every component
    /// lies in `[-1, 1]`, and the squared length is at most nine raw units
    /// below one and at most two above.
    pub open spec fn is_unit(self) -> bool {
        &&& -SCALE <= self.x.raw <= SCALE
        &&& -SCALE <= self.y.raw <= SCALE
        &&& -SCALE <= self.z.raw <= SCALE
        &&& SCALE - 9 <= self.length_squared_spec().raw <= SCALE + 2
    }

    /// Whether all three components are below `1e-8` in magnitude.
    pub open spec fn is_near_zero_spec(self) -> bool {
        &&& -NEAR_ZERO_RAW < self.x.raw < NEAR_ZERO_RAW
        &&& -NEAR_ZERO_RAW < self.y.raw < NEAR_ZERO_RAW
        &&& -NEAR_ZERO_RAW < self.z.raw < NEAR_ZERO_RAW
    }

    /// Whether every component lies in `[0, 1]`, as a colour's does.
    pub open spec fn is_unit_colour(self) -> bool {
        &&& 0 <= self.x.raw <= SCALE
        &&& 0 <= self.y.raw <= SCALE
        &&& 0 <= self.z.raw <= SCALE
    }

    /// The point of the cube `[-1, 1)^3` that three unit draws stand for.
    pub open spec fn candidate_spec(a: Fixed, b: Fixed, c: Fixed) -> Vector3 {
        let two = Fixed { raw: 2_000_000_000 };
        let one = Fixed { raw: SCALE };
        Vector3 { x: a.times(two).minus(one), y: b.times(two).minus(one), z: c.times(two).minus(one) }
    }

    /// Whether a candidate lies strictly inside the unit sphere.
    pub open spec fn is_inside_unit_sphere(self) -> bool {
        self.length_squared_spec().raw < SCALE
    }

    /// Whether a candidate is kept: it is not the zero vector, which has no
    /// direction, and lies strictly inside the unit sphere.
    pub open spec fn is_kept(self) -> bool {
        self.square_sum() != 0 && self.is_inside_unit_sphere()
    }

    /// The unit vector that three unit draws stand for, if their cube point
    /// is kept.
    pub open spec fn unit_vector_of_spec(a: Fixed, b: Fixed, c: Fixed) -> Option<Vector3> {
        if Vector3::candidate_spec(a, b, c).is_kept() {
            Some(Vector3::candidate_spec(a, b, c).normalized_spec())
        } else {
            None
        }
    }

    /// Whether `self` is what rejection sampling can return: the unit
    /// vector that some three unit draws stand for.
    pub open spec fn is_unit_sample(self) -> bool {
        exists|a: Fixed, b: Fixed, c: Fixed|
            is_unit_draw(a) && is_unit_draw(b) && is_unit_draw(c) && #[trigger] Vector3::unit_vector_of_spec(
                a,
                b,
                c,
            ) == Some(self)
    }

    /// Dot product.
    pub fn dot(&self, other: &Vector3) -> (r: Fixed)
        ensures
            r == self.dot_spec(*other),
    {
        self.x * other.x + self.y * other.y + self.z * other.z
    }

    /// Cross product.
    pub fn cross(&self, other: &Vector3) -> (r: Vector3)
        ensures
            r == self.cross_spec(*other),
    {
        Vector3 {
            x: self.y * other.z - self.z * other.y,
            y: self.z * other.x - self.x * other.z,
            z: self.x * other.y - self.y * other.x,
        }
    }

    /// Squared length.
    pub fn length_squared(&self) -> (r: Fixed)
        ensures
            r == self.length_squared_spec(),
    {
        self.x * self.x + self.y * self.y + self.z * self.z
    }

    /// The exact sum of the squared raw components.
    pub fn exact_square_sum(&self) -> (sum: u128)
        ensures
            sum == self.square_sum(),
    {
        let x: i128 = self.x.raw as i128;
        let y: i128 = self.y.raw as i128;
        let z: i128 = self.z.raw as i128;
        assert(0 <= x * x <= 0x4000_0000_0000_0000_0000_0000_0000_0000) by (nonlinear_arith)
            requires
                -0x8000_0000_0000_0000 <= x <= 0x8000_0000_0000_0000,
        ;
        assert(0 <= y * y <= 0x4000_0000_0000_0000_0000_0000_0000_0000) by (nonlinear_arith)
            requires
                -0x8000_0000_0000_0000 <= y <= 0x8000_0000_0000_0000,
        ;
        assert(0 <= z * z <= 0x4000_0000_0000_0000_0000_0000_0000_0000) by (nonlinear_arith)
            requires
                -0x8000_0000_0000_0000 <= z <= 0x8000_0000_0000_0000,
        ;
        let xx: u128 = (x * x) as u128;
        let yy: u128 = (y * y) as u128;
        let zz: u128 = (z * z) as u128;
        xx + yy + zz
    }

    /// Length.
    pub fn length(&self) -> (r: Fixed)
        ensures
            r == self.length_spec(),
    {
        Fixed { raw: narrow(integer_root(self.exact_square_sum()) as i128) }
    }

    /// A scalar over the length of the vector; see
    /// [`Vector3::over_length_spec`].
    pub fn over_length(&self, value: Fixed) -> (r: Fixed)
        ensures
            r == self.over_length_spec(value),
    {
        let sum: u128 = self.exact_square_sum();
        if sum == 0 {
            return value / Fixed::zero();
        }
        let short: bool = sum <= SHORT_SUM;
        let factor: i128 = if short {
            1_000_000_000_000_000_000
        } else {
            1_000_000_000
        };
        let divisor: u128 = if short {
            integer_root(sum * 1_000_000_000_000_000_000)
        } else {
            integer_root(sum)
        };
        let wide: i128 = value.raw as i128;
        proof {
            let k = self.magnifier();
            if short {
                assert(k * k == 1_000_000_000_000_000_000 && SCALE * k == factor);
            } else {
                assert(k * k == 1 && SCALE * k == factor);
            }
            let kk = k * k;
            let under = self.square_sum() * kk;
            assert(under == if short {
                sum * 1_000_000_000_000_000_000
            } else {
                sum as int
            }) by (nonlinear_arith)
                requires
                    under == self.square_sum() * kk,
                    sum == self.square_sum(),
                    (short && kk == 1_000_000_000_000_000_000) || (!short && kk == 1),
            ;
            assert(divisor == self.unit_divisor());
            self.lemma_normalized_is_unit();
            lemma_magnified_fits(wide as int, factor as int);
        }
        Fixed { raw: narrow(divide(wide * factor, divisor as i128)) }
    }

    /// The vector over its length. A vector with a component that is not
    /// zero gets unit length, up to rounding.
    pub fn normalized(&self) -> (r: Vector3)
        ensures
            r == self.normalized_spec(),
            self.square_sum() != 0 ==> r.is_unit(),
    {
        let sum: u128 = self.exact_square_sum();
        if sum == 0 {
            return *self;
        }
        let short: bool = sum <= SHORT_SUM;
        let factor: i128 = if short {
            1_000_000_000_000_000_000
        } else {
            1_000_000_000
        };
        let divisor: u128 = if short {
            integer_root(sum * 1_000_000_000_000_000_000)
        } else {
            integer_root(sum)
        };
        let x: i128 = self.x.raw as i128;
        let y: i128 = self.y.raw as i128;
        let z: i128 = self.z.raw as i128;
        proof {
            let k = self.magnifier();
            if short {
                assert(k * k == 1_000_000_000_000_000_000 && SCALE * k == factor);
            } else {
                assert(k * k == 1 && SCALE * k == factor);
            }
            let kk = k * k;
            let wide = self.square_sum() * kk;
            assert(wide == if short {
                sum * 1_000_000_000_000_000_000
            } else {
                sum as int
            }) by (nonlinear_arith)
                requires
                    wide == self.square_sum() * kk,
                    sum == self.square_sum(),
                    (short && kk == 1_000_000_000_000_000_000) || (!short && kk == 1),
            ;
            assert(divisor == self.unit_divisor());
            self.lemma_normalized_is_unit();
            lemma_magnified_fits(x as int, factor as int);
            lemma_magnified_fits(y as int, factor as int);
            lemma_magnified_fits(z as int, factor as int);
        }
        Vector3 {
            x: Fixed { raw: narrow(divide(x * factor, divisor as i128)) },
            y: Fixed { raw: narrow(divide(y * factor, divisor as i128)) },
            z: Fixed { raw: narrow(divide(z * factor, divisor as i128)) },
        }
    }

    /// Whether every component is below `1e-8` in magnitude.
    pub fn is_near_zero(&self) -> (r: bool)
        ensures
            r == self.is_near_zero_spec(),
    {
        -NEAR_ZERO_RAW < self.x.raw && self.x.raw < NEAR_ZERO_RAW && -NEAR_ZERO_RAW < self.y.raw
            && self.y.raw < NEAR_ZERO_RAW && -NEAR_ZERO_RAW < self.z.raw && self.z.raw
            < NEAR_ZERO_RAW
    }

    /// The origin.
    pub fn zero() -> (r: Vector3)
        ensures
            r == Vector3::of_raw(0, 0, 0),
    {
        Vector3 { x: Fixed::zero(), y: Fixed::zero(), z: Fixed::zero() }
    }

    /// The world's upward direction.
    pub fn up() -> (r: Vector3)
        ensures
            r == Vector3::of_raw(0, SCALE as int, 0),
    {
        Vector3 { x: Fixed::zero(), y: Fixed::one(), z: Fixed::zero() }
    }

    /// The cube point for three unit draws: each draw is doubled and moved
    /// down by one.
    pub fn candidate(a: Fixed, b: Fixed, c: Fixed) -> (r: Vector3)
        ensures
            r == Vector3::candidate_spec(a, b, c),
    {
        let two = Fixed::from_int(2);
        let one = Fixed::one();
        Vector3 { x: a * two - one, y: b * two - one, z: c * two - one }
    }

    /// The unit vector that three unit draws stand for: their cube point,
    /// normalized, if it is kept.
    pub fn unit_vector_of(a: Fixed, b: Fixed, c: Fixed) -> (r: Option<Vector3>)
        ensures
            r == Vector3::unit_vector_of_spec(a, b, c),
            r is Some ==> r->0.is_unit(),
    {
        let vector = Vector3::candidate(a, b, c);
        if vector.exact_square_sum() != 0 && vector.length_squared().raw < SCALE {
            Some(vector.normalized())
        } else {
            None
        }
    }

    /// A direction drawn by rejection: cube points are drawn until one is
    /// kept, and that one is normalized. After `SAMPLE_ATTEMPTS` rejections
    /// in a row the result is `up()`, which is itself the unit vector for
    /// the draws `(0.5, 0.75, 0.5)`.
    pub fn random_unit_vector() -> (r: Vector3)
        ensures
            r.is_unit_sample(),
            r.is_unit(),
    {
        let mut attempts: u32 = 0;
        while attempts < SAMPLE_ATTEMPTS
            invariant
                attempts <= SAMPLE_ATTEMPTS,
            decreases SAMPLE_ATTEMPTS - attempts,
        {
            let a = uniform();
            let b = uniform();
            let c = uniform();
            match Vector3::unit_vector_of(a, b, c) {
                Some(vector) => {
                    return vector;
                },
                None => {},
            }
            attempts = attempts + 1;
        }
        proof {
            lemma_up_is_unit_sample();
            Vector3::of_raw(0, SCALE as int, 0).lemma_unit_sample_is_unit();
        }
        Vector3::up()
    }
}

impl Vector3 {
    /// Whether every component lies in the symmetric raw range, as every
    /// result of an operation does.
    pub open spec fn is_symmetric(self) -> bool {
        &&& crate::fixed::RAW_MIN <= self.x.raw
        &&& crate::fixed::RAW_MIN <= self.y.raw
        &&& crate::fixed::RAW_MIN <= self.z.raw
    }

    /// Whether every component is at most a billion in magnitude, so that
    /// a handful of such vectors can be added without reaching the bounds.
    pub open spec fn is_moderate(self) -> bool {
        &&& -1_000_000_000_000_000_000 <= self.x.raw <= 1_000_000_000_000_000_000
        &&& -1_000_000_000_000_000_000 <= self.y.raw <= 1_000_000_000_000_000_000
        &&& -1_000_000_000_000_000_000 <= self.z.raw <= 1_000_000_000_000_000_000
    }

    /// Whether `self` is `other` times some scalar.
    pub open spec fn is_multiple_of(self, other: Vector3) -> bool {
        exists|factor: Fixed| self == #[trigger] other.scaled(factor)
    }

    /// A vector with a component that is not zero is normalized to unit
    /// length, up to rounding.
    pub proof fn lemma_normalized_is_unit(self)
        requires
            self.square_sum() != 0,
        ensures
            self.normalized_spec().is_unit(),
            self.unit_divisor() >= SCALE,
    {
        let s = SCALE as int;
        let k = self.magnifier();
        let sum = self.square_sum();
        let n = sum * (k * k);
        let l = self.unit_divisor();
        assert(self.x.raw * self.x.raw >= 0 && self.y.raw * self.y.raw >= 0 && self.z.raw
            * self.z.raw >= 0) by (nonlinear_arith);
        assert(n >= k * k && n >= 1) by (nonlinear_arith)
            requires
                sum >= 1,
                k >= 1,
                n == sum * (k * k),
        ;
        lemma_root_exists(n);
        if k == 1 {
            assert(k * k == 1);
            assert(n == sum);
        }
        assert(l >= s) by (nonlinear_arith)
            requires
                0 <= l,
                n < (l + 1) * (l + 1),
                s == 1_000_000_000,
                (k == s && n >= k * k) || (k == 1 && n > 100_000_000_000_000_000_000),
        ;
        let a = (
            vstd::math::abs(self.x.raw as int) * k,
            vstd::math::abs(self.y.raw as int) * k,
            vstd::math::abs(self.z.raw as int) * k,
        );
        assert(a.0 * a.0 == (self.x.raw * self.x.raw) * (k * k)) by (nonlinear_arith)
            requires
                a.0 == vstd::math::abs(self.x.raw as int) * k,
        ;
        assert(a.1 * a.1 == (self.y.raw * self.y.raw) * (k * k)) by (nonlinear_arith)
            requires
                a.1 == vstd::math::abs(self.y.raw as int) * k,
        ;
        assert(a.2 * a.2 == (self.z.raw * self.z.raw) * (k * k)) by (nonlinear_arith)
            requires
                a.2 == vstd::math::abs(self.z.raw as int) * k,
        ;
        assert(n == (self.x.raw * self.x.raw) * (k * k) + (self.y.raw * self.y.raw) * (k * k) + (
        self.z.raw * self.z.raw) * (k * k)) by (nonlinear_arith)
            requires
                n == sum * (k * k),
                sum == self.x.raw * self.x.raw + self.y.raw * self.y.raw + self.z.raw * self.z.raw,
        ;
        assert(a.0 * a.0 >= 0 && a.1 * a.1 >= 0 && a.2 * a.2 >= 0) by (nonlinear_arith);
        assert(0 <= a.0 <= l && 0 <= a.1 <= l && 0 <= a.2 <= l) by (nonlinear_arith)
            requires
                0 <= l,
                k >= 1,
                a.0 == vstd::math::abs(self.x.raw as int) * k,
                a.1 == vstd::math::abs(self.y.raw as int) * k,
                a.2 == vstd::math::abs(self.z.raw as int) * k,
                a.0 * a.0 <= n,
                a.1 * a.1 <= n,
                a.2 * a.2 <= n,
                n < (l + 1) * (l + 1),
        ;
        lemma_unit_part(a.0, s, l);
        lemma_unit_part(a.1, s, l);
        lemma_unit_part(a.2, s, l);
        let q = ((a.0 * s) / l, (a.1 * s) / l, (a.2 * s) / l);
        lemma_unit_parts(s, l, a, q);
        let unit = self.normalized_spec();
        self.lemma_unit_part_magnitude(self.x);
        self.lemma_unit_part_magnitude(self.y);
        self.lemma_unit_part_magnitude(self.z);
        assert(unit.x.raw * unit.x.raw == q.0 * q.0) by (nonlinear_arith)
            requires
                unit.x.raw == q.0 || unit.x.raw == -q.0,
        ;
        assert(unit.y.raw * unit.y.raw == q.1 * q.1) by (nonlinear_arith)
            requires
                unit.y.raw == q.1 || unit.y.raw == -q.1,
        ;
        assert(unit.z.raw * unit.z.raw == q.2 * q.2) by (nonlinear_arith)
            requires
                unit.z.raw == q.2 || unit.z.raw == -q.2,
        ;
        assert(q.0 * q.0 <= s * s && q.1 * q.1 <= s * s && q.2 * q.2 <= s * s && q.0 * q.0 >= 0
            && q.1 * q.1 >= 0 && q.2 * q.2 >= 0) by (nonlinear_arith)
            requires
                0 <= q.0 <= s,
                0 <= q.1 <= s,
                0 <= q.2 <= s,
        ;
        unit.x.lemma_times_rounding(unit.x, s);
        unit.y.lemma_times_rounding(unit.y, s);
        unit.z.lemma_times_rounding(unit.z, s);
    }

    /// The magnitude of a component of the normalized vector is the
    /// rounded-down quotient of the magnitudes.
    pub proof fn lemma_unit_part_magnitude(self, part: Fixed)
        requires
            self.unit_divisor() >= 1,
            0 <= (vstd::math::abs(part.raw as int) * self.magnifier() * SCALE)
                / self.unit_divisor() <= SCALE,
        ensures
            self.unit_part_spec(part).raw == (vstd::math::abs(part.raw as int) * self.magnifier()
                * SCALE) / self.unit_divisor() || self.unit_part_spec(part).raw == -((
            vstd::math::abs(part.raw as int) * self.magnifier() * SCALE) / self.unit_divisor()),
    {
        let k = self.magnifier();
        let exact = part.raw * (SCALE * k);
        assert(vstd::math::abs(exact) as int == vstd::math::abs(part.raw as int) * k * SCALE)
            by (nonlinear_arith)
            requires
                exact == part.raw * (SCALE * k),
                k >= 1,
                SCALE == 1_000_000_000,
        ;
    }

    /// The magnitude of one component of the normalized vector: the
    /// magnified magnitude of the component over the divisor, rounded down.
    pub open spec fn unit_magnitude(self, part: Fixed) -> int {
        (vstd::math::abs(part.raw as int) * self.magnifier() * SCALE) / self.unit_divisor()
    }

    /// One component of the normalized vector has the sign of the
    /// component it comes from, and its magnitude times the divisor is the
    /// largest multiple of the divisor that is not above the magnified
    /// magnitude. This holds of every scalar whose square is at most the
    /// vector's sum of squares.
    pub proof fn lemma_unit_part_bracket(self, part: Fixed)
        requires
            self.square_sum() != 0,
            part.raw * part.raw <= self.square_sum(),
        ensures
            self.unit_divisor() >= SCALE,
            0 <= self.unit_magnitude(part) <= SCALE,
            self.unit_magnitude(part) * self.unit_divisor() <= (vstd::math::abs(part.raw as int)
                * self.magnifier()) * SCALE < self.unit_magnitude(part) * self.unit_divisor()
                + self.unit_divisor(),
            self.unit_part_spec(part).raw == if part.raw < 0 {
                -self.unit_magnitude(part)
            } else {
                self.unit_magnitude(part)
            },
    {
        let s = SCALE as int;
        let k = self.magnifier();
        let l = self.unit_divisor();
        let n = self.square_sum() * (k * k);
        self.lemma_normalized_is_unit();
        assert(self.x.raw * self.x.raw >= 0 && self.y.raw * self.y.raw >= 0 && self.z.raw
            * self.z.raw >= 0) by (nonlinear_arith);
        assert(n >= 0) by (nonlinear_arith)
            requires
                self.square_sum() >= 0,
                k >= 1,
                n == self.square_sum() * (k * k),
        ;
        lemma_root_exists(n);
        let a = vstd::math::abs(part.raw as int) * k;
        assert(a * a == (part.raw * part.raw) * (k * k)) by (nonlinear_arith)
            requires
                a == vstd::math::abs(part.raw as int) * k,
        ;
        assert(a * a <= n) by (nonlinear_arith)
            requires
                a * a == (part.raw * part.raw) * (k * k),
                part.raw * part.raw <= self.square_sum(),
                n == self.square_sum() * (k * k),
                k >= 1,
        ;
        assert(0 <= a <= l) by (nonlinear_arith)
            requires
                0 <= l,
                k >= 1,
                a == vstd::math::abs(part.raw as int) * k,
                a * a <= n,
                n < (l + 1) * (l + 1),
        ;
        lemma_unit_part(a, s, l);
        self.lemma_unit_part_magnitude(part);
        let exact = part.raw * (SCALE * k);
        assert((exact < 0) == (part.raw < 0) && (part.raw == 0 ==> exact == 0))
            by (nonlinear_arith)
            requires
                exact == part.raw * (SCALE * k),
                k >= 1,
                SCALE == 1_000_000_000,
        ;
        assert(vstd::math::abs(exact) as int == a * s) by (nonlinear_arith)
            requires
                exact == part.raw * (SCALE * k),
                a == vstd::math::abs(part.raw as int) * k,
                s == SCALE,
                k >= 1,
                SCALE == 1_000_000_000,
        ;
    }

    /// A scalar over the length of the vector, times the divisor, is
    /// within the divisor of the magnified scalar, unless the quotient was
    /// pulled back to a bound.
    pub proof fn lemma_over_length_bracket(self, value: Fixed)
        requires
            self.square_sum() != 0,
            crate::fixed::RAW_MIN < self.over_length_spec(value).raw < crate::fixed::RAW_MAX,
        ensures
            self.unit_divisor() >= 1,
            self.magnifier() >= 1,
            -self.unit_divisor() < self.over_length_spec(value).raw * self.unit_divisor()
                - value.raw * (SCALE * self.magnifier()) < self.unit_divisor(),
    {
        self.lemma_normalized_is_unit();
        crate::fixed::lemma_quotient_bracket(
            value.raw * (SCALE * self.magnifier()),
            self.unit_divisor(),
        );
    }

    /// One component of the normalized vector, times the divisor, is within
    /// the divisor of the magnified component.
    pub proof fn lemma_unit_part_signed(self, part: Fixed)
        requires
            self.square_sum() != 0,
            part.raw * part.raw <= self.square_sum(),
        ensures
            self.unit_divisor() >= 1,
            -self.unit_divisor() < self.unit_part_spec(part).raw * self.unit_divisor() - part.raw
                * (SCALE * self.magnifier()) < self.unit_divisor(),
    {
        self.lemma_normalized_is_unit();
        crate::fixed::lemma_quotient_bracket(
            part.raw * (SCALE * self.magnifier()),
            self.unit_divisor(),
        );
        self.lemma_unit_part_bracket(part);
        self.lemma_unit_part_magnitude(part);
    }

    /// The cross product of two vectors with components of at most one is
    /// rounded, not pulled back: each component, scaled by `SCALE`, is
    /// within two units of the exact one.
    pub proof fn lemma_cross_rounding(self, other: Vector3)
        requires
            -SCALE <= self.x.raw <= SCALE && -SCALE <= self.y.raw <= SCALE && -SCALE <= self.z.raw
                <= SCALE,
            -SCALE <= other.x.raw <= SCALE && -SCALE <= other.y.raw <= SCALE && -SCALE
                <= other.z.raw <= SCALE,
        ensures
            -2 * SCALE < SCALE * self.cross_spec(other).x.raw - (self.y.raw * other.z.raw
                - self.z.raw * other.y.raw) < 2 * SCALE,
            -2 * SCALE < SCALE * self.cross_spec(other).y.raw - (self.z.raw * other.x.raw
                - self.x.raw * other.z.raw) < 2 * SCALE,
            -2 * SCALE < SCALE * self.cross_spec(other).z.raw - (self.x.raw * other.y.raw
                - self.y.raw * other.x.raw) < 2 * SCALE,
            self.cross_spec(other).x.raw == self.y.times(other.z).raw - self.z.times(other.y).raw,
            self.cross_spec(other).y.raw == self.z.times(other.x).raw - self.x.times(other.z).raw,
            self.cross_spec(other).z.raw == self.x.times(other.y).raw - self.y.times(other.x).raw,
    {
        let s = SCALE as int;
        crate::mirror::lemma_product_bound(self.y.raw as int, other.z.raw as int, s, s);
        crate::mirror::lemma_product_bound(self.z.raw as int, other.y.raw as int, s, s);
        crate::mirror::lemma_product_bound(self.z.raw as int, other.x.raw as int, s, s);
        crate::mirror::lemma_product_bound(self.x.raw as int, other.z.raw as int, s, s);
        crate::mirror::lemma_product_bound(self.x.raw as int, other.y.raw as int, s, s);
        crate::mirror::lemma_product_bound(self.y.raw as int, other.x.raw as int, s, s);
        self.y.lemma_times_rounding(other.z, s);
        self.z.lemma_times_rounding(other.y, s);
        self.z.lemma_times_rounding(other.x, s);
        self.x.lemma_times_rounding(other.z, s);
        self.x.lemma_times_rounding(other.y, s);
        self.y.lemma_times_rounding(other.x, s);
    }

    /// The dot product of two vectors with components of at most one is
    /// rounded, not pulled back: scaled by `SCALE`, it is within three
    /// units of the exact one.
    pub proof fn lemma_dot_rounding(self, other: Vector3)
        requires
            -SCALE <= self.x.raw <= SCALE && -SCALE <= self.y.raw <= SCALE && -SCALE <= self.z.raw
                <= SCALE,
            -SCALE <= other.x.raw <= SCALE && -SCALE <= other.y.raw <= SCALE && -SCALE
                <= other.z.raw <= SCALE,
        ensures
            -3 * SCALE < SCALE * self.dot_spec(other).raw - (self.x.raw * other.x.raw + self.y.raw
                * other.y.raw + self.z.raw * other.z.raw) < 3 * SCALE,
    {
        let s = SCALE as int;
        crate::mirror::lemma_product_bound(self.x.raw as int, other.x.raw as int, s, s);
        crate::mirror::lemma_product_bound(self.y.raw as int, other.y.raw as int, s, s);
        crate::mirror::lemma_product_bound(self.z.raw as int, other.z.raw as int, s, s);
        self.x.lemma_times_rounding(other.x, s);
        self.y.lemma_times_rounding(other.y, s);
        self.z.lemma_times_rounding(other.z, s);
    }

    /// The square of each component is at most the sum of the squares.
    pub proof fn lemma_component_squares(self)
        ensures
            self.x.raw * self.x.raw <= self.square_sum(),
            self.y.raw * self.y.raw <= self.square_sum(),
            self.z.raw * self.z.raw <= self.square_sum(),
    {
        assert(self.x.raw * self.x.raw >= 0 && self.y.raw * self.y.raw >= 0 && self.z.raw
            * self.z.raw >= 0) by (nonlinear_arith);
    }

    /// What rejection sampling returns has unit length, up to rounding.
    pub proof fn lemma_unit_sample_is_unit(self)
        requires
            self.is_unit_sample(),
        ensures
            self.is_unit(),
    {
        let (a, b, c) = choose|a: Fixed, b: Fixed, c: Fixed|
            is_unit_draw(a) && is_unit_draw(b) && is_unit_draw(c) && #[trigger] Vector3::unit_vector_of_spec(
                a,
                b,
                c,
            ) == Some(self);
        Vector3::candidate_spec(a, b, c).lemma_normalized_is_unit();
    }

    /// Dividing by the length of a vector keeps the order of the scalars.
    pub proof fn lemma_over_length_monotonic(self, low: Fixed, high: Fixed)
        requires
            low.raw <= high.raw,
        ensures
            self.over_length_spec(low).raw <= self.over_length_spec(high).raw,
    {
        if self.square_sum() != 0 {
            self.lemma_normalized_is_unit();
            let factor = SCALE * self.magnifier();
            assert(low.raw * factor <= high.raw * factor) by (nonlinear_arith)
                requires
                    low.raw <= high.raw,
                    factor >= 1,
            ;
            crate::fixed::lemma_quotient_monotonic(
                low.raw * factor,
                high.raw * factor,
                self.unit_divisor(),
            );
        }
    }

    /// A difference of two vectors is the zero vector only where the two
    /// are the same.
    pub proof fn lemma_difference_is_symmetric(self, from: Vector3, to: Vector3)
        requires
            self == from.minus(to),
            from != to,
        ensures
            self.square_sum() != 0,
    {
        assert(self.x.raw != 0 || self.y.raw != 0 || self.z.raw != 0);
        assert(self.x.raw * self.x.raw >= 0 && self.y.raw * self.y.raw >= 0 && self.z.raw
            * self.z.raw >= 0 && (self.x.raw != 0 ==> self.x.raw * self.x.raw > 0) && (self.y.raw
            != 0 ==> self.y.raw * self.y.raw > 0) && (self.z.raw != 0 ==> self.z.raw * self.z.raw
            > 0)) by (nonlinear_arith);
    }

    /// Every component of a normalized vector lies in the symmetric range.
    pub proof fn lemma_normalized_is_symmetric(self)
        ensures
            self.normalized_spec().is_symmetric(),
    {
        if self.square_sum() == 0 {
            assert(self.x.raw * self.x.raw >= 0 && self.y.raw * self.y.raw >= 0 && self.z.raw
                * self.z.raw >= 0 && (self.x.raw != 0 ==> self.x.raw * self.x.raw > 0) && (
            self.y.raw != 0 ==> self.y.raw * self.y.raw > 0) && (self.z.raw != 0 ==> self.z.raw
                * self.z.raw > 0)) by (nonlinear_arith);
        }
    }

    /// The negation of a unit vector is a unit vector.
    pub proof fn lemma_negated_is_unit(self)
        requires
            self.is_unit(),
        ensures
            self.negated().is_unit(),
    {
        assert((-self.x.raw) * (-self.x.raw) == self.x.raw * self.x.raw && (-self.y.raw) * (
        -self.y.raw) == self.y.raw * self.y.raw && (-self.z.raw) * (-self.z.raw) == self.z.raw
            * self.z.raw) by (nonlinear_arith);
    }

    /// A vector of unit length up to rounding has an exact sum of squares
    /// within a few multiples of `SCALE` of `SCALE^2`: its squared length on
    /// the grid is that sum over `SCALE`, rounded down term by term.
    pub proof fn lemma_unit_length(self)
        requires
            self.is_unit(),
        ensures
            self.square_sum() - 3 * SCALE < SCALE * self.length_squared_spec().raw
                <= self.square_sum(),
            SCALE * SCALE - 9 * SCALE <= self.square_sum() < SCALE * SCALE + 5 * SCALE,
    {
        assert(self.x.raw * self.x.raw <= SCALE * SCALE) by (nonlinear_arith)
            requires
                -SCALE <= self.x.raw <= SCALE,
        ;
        assert(self.y.raw * self.y.raw <= SCALE * SCALE) by (nonlinear_arith)
            requires
                -SCALE <= self.y.raw <= SCALE,
        ;
        assert(self.z.raw * self.z.raw <= SCALE * SCALE) by (nonlinear_arith)
            requires
                -SCALE <= self.z.raw <= SCALE,
        ;
        assert(self.x.raw * self.x.raw >= 0 && self.y.raw * self.y.raw >= 0 && self.z.raw
            * self.z.raw >= 0) by (nonlinear_arith);
        self.x.lemma_times_rounding(self.x, SCALE as int);
        self.y.lemma_times_rounding(self.y, SCALE as int);
        self.z.lemma_times_rounding(self.z, SCALE as int);
    }

    /// The dot product with a negated vector is the negated dot product.
    pub proof fn lemma_dot_negated(self, other: Vector3)
        requires
            other.is_symmetric(),
        ensures
            self.dot_spec(other.negated()) == self.dot_spec(other).negated(),
    {
        self.x.lemma_times_negated(other.x);
        self.y.lemma_times_negated(other.y);
        self.z.lemma_times_negated(other.z);
    }
}

/// A raw component times the factor by which it is magnified fits the wide
/// integers with room to spare.
pub proof fn lemma_magnified_fits(x: int, factor: int)
    requires
        -0x8000_0000_0000_0000 <= x <= 0x8000_0000_0000_0000,
        0 <= factor <= 1_000_000_000_000_000_000,
    ensures
        -0x8000_0000_0000_0000 * 1_000_000_000_000_000_000 <= x * factor <= 0x8000_0000_0000_0000
            * 1_000_000_000_000_000_000,
{
    assert(-0x8000_0000_0000_0000 * 1_000_000_000_000_000_000 <= x * factor
        <= 0x8000_0000_0000_0000 * 1_000_000_000_000_000_000) by (nonlinear_arith)
        requires
            -0x8000_0000_0000_0000 <= x <= 0x8000_0000_0000_0000,
            0 <= factor <= 1_000_000_000_000_000_000,
    ;
}

/// The upward direction is the unit vector for the draws
/// `(0.5, 0.75, 0.5)`, whose cube point is `(0, 0.5, 0)`.
pub proof fn lemma_up_is_unit_sample()
    ensures
        Vector3::of_raw(0, SCALE as int, 0).is_unit_sample(),
{
    let a = Fixed { raw: 500_000_000 };
    let b = Fixed { raw: 750_000_000 };
    let two = Fixed { raw: 2_000_000_000 };
    let half = Fixed { raw: 500_000_000 };
    let zero = Fixed { raw: 0 };
    let candidate = Vector3::candidate_spec(a, b, a);
    a.lemma_times_exact(two, 1_000_000_000);
    b.lemma_times_exact(two, 1_500_000_000);
    assert(candidate == Vector3::of_raw(0, 500_000_000, 0));
    zero.lemma_times_exact(zero, 0);
    half.lemma_times_exact(half, 250_000_000);
    assert(candidate.length_squared_spec().raw == 250_000_000);
    assert(candidate.square_sum() == 250_000_000_000_000_000);
    let wide = 250_000_000_000_000_000 * (SCALE * SCALE);
    assert(crate::fixed::is_root_of(500_000_000_000_000_000, wide)) by (nonlinear_arith)
        requires
            wide == 250_000_000_000_000_000 * (1_000_000_000 * 1_000_000_000),
    ;
    lemma_root_exists(wide);
    crate::fixed::lemma_root_unique(500_000_000_000_000_000, root(wide), wide);
    assert(candidate.unit_divisor() == 500_000_000_000_000_000);
    crate::fixed::lemma_quotient_exact(0, 500_000_000_000_000_000);
    crate::fixed::lemma_quotient_exact(1_000_000_000, 500_000_000_000_000_000);
    assert(candidate.normalized_spec() == Vector3::of_raw(0, SCALE as int, 0));
    assert(Vector3::unit_vector_of_spec(a, b, a) == Some(Vector3::of_raw(0, SCALE as int, 0)));
}

impl core::ops::Neg for Vector3 {
    type Output = Vector3;

    fn neg(self) -> (r: Vector3) {
        Vector3 {
            x: core::ops::Neg::neg(self.x),
            y: core::ops::Neg::neg(self.y),
            z: core::ops::Neg::neg(self.z),
        }
    }
}

impl vstd::std_specs::ops::NegSpecImpl for Vector3 {
    open spec fn obeys_neg_spec() -> bool {
        true
    }

    open spec fn neg_req(self) -> bool {
        true
    }

    open spec fn neg_spec(self) -> Vector3 {
        self.negated()
    }
}

impl core::ops::Add for Vector3 {
    type Output = Vector3;

    fn add(self, rhs: Vector3) -> (r: Vector3) {
        Vector3 { x: self.x + rhs.x, y: self.y + rhs.y, z: self.z + rhs.z }
    }
}

impl vstd::std_specs::ops::AddSpecImpl for Vector3 {
    open spec fn obeys_add_spec() -> bool {
        true
    }

    open spec fn add_req(self, rhs: Vector3) -> bool {
        true
    }

    open spec fn add_spec(self, rhs: Vector3) -> Vector3 {
        self.plus(rhs)
    }
}

impl core::ops::Sub for Vector3 {
    type Output = Vector3;

    fn sub(self, rhs: Vector3) -> (r: Vector3) {
        Vector3 { x: self.x - rhs.x, y: self.y - rhs.y, z: self.z - rhs.z }
    }
}

impl vstd::std_specs::ops::SubSpecImpl for Vector3 {
    open spec fn obeys_sub_spec() -> bool {
        true
    }

    open spec fn sub_req(self, rhs: Vector3) -> bool {
        true
    }

    open spec fn sub_spec(self, rhs: Vector3) -> Vector3 {
        self.minus(rhs)
    }
}

impl core::ops::Mul<Fixed> for Vector3 {
    type Output = Vector3;

    fn mul(self, scalar: Fixed) -> (r: Vector3) {
        Vector3 { x: self.x * scalar, y: self.y * scalar, z: self.z * scalar }
    }
}

impl vstd::std_specs::ops::MulSpecImpl<Fixed> for Vector3 {
    open spec fn obeys_mul_spec() -> bool {
        true
    }

    open spec fn mul_req(self, scalar: Fixed) -> bool {
        true
    }

    open spec fn mul_spec(self, scalar: Fixed) -> Vector3 {
        self.scaled(scalar)
    }
}

impl core::ops::Mul<Vector3> for Vector3 {
    type Output = Vector3;

    fn mul(self, rhs: Vector3) -> (r: Vector3) {
        Vector3 { x: self.x * rhs.x, y: self.y * rhs.y, z: self.z * rhs.z }
    }
}

impl vstd::std_specs::ops::MulSpecImpl<Vector3> for Vector3 {
    open spec fn obeys_mul_spec() -> bool {
        true
    }

    open spec fn mul_req(self, rhs: Vector3) -> bool {
        true
    }

    open spec fn mul_spec(self, rhs: Vector3) -> Vector3 {
        self.times(rhs)
    }
}

impl core::ops::Div<Fixed> for Vector3 {
    type Output = Vector3;

    fn div(self, scalar: Fixed) -> (r: Vector3) {
        Vector3 { x: self.x / scalar, y: self.y / scalar, z: self.z / scalar }
    }
}

impl vstd::std_specs::ops::DivSpecImpl<Fixed> for Vector3 {
    open spec fn obeys_div_spec() -> bool {
        true
    }

    open spec fn div_req(self, scalar: Fixed) -> bool {
        true
    }

    open spec fn div_spec(self, scalar: Fixed) -> Vector3 {
        self.over(scalar)
    }
}

} // verus!
