//! Saturating decimal fixed-point scalars.
//!
//! A [`Fixed`] stands for the real number `raw / SCALE`. Every operation is
//! total: a result outside the representable range is pulled back to the
//! nearest bound, a quotient is rounded toward zero, and a division by zero
//! yields the bound on the side of the dividend's sign.
use vstd::prelude::*;

verus! {

/// Raw units per whole: the real number one has `raw == SCALE`.
pub const SCALE: i64 = 1_000_000_000;

/// Largest raw value a scalar takes after an operation.
pub const RAW_MAX: i64 = 9_223_372_036_854_775_807;

/// Smallest raw value a scalar takes after an operation.
pub const RAW_MIN: i64 = -9_223_372_036_854_775_807;

/// Pulls an integer into `[RAW_MIN, RAW_MAX]`.
pub open spec fn saturate(v: int) -> i64 {
    if v > RAW_MAX {
        RAW_MAX
    } else if v < RAW_MIN {
        RAW_MIN
    } else {
        v as i64
    }
}

/// Quotient of `n` by `d`, rounded toward zero.
pub open spec fn quotient(n: int, d: int) -> int
    recommends
        d != 0,
{
    let q = vstd::math::abs(n) as int / vstd::math::abs(d) as int;
    if (n < 0) != (d < 0) {
        -q
    } else {
        q
    }
}

/// What is left of `n` after the division by `d` that rounds toward zero;
/// it has the sign of `n`.
pub open spec fn remainder(n: int, d: int) -> int
    recommends
        d != 0,
{
    let r = vstd::math::abs(n) as int % vstd::math::abs(d) as int;
    if n < 0 {
        -r
    } else {
        r
    }
}

/// Whether `r` is the integer square root of `n`, rounded down.
pub open spec fn is_root_of(r: int, n: int) -> bool {
    0 <= r && r * r <= n && n < (r + 1) * (r + 1)
}

/// The integer square root of `n`, rounded down; zero for a negative `n`.
pub open spec fn root(n: int) -> int {
    if n <= 0 {
        0
    } else {
        choose|r: int| is_root_of(r, n)
    }
}

/// At most one integer is the rounded-down square root of `n`.
pub proof fn lemma_root_unique(r: int, s: int, n: int)
    requires
        is_root_of(r, n),
        is_root_of(s, n),
    ensures
        r == s,
{
    if r < s {
        assert((r + 1) * (r + 1) <= s * s) by (nonlinear_arith)
            requires
                0 <= r,
                r + 1 <= s,
        ;
    } else if s < r {
        assert((s + 1) * (s + 1) <= r * r) by (nonlinear_arith)
            requires
                0 <= s,
                s + 1 <= r,
        ;
    }
}

/// Every non-negative integer has a rounded-down square root, and `root` names it.
pub proof fn lemma_root_exists(n: int)
    requires
        0 <= n,
    ensures
        is_root_of(root(n), n),
    decreases n,
{
    if n == 0 {
        assert(is_root_of(0, 0));
    } else {
        lemma_root_exists(n - 1);
        let r = root(n - 1);
        assert(is_root_of(r, n - 1));
        if (r + 1) * (r + 1) <= n {
            assert((r + 1) * (r + 1) == n);
            assert(n < (r + 2) * (r + 2)) by (nonlinear_arith)
                requires
                    0 <= r,
                    (r + 1) * (r + 1) == n,
            ;
            assert(is_root_of(r + 1, n));
        } else {
            assert(is_root_of(r, n));
        }
    }
}

/// Rounding toward zero keeps the order of the dividends under a positive
/// divisor.
pub proof fn lemma_quotient_monotonic(m: int, n: int, d: int)
    requires
        m <= n,
        0 < d,
    ensures
        quotient(m, d) <= quotient(n, d),
{
    let am = vstd::math::abs(m) as int;
    let an = vstd::math::abs(n) as int;
    vstd::arithmetic::div_mod::lemma_div_pos_is_pos(am, d);
    vstd::arithmetic::div_mod::lemma_div_pos_is_pos(an, d);
    if 0 <= m {
        vstd::arithmetic::div_mod::lemma_div_is_ordered(m, n, d);
    } else if n < 0 {
        vstd::arithmetic::div_mod::lemma_div_is_ordered(an, am, d);
    }
}

/// A quotient times its divisor is within the divisor of the dividend.
pub proof fn lemma_quotient_bracket(n: int, d: int)
    requires
        0 < d,
    ensures
        -d < quotient(n, d) * d - n < d,
{
    let magnitude = vstd::math::abs(n) as int;
    vstd::arithmetic::div_mod::lemma_fundamental_div_mod(magnitude, d);
    vstd::arithmetic::div_mod::lemma_mod_pos_bound(magnitude, d);
    let q = magnitude / d;
    assert(q * d == d * q) by (nonlinear_arith);
    assert((-q) * d == -(q * d)) by (nonlinear_arith);
}

/// A multiple of the divisor is divided without rounding.
pub proof fn lemma_quotient_exact(q: int, d: int)
    requires
        d != 0,
    ensures
        quotient(q * d, d) == q,
{
    let aq = vstd::math::abs(q) as int;
    let ad = vstd::math::abs(d) as int;
    assert(vstd::math::abs(q * d) as int == aq * ad && ((q * d < 0) <==> (q != 0 && ((q < 0) != (d
        < 0))))) by (nonlinear_arith)
        requires
            d != 0,
            aq == vstd::math::abs(q),
            ad == vstd::math::abs(d),
    ;
    vstd::arithmetic::div_mod::lemma_div_multiples_vanish(aq, ad);
}

/// Narrows a wide integer to the raw range.
pub fn narrow(v: i128) -> (r: i64)
    ensures
        r == saturate(v as int),
{
    if v > RAW_MAX as i128 {
        RAW_MAX
    } else if v < RAW_MIN as i128 {
        RAW_MIN
    } else {
        v as i64
    }
}

/// Divides rounding toward zero.
pub fn divide(n: i128, d: i128) -> (q: i128)
    requires
        d != 0,
        i128::MIN < n,
        i128::MIN < d,
    ensures
        q == quotient(n as int, d as int),
{
    let numerator: i128 = if n < 0 {
        -n
    } else {
        n
    };
    let denominator: i128 = if d < 0 {
        -d
    } else {
        d
    };
    let magnitude: i128 = numerator / denominator;
    proof {
        vstd::arithmetic::div_mod::lemma_div_pos_is_pos(numerator as int, denominator as int);
        vstd::arithmetic::div_mod::lemma_div_is_ordered_by_denominator(
            numerator as int,
            1,
            denominator as int,
        );
    }
    if (n < 0) != (d < 0) {
        -magnitude
    } else {
        magnitude
    }
}

/// Takes the remainder of the division that rounds toward zero.
fn remain(n: i128, d: i128) -> (r: i128)
    requires
        d != 0,
        i128::MIN < n,
        i128::MIN < d,
    ensures
        r == remainder(n as int, d as int),
{
    let numerator: i128 = if n < 0 {
        -n
    } else {
        n
    };
    let denominator: i128 = if d < 0 {
        -d
    } else {
        d
    };
    let magnitude: i128 = numerator % denominator;
    proof {
        vstd::arithmetic::div_mod::lemma_mod_pos_bound(numerator as int, denominator as int);
    }
    if n < 0 {
        -magnitude
    } else {
        magnitude
    }
}

/// Computes the rounded-down square root of `n` by bisection.
pub fn integer_root(n: u128) -> (r: u128)
    ensures
        r == root(n as int),
        r < 0x1_0000_0000_0000_0000,
{
    let mut low: u128 = 0;
    let mut high: u128 = 0x1_0000_0000_0000_0000;
    assert(0x1_0000_0000_0000_0000int * 0x1_0000_0000_0000_0000int
        == 0x1_0000_0000_0000_0000_0000_0000_0000_0000int) by (nonlinear_arith);
    while high - low > 1
        invariant
            low < high <= 0x1_0000_0000_0000_0000,
            low * low <= n,
            n < high * high,
        decreases high - low,
    {
        let middle: u128 = low + (high - low) / 2;
        assert(middle * middle <= 0xffff_ffff_ffff_ffff * 0xffff_ffff_ffff_ffff) by (nonlinear_arith)
            requires
                0 <= middle <= 0xffff_ffff_ffff_ffff,
        ;
        assert(0xffff_ffff_ffff_ffffint * 0xffff_ffff_ffff_ffffint
            == 0xffff_ffff_ffff_fffe_0000_0000_0000_0001int) by (nonlinear_arith);
        if middle * middle <= n {
            low = middle;
        } else {
            high = middle;
        }
    }
    proof {
        assert(is_root_of(low as int, n as int));
        if n > 0 {
            lemma_root_exists(n as int);
            lemma_root_unique(low as int, root(n as int), n as int);
        } else {
            assert(low * low <= 0);
            assert(low == 0) by (nonlinear_arith)
                requires
                    low * low <= 0,
                    0 <= low,
            ;
        }
    }
    low
}

/// A real number in decimal fixed point.
#[derive(Clone, Copy, PartialEq, Eq, Structural, Debug)]
pub struct Fixed {
    /// The number times `SCALE`.
    pub raw: i64,
}

impl Fixed {
    /// The scalar with the given raw value.
    pub fn from_raw(raw: i64) -> (r: Fixed)
        ensures
            r.raw == raw,
    {
        Fixed { raw }
    }

    /// The whole number `n`.
    pub fn from_int(n: i32) -> (r: Fixed)
        ensures
            r == Fixed::whole(n as int),
            r.raw == n * SCALE,
    {
        Fixed { raw: (n as i64) * SCALE }
    }

    /// The whole number `n`, for a count.
    pub fn from_count(n: u32) -> (r: Fixed)
        ensures
            r == Fixed::whole(n as int),
            r.raw == n * SCALE,
    {
        Fixed { raw: (n as i64) * SCALE }
    }

    /// The number zero.
    pub fn zero() -> (r: Fixed)
        ensures
            r.raw == 0,
    {
        Fixed { raw: 0 }
    }

    /// The number one.
    pub fn one() -> (r: Fixed)
        ensures
            r.raw == SCALE,
    {
        Fixed { raw: SCALE }
    }

    /// The whole number `n`, for an `n` of at most 32 bits.
    pub open spec fn whole(n: int) -> Fixed {
        Fixed { raw: (n * SCALE) as i64 }
    }

    /// The negation; the bounds are symmetric, so only `i64::MIN` is moved.
    pub open spec fn negated(self) -> Fixed {
        Fixed { raw: saturate(-self.raw) }
    }

    /// The saturated sum.
    pub open spec fn plus(self, rhs: Fixed) -> Fixed {
        Fixed { raw: saturate(self.raw + rhs.raw) }
    }

    /// The saturated difference.
    pub open spec fn minus(self, rhs: Fixed) -> Fixed {
        Fixed { raw: saturate(self.raw - rhs.raw) }
    }

    /// The saturated product, rounded toward zero.
    pub open spec fn times(self, rhs: Fixed) -> Fixed {
        Fixed { raw: saturate(quotient(self.raw * rhs.raw, SCALE as int)) }
    }

    /// The saturated quotient, rounded toward zero. A division by zero gives
    /// the bound on the side of the dividend's sign, and zero for zero.
    pub open spec fn over(self, rhs: Fixed) -> Fixed {
        if rhs.raw == 0 {
            if self.raw > 0 {
                Fixed { raw: RAW_MAX }
            } else if self.raw < 0 {
                Fixed { raw: RAW_MIN }
            } else {
                Fixed { raw: 0 }
            }
        } else {
            Fixed { raw: saturate(quotient(self.raw * SCALE, rhs.raw as int)) }
        }
    }

    /// What is left after the division that rounds toward zero; it has the
    /// dividend's sign. Zero where the divisor is zero.
    pub open spec fn modulo(self, rhs: Fixed) -> Fixed {
        if rhs.raw == 0 {
            Fixed { raw: 0 }
        } else {
            Fixed { raw: saturate(remainder(self.raw as int, rhs.raw as int)) }
        }
    }

    /// The largest whole number that is not above the scalar.
    pub open spec fn floor_spec(self) -> Fixed {
        Fixed { raw: saturate((self.raw / SCALE) * SCALE) }
    }

    /// The square root of a positive scalar, rounded down to the raw grid;
    /// zero for every other scalar.
    pub open spec fn sqrt_spec(self) -> Fixed {
        Fixed { raw: root(self.raw * SCALE) as i64 }
    }

    /// The magnitude of a scalar.
    pub open spec fn abs_spec(self) -> Fixed {
        if self.raw < 0 {
            self.negated()
        } else {
            self
        }
    }

    /// The smaller of two scalars.
    pub open spec fn min_spec(self, other: Fixed) -> Fixed {
        if other.raw < self.raw {
            other
        } else {
            self
        }
    }

    /// The scalar pulled into `[0, 1]`.
    pub open spec fn clamp_unit_spec(self) -> Fixed {
        if self.raw > SCALE {
            Fixed { raw: SCALE }
        } else if self.raw < 0 {
            Fixed { raw: 0 }
        } else {
            self
        }
    }

    /// The fifth power, as four successive products.
    pub open spec fn pow5_spec(self) -> Fixed {
        let square = self.times(self);
        square.times(square).times(self)
    }

    /// A product that falls on the raw grid and in the raw range is exact.
    pub proof fn lemma_times_exact(self, rhs: Fixed, r: int)
        requires
            self.raw * rhs.raw == r * SCALE,
            RAW_MIN <= r <= RAW_MAX,
        ensures
            self.times(rhs).raw == r,
    {
        lemma_quotient_exact(r, SCALE as int);
    }

    /// A square root is never negative, and small enough to be doubled.
    pub proof fn lemma_sqrt_range(self)
        ensures
            0 <= self.sqrt_spec().raw <= 100_000_000_000_000,
    {
        let n = self.raw * SCALE;
        if n > 0 {
            lemma_root_exists(n);
            let r = root(n);
            if r > 100_000_000_000_000 {
                assert(r * r > 10_000_000_000_000_000_000_000_000_000) by (nonlinear_arith)
                    requires
                        r > 100_000_000_000_000,
                ;
            }
        }
    }

    /// Dividing by a scalar that is not negative keeps the order of the
    /// dividends.
    pub proof fn lemma_over_monotonic(self, other: Fixed, divisor: Fixed)
        requires
            self.raw <= other.raw,
            divisor.raw >= 0,
        ensures
            self.over(divisor).raw <= other.over(divisor).raw,
    {
        if divisor.raw > 0 {
            lemma_quotient_monotonic(self.raw * SCALE, other.raw * SCALE, divisor.raw as int);
        }
    }

    /// The product of a fraction in `[0, 1]` with a scalar that is not
    /// negative lies between zero and that scalar.
    pub proof fn lemma_times_fraction(self, rhs: Fixed)
        requires
            0 <= self.raw <= SCALE,
            0 <= rhs.raw,
        ensures
            0 <= self.times(rhs).raw <= rhs.raw,
    {
        assert(0 <= self.raw * rhs.raw <= SCALE * rhs.raw) by (nonlinear_arith)
            requires
                0 <= self.raw <= SCALE,
                0 <= rhs.raw,
        ;
        vstd::arithmetic::div_mod::lemma_div_pos_is_pos(self.raw * rhs.raw, SCALE as int);
        vstd::arithmetic::div_mod::lemma_div_is_ordered(
            self.raw * rhs.raw,
            SCALE * rhs.raw,
            SCALE as int,
        );
        vstd::arithmetic::div_mod::lemma_div_multiples_vanish(rhs.raw as int, SCALE as int);
        assert(SCALE * rhs.raw == rhs.raw * SCALE) by (nonlinear_arith);
    }

    /// The product of a fraction in `[0, 1]` with any scalar lies between
    /// zero and that scalar.
    pub proof fn lemma_times_fraction_of(self, rhs: Fixed)
        requires
            0 <= self.raw <= SCALE,
        ensures
            rhs.raw >= 0 ==> 0 <= rhs.times(self).raw <= rhs.raw,
            rhs.raw <= 0 ==> rhs.raw <= rhs.times(self).raw <= 0,
    {
        let magnitude = vstd::math::abs(rhs.raw as int) as int;
        assert(vstd::math::abs(rhs.raw * self.raw) as int == magnitude * self.raw && (rhs.raw
            * self.raw < 0 ==> rhs.raw < 0) && (rhs.raw * self.raw > 0 ==> rhs.raw > 0) && 0
            <= magnitude * self.raw <= magnitude * SCALE) by (nonlinear_arith)
            requires
                0 <= self.raw <= SCALE,
                magnitude == vstd::math::abs(rhs.raw as int),
        ;
        vstd::arithmetic::div_mod::lemma_div_pos_is_pos(magnitude * self.raw, SCALE as int);
        vstd::arithmetic::div_mod::lemma_div_is_ordered(
            magnitude * self.raw,
            magnitude * SCALE,
            SCALE as int,
        );
        vstd::arithmetic::div_mod::lemma_div_multiples_vanish(magnitude, SCALE as int);
    }

    /// A product whose exact value is at most `bound` in magnitude is not
    /// pulled back, and differs from the exact value by less than one raw
    /// unit, toward zero.
    pub proof fn lemma_times_rounding(self, rhs: Fixed, bound: int)
        requires
            0 <= bound <= RAW_MAX,
            -(bound * SCALE) <= self.raw * rhs.raw <= bound * SCALE,
        ensures
            -bound <= self.times(rhs).raw <= bound,
            -SCALE < self.raw * rhs.raw - SCALE * self.times(rhs).raw < SCALE,
            self.raw * rhs.raw >= 0 ==> self.raw * rhs.raw - SCALE * self.times(rhs).raw >= 0,
            self.raw * rhs.raw <= 0 ==> self.raw * rhs.raw - SCALE * self.times(rhs).raw <= 0,
    {
        let exact = self.raw * rhs.raw;
        let magnitude = vstd::math::abs(exact) as int;
        vstd::arithmetic::div_mod::lemma_fundamental_div_mod(magnitude, SCALE as int);
        vstd::arithmetic::div_mod::lemma_mod_pos_bound(magnitude, SCALE as int);
        vstd::arithmetic::div_mod::lemma_div_pos_is_pos(magnitude, SCALE as int);
        vstd::arithmetic::div_mod::lemma_div_is_ordered(magnitude, bound * SCALE, SCALE as int);
        vstd::arithmetic::div_mod::lemma_div_multiples_vanish(bound, SCALE as int);
    }

    /// A product with a factor of at most one in magnitude is at most the
    /// other factor in magnitude.
    pub proof fn lemma_times_shrinks(self, rhs: Fixed)
        requires
            -SCALE <= self.raw <= SCALE,
        ensures
            -vstd::math::abs(rhs.raw as int) <= self.times(rhs).raw <= vstd::math::abs(
                rhs.raw as int,
            ),
    {
        let exact = self.raw * rhs.raw;
        let magnitude = vstd::math::abs(exact) as int;
        let other = vstd::math::abs(rhs.raw as int) as int;
        assert(0 <= magnitude <= other * SCALE) by (nonlinear_arith)
            requires
                -SCALE <= self.raw <= SCALE,
                magnitude == vstd::math::abs(self.raw * rhs.raw),
                other == vstd::math::abs(rhs.raw as int),
        ;
        vstd::arithmetic::div_mod::lemma_div_pos_is_pos(magnitude, SCALE as int);
        vstd::arithmetic::div_mod::lemma_div_is_ordered(magnitude, other * SCALE, SCALE as int);
        vstd::arithmetic::div_mod::lemma_div_multiples_vanish(other, SCALE as int);
    }

    /// The magnitude of a product is the product of the magnitudes over
    /// `SCALE`, rounded down, where it is at most `bound`; and the product
    /// has the sign of the exact one.
    pub proof fn lemma_times_magnitude(self, rhs: Fixed, bound: int)
        requires
            0 <= bound <= RAW_MAX,
            -(bound * SCALE) <= self.raw * rhs.raw <= bound * SCALE,
        ensures
            0 <= vstd::math::abs(self.raw as int) * vstd::math::abs(rhs.raw as int) - SCALE
                * vstd::math::abs(self.times(rhs).raw as int) < SCALE,
            self.raw * rhs.raw >= 0 ==> self.times(rhs).raw >= 0,
            self.raw * rhs.raw <= 0 ==> self.times(rhs).raw <= 0,
    {
        self.lemma_times_rounding(rhs, bound);
        assert(vstd::math::abs(self.raw * rhs.raw) == vstd::math::abs(self.raw as int)
            * vstd::math::abs(rhs.raw as int)) by (nonlinear_arith);
        let t = self.times(rhs).raw;
        if self.raw * rhs.raw >= 0 {
            assert(t >= 0) by (nonlinear_arith)
                requires
                    self.raw * rhs.raw >= 0,
                    self.raw * rhs.raw - SCALE * t < SCALE,
                    SCALE == 1_000_000_000,
            ;
        } else {
            assert(t <= 0) by (nonlinear_arith)
                requires
                    self.raw * rhs.raw <= 0,
                    -SCALE < self.raw * rhs.raw - SCALE * t,
                    SCALE == 1_000_000_000,
            ;
        }
    }

    /// A product with zero is zero.
    pub proof fn lemma_times_zero(self)
        ensures
            self.times(Fixed { raw: 0 }).raw == 0,
            (Fixed { raw: 0 }).times(self).raw == 0,
    {
        assert(self.raw * 0 == 0 && 0 * self.raw == 0) by (nonlinear_arith);
        vstd::arithmetic::div_mod::lemma_div_basics(SCALE as int);
    }

    /// The product with a negated factor is the negated product.
    pub proof fn lemma_times_negated(self, rhs: Fixed)
        requires
            RAW_MIN <= rhs.raw,
        ensures
            self.times(rhs.negated()) == self.times(rhs).negated(),
    {
        assert(self.raw * (-rhs.raw) == -(self.raw * rhs.raw)) by (nonlinear_arith);
        vstd::arithmetic::div_mod::lemma_div_pos_is_pos(
            vstd::math::abs(self.raw * rhs.raw) as int,
            SCALE as int,
        );
    }

    /// Square root; see [`Fixed::sqrt_spec`].
    pub fn sqrt(self) -> (r: Fixed)
        ensures
            r == self.sqrt_spec(),
            0 <= r.raw <= 100_000_000_000_000,
    {
        if self.raw <= 0 {
            assert(self.raw * SCALE <= 0) by (nonlinear_arith)
                requires
                    self.raw <= 0,
            ;
            Fixed { raw: 0 }
        } else {
            let wide: u128 = (self.raw as u128) * (SCALE as u128);
            proof {
                self.lemma_sqrt_range();
            }
            Fixed { raw: integer_root(wide) as i64 }
        }
    }

    /// Rounds down to a whole number; see [`Fixed::floor_spec`].
    pub fn floor(self) -> (r: Fixed)
        ensures
            r == self.floor_spec(),
    {
        if self.raw >= 0 {
            let part: i64 = self.raw % SCALE;
            proof {
                vstd::arithmetic::div_mod::lemma_fundamental_div_mod(self.raw as int, SCALE as int);
                vstd::arithmetic::div_mod::lemma_mod_pos_bound(self.raw as int, SCALE as int);
            }
            Fixed { raw: self.raw - part }
        } else {
            let magnitude: i128 = -(self.raw as i128);
            let wholes: i128 = magnitude / (SCALE as i128);
            let part: i128 = magnitude % (SCALE as i128);
            proof {
                vstd::arithmetic::div_mod::lemma_fundamental_div_mod(magnitude as int, SCALE as int);
                vstd::arithmetic::div_mod::lemma_mod_pos_bound(magnitude as int, SCALE as int);
                if part == 0 {
                    vstd::arithmetic::div_mod::lemma_fundamental_div_mod_converse(
                        self.raw as int,
                        SCALE as int,
                        -wholes,
                        0,
                    );
                } else {
                    vstd::arithmetic::div_mod::lemma_fundamental_div_mod_converse(
                        self.raw as int,
                        SCALE as int,
                        -wholes - 1,
                        SCALE - part,
                    );
                }
            }
            if part == 0 {
                Fixed { raw: narrow(-wholes * (SCALE as i128)) }
            } else {
                Fixed { raw: narrow((-wholes - 1) * (SCALE as i128)) }
            }
        }
    }

    /// Magnitude; see [`Fixed::abs_spec`].
    pub fn abs(self) -> (r: Fixed)
        ensures
            r == self.abs_spec(),
            r.raw >= 0,
    {
        if self.raw < 0 {
            core::ops::Neg::neg(self)
        } else {
            self
        }
    }

    /// Minimum; see [`Fixed::min_spec`].
    pub fn min(self, other: Fixed) -> (r: Fixed)
        ensures
            r == self.min_spec(other),
    {
        if other.raw < self.raw {
            other
        } else {
            self
        }
    }

    /// Clamp to the unit interval; see [`Fixed::clamp_unit_spec`].
    pub fn clamp_unit(self) -> (r: Fixed)
        ensures
            r == self.clamp_unit_spec(),
            0 <= r.raw <= SCALE,
    {
        if self.raw > SCALE {
            Fixed { raw: SCALE }
        } else if self.raw < 0 {
            Fixed { raw: 0 }
        } else {
            self
        }
    }

    /// Fifth power; see [`Fixed::pow5_spec`].
    pub fn pow5(self) -> (r: Fixed)
        ensures
            r == self.pow5_spec(),
    {
        let square = self * self;
        square * square * self
    }
}

impl core::ops::Neg for Fixed {
    type Output = Fixed;

    fn neg(self) -> (r: Fixed) {
        Fixed { raw: narrow(-(self.raw as i128)) }
    }
}

impl vstd::std_specs::ops::NegSpecImpl for Fixed {
    open spec fn obeys_neg_spec() -> bool {
        true
    }

    open spec fn neg_req(self) -> bool {
        true
    }

    open spec fn neg_spec(self) -> Fixed {
        self.negated()
    }
}

impl core::ops::Add for Fixed {
    type Output = Fixed;

    fn add(self, rhs: Fixed) -> (r: Fixed) {
        Fixed { raw: narrow(self.raw as i128 + rhs.raw as i128) }
    }
}

impl vstd::std_specs::ops::AddSpecImpl for Fixed {
    open spec fn obeys_add_spec() -> bool {
        true
    }

    open spec fn add_req(self, rhs: Fixed) -> bool {
        true
    }

    open spec fn add_spec(self, rhs: Fixed) -> Fixed {
        self.plus(rhs)
    }
}

impl core::ops::Sub for Fixed {
    type Output = Fixed;

    fn sub(self, rhs: Fixed) -> (r: Fixed) {
        Fixed { raw: narrow(self.raw as i128 - rhs.raw as i128) }
    }
}

impl vstd::std_specs::ops::SubSpecImpl for Fixed {
    open spec fn obeys_sub_spec() -> bool {
        true
    }

    open spec fn sub_req(self, rhs: Fixed) -> bool {
        true
    }

    open spec fn sub_spec(self, rhs: Fixed) -> Fixed {
        self.minus(rhs)
    }
}

impl core::ops::Mul for Fixed {
    type Output = Fixed;

    fn mul(self, rhs: Fixed) -> (r: Fixed) {
        let a: i128 = self.raw as i128;
        let b: i128 = rhs.raw as i128;
        assert(-0x4000_0000_0000_0000_0000_0000_0000_0000 <= a * b
            <= 0x4000_0000_0000_0000_0000_0000_0000_0000) by (nonlinear_arith)
            requires
                -0x8000_0000_0000_0000 <= a <= 0x8000_0000_0000_0000,
                -0x8000_0000_0000_0000 <= b <= 0x8000_0000_0000_0000,
        ;
        Fixed { raw: narrow(divide(a * b, SCALE as i128)) }
    }
}

impl vstd::std_specs::ops::MulSpecImpl for Fixed {
    open spec fn obeys_mul_spec() -> bool {
        true
    }

    open spec fn mul_req(self, rhs: Fixed) -> bool {
        true
    }

    open spec fn mul_spec(self, rhs: Fixed) -> Fixed {
        self.times(rhs)
    }
}

impl core::ops::Div for Fixed {
    type Output = Fixed;

    fn div(self, rhs: Fixed) -> (r: Fixed) {
        if rhs.raw == 0 {
            if self.raw > 0 {
                Fixed { raw: RAW_MAX }
            } else if self.raw < 0 {
                Fixed { raw: RAW_MIN }
            } else {
                Fixed { raw: 0 }
            }
        } else {
            let a: i128 = self.raw as i128;
            assert(-0x2000_0000_0000_0000_0000_0000 <= a * 1_000_000_000
                <= 0x2000_0000_0000_0000_0000_0000);
            Fixed { raw: narrow(divide(a * (SCALE as i128), rhs.raw as i128)) }
        }
    }
}

impl vstd::std_specs::ops::DivSpecImpl for Fixed {
    open spec fn obeys_div_spec() -> bool {
        true
    }

    open spec fn div_req(self, rhs: Fixed) -> bool {
        true
    }

    open spec fn div_spec(self, rhs: Fixed) -> Fixed {
        self.over(rhs)
    }
}

impl core::ops::Rem for Fixed {
    type Output = Fixed;

    fn rem(self, rhs: Fixed) -> (r: Fixed) {
        if rhs.raw == 0 {
            Fixed { raw: 0 }
        } else {
            Fixed { raw: narrow(remain(self.raw as i128, rhs.raw as i128)) }
        }
    }
}

impl vstd::std_specs::ops::RemSpecImpl for Fixed {
    open spec fn obeys_rem_spec() -> bool {
        true
    }

    open spec fn rem_req(self, rhs: Fixed) -> bool {
        true
    }

    open spec fn rem_spec(self, rhs: Fixed) -> Fixed {
        self.modulo(rhs)
    }
}

} // verus!
