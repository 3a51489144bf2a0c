//! The arithmetic behind the law that a meeting point lies on the sphere,
//! up to rounding. Everything here is about integers: `s` is the scale and
//! `m` a bound on the magnitudes involved.
use vstd::prelude::*;

verus! {

/// The square of `s a + u tau`, multiplied out.
pub proof fn lemma_along_square(s: int, a: int, u: int, tau: int)
    ensures
        (s * a + u * tau) * (s * a + u * tau) == (s * s) * (a * a) + 2 * ((s * tau) * (a * u)) + (
        tau * tau) * (u * u),
{
    let x = s * a;
    let y = u * tau;
    assert((x + y) * (x + y) == x * x + 2 * (x * y) + y * y) by (nonlinear_arith);
    assert(x * x == (s * s) * (a * a)) by (nonlinear_arith)
        requires
            x == s * a,
    ;
    assert(x * y == (s * tau) * (a * u)) by (nonlinear_arith)
        requires
            x == s * a,
            y == u * tau,
    ;
    assert(y * y == (tau * tau) * (u * u)) by (nonlinear_arith)
        requires
            y == u * tau,
    ;
}

/// What the rounding of a step along the ray adds to a square: for
/// `|y| <= 9 s m` and `|e| <= 10 m`, the squares of `y + e` and of `y`
/// differ by at most `280 s m^2`.
pub proof fn lemma_step_shift(s: int, m: int, y: int, e: int)
    requires
        1 <= s <= m,
        -9 * (s * m) <= y <= 9 * (s * m),
        -10 * m <= e <= 10 * m,
    ensures
        -280 * (s * (m * m)) <= (y + e) * (y + e) - y * y <= 280 * (s * (m * m)),
{
    let sm = s * m;
    let smm = s * (m * m);
    assert((y + e) * (y + e) - y * y == 2 * (e * y) + e * e) by (nonlinear_arith);
    assert(-90 * smm <= e * y <= 90 * smm) by (nonlinear_arith)
        requires
            1 <= s <= m,
            sm == s * m,
            smm == s * (m * m),
            -9 * sm <= y <= 9 * sm,
            -10 * m <= e <= 10 * m,
    ;
    assert(0 <= e * e <= 100 * smm) by (nonlinear_arith)
        requires
            1 <= s <= m,
            smm == s * (m * m),
            -10 * m <= e <= 10 * m,
    ;
}

/// The step along the direction and the step along the unit direction
/// agree up to rounding: with `u l` within `l` of `d s k` and `t l` within
/// `l` of `tau s k`, `d t` is within `|d| + |tau|` of `u tau`.
pub proof fn lemma_steps_agree(s: int, k: int, l: int, d: int, u: int, tau: int, t: int)
    requires
        1 <= l,
        -l < u * l - d * (s * k) < l,
        -l < t * l - tau * (s * k) < l,
    ensures
        -(vstd::math::abs(d) + vstd::math::abs(tau)) <= d * t - u * tau <= vstd::math::abs(d)
            + vstd::math::abs(tau),
{
    let f = s * k;
    let bound = vstd::math::abs(d) as int + vstd::math::abs(tau) as int;
    let first = t * l - tau * f;
    let second = u * l - d * f;
    assert((d * t - u * tau) * l == d * first - tau * second) by (nonlinear_arith)
        requires
            first == t * l - tau * f,
            second == u * l - d * f,
    ;
    assert(-(vstd::math::abs(d) * l) <= d * first <= vstd::math::abs(d) * l && (d != 0 ==> -(
    vstd::math::abs(d) * l) < d * first < vstd::math::abs(d) * l)) by (nonlinear_arith)
        requires
            1 <= l,
            -l < first < l,
    ;
    assert(-(vstd::math::abs(tau) * l) <= tau * second <= vstd::math::abs(tau) * l && (tau != 0
        ==> -(vstd::math::abs(tau) * l) < tau * second < vstd::math::abs(tau) * l))
        by (nonlinear_arith)
        requires
            1 <= l,
            -l < second < l,
    ;
    let gap = d * t - u * tau;
    if d == 0 && tau == 0 {
        assert(gap * l == 0);
        assert(gap == 0) by (nonlinear_arith)
            requires
                gap * l == 0,
                1 <= l,
        ;
    } else {
        assert(-(bound * l) < gap * l < bound * l) by (nonlinear_arith)
            requires
                bound == vstd::math::abs(d) + vstd::math::abs(tau),
                gap * l == d * first - tau * second,
                -(vstd::math::abs(d) * l) <= d * first <= vstd::math::abs(d) * l,
                -(vstd::math::abs(tau) * l) <= tau * second <= vstd::math::abs(tau) * l,
                d != 0 ==> -(vstd::math::abs(d) * l) < d * first < vstd::math::abs(d) * l,
                tau != 0 ==> -(vstd::math::abs(tau) * l) < tau * second < vstd::math::abs(tau)
                    * l,
                d != 0 || tau != 0,
        ;
        assert(-bound < gap < bound) by (nonlinear_arith)
            requires
                1 <= l,
                -(bound * l) < gap * l < bound * l,
        ;
    }
}

/// A meeting point lies on the sphere, up to rounding, in integers. `oc`
/// is the ray's origin seen from the centre, `u` the unit direction, `hb`
/// their dot product over `s`, `lq` and `r2` the squares of `oc` and of the
/// radius `r` over `s`, `h2` the square of `hb` over `s`, `sq` the root of
/// the discriminant, each rounded as the library rounds; `tau` is a root
/// along the unit direction and `w` the step from the origin to the
/// meeting point, which is within `10 m` of `u tau / s` after scaling by
/// `s`. Then the squared distance of the meeting point from the centre is
/// within `1485 m^2 / s` of `r^2`.
pub proof fn lemma_on_sphere(
    s: int,
    m: int,
    oc: (int, int, int),
    u: (int, int, int),
    w: (int, int, int),
    r: int,
    hb: int,
    lq: int,
    r2: int,
    h2: int,
    sq: int,
    tau: int,
)
    requires
        1 <= s <= m,
        -m <= oc.0 <= m && -m <= oc.1 <= m && -m <= oc.2 <= m,
        -s <= u.0 <= s && -s <= u.1 <= s && -s <= u.2 <= s,
        0 <= r <= m,
        -8 * m <= tau <= 8 * m,
        0 <= sq <= 8 * m,
        s * s - 9 * s <= u.0 * u.0 + u.1 * u.1 + u.2 * u.2 <= s * s + 5 * s,
        -3 * s < oc.0 * u.0 + oc.1 * u.1 + oc.2 * u.2 - s * hb < 3 * s,
        0 <= oc.0 * oc.0 + oc.1 * oc.1 + oc.2 * oc.2 - s * lq < 3 * s,
        0 <= r * r - s * r2 < s,
        0 <= hb * hb - s * h2 < s,
        sq * sq <= (h2 - lq + r2) * s < (sq + 1) * (sq + 1),
        tau == -hb - sq || tau == -hb + sq,
        -10 * m <= s * w.0 - u.0 * tau <= 10 * m,
        -10 * m <= s * w.1 - u.1 * tau <= 10 * m,
        -10 * m <= s * w.2 - u.2 * tau <= 10 * m,
    ensures
        -1485 * (m * m) <= s * ((oc.0 + w.0) * (oc.0 + w.0) + (oc.1 + w.1) * (oc.1 + w.1) + (oc.2
            + w.2) * (oc.2 + w.2) - r * r) <= 1485 * (m * m),
{
    let z = s * s;
    let sm = s * m;
    let smm = s * (m * m);
    let c = s * tau;
    let tt = tau * tau;
    let big_q = oc.0 * oc.0 + oc.1 * oc.1 + oc.2 * oc.2;
    let big_p = oc.0 * u.0 + oc.1 * u.1 + oc.2 * u.2;
    let big_u = u.0 * u.0 + u.1 * u.1 + u.2 * u.2;
    let big_x = (oc.0 + w.0) * (oc.0 + w.0) + (oc.1 + w.1) * (oc.1 + w.1) + (oc.2 + w.2) * (oc.2
        + w.2);
    let y = (s * oc.0 + u.0 * tau, s * oc.1 + u.1 * tau, s * oc.2 + u.2 * tau);
    let e = (s * w.0 - u.0 * tau, s * w.1 - u.1 * tau, s * w.2 - u.2 * tau);
    lemma_scaled_sum(s, m, oc.0, u.0, tau, w.0);
    lemma_scaled_sum(s, m, oc.1, u.1, tau, w.1);
    lemma_scaled_sum(s, m, oc.2, u.2, tau, w.2);
    lemma_step_shift(s, m, y.0, e.0);
    lemma_step_shift(s, m, y.1, e.1);
    lemma_step_shift(s, m, y.2, e.2);
    lemma_along_square(s, oc.0, u.0, tau);
    lemma_along_square(s, oc.1, u.1, tau);
    lemma_along_square(s, oc.2, u.2, tau);
    let along = y.0 * y.0 + y.1 * y.1 + y.2 * y.2;
    assert(z * big_x == z * ((oc.0 + w.0) * (oc.0 + w.0)) + z * ((oc.1 + w.1) * (oc.1 + w.1)) + z
        * ((oc.2 + w.2) * (oc.2 + w.2))) by (nonlinear_arith)
        requires
            big_x == (oc.0 + w.0) * (oc.0 + w.0) + (oc.1 + w.1) * (oc.1 + w.1) + (oc.2 + w.2) * (
            oc.2 + w.2),
    ;
    assert(-840 * smm <= z * big_x - along <= 840 * smm);
    assert(z * big_q == z * (oc.0 * oc.0) + z * (oc.1 * oc.1) + z * (oc.2 * oc.2))
        by (nonlinear_arith)
        requires
            big_q == oc.0 * oc.0 + oc.1 * oc.1 + oc.2 * oc.2,
    ;
    assert(c * big_p == c * (oc.0 * u.0) + c * (oc.1 * u.1) + c * (oc.2 * u.2))
        by (nonlinear_arith)
        requires
            big_p == oc.0 * u.0 + oc.1 * u.1 + oc.2 * u.2,
    ;
    assert(tt * big_u == tt * (u.0 * u.0) + tt * (u.1 * u.1) + tt * (u.2 * u.2))
        by (nonlinear_arith)
        requires
            big_u == u.0 * u.0 + u.1 * u.1 + u.2 * u.2,
    ;
    assert(along == z * big_q + 2 * (c * big_p) + tt * big_u);
    // The roundings, one by one.
    let e1 = big_q - s * lq;
    let e2 = big_p - s * hb;
    let e3 = big_u - z;
    let e4 = hb * hb - s * h2;
    let e5 = (h2 - lq + r2) * s - sq * sq;
    let e6 = r * r - s * r2;
    assert(z * big_q == z * (s * lq) + z * e1) by (nonlinear_arith)
        requires
            e1 == big_q - s * lq,
    ;
    assert(c * big_p == c * (s * hb) + c * e2) by (nonlinear_arith)
        requires
            e2 == big_p - s * hb,
    ;
    assert(tt * big_u == tt * z + tt * e3) by (nonlinear_arith)
        requires
            e3 == big_u - z,
    ;
    assert(c * (s * hb) == z * (tau * hb)) by (nonlinear_arith)
        requires
            c == s * tau,
            z == s * s,
    ;
    assert(tt * z == z * tt) by (nonlinear_arith);
    assert(tt + 2 * (tau * hb) == sq * sq - hb * hb) by (nonlinear_arith)
        requires
            tt == tau * tau,
            tau == -hb - sq || tau == -hb + sq,
    ;
    assert((h2 - lq + r2) * s == s * h2 - s * lq + s * r2) by (nonlinear_arith);
    let core = s * lq + 2 * (tau * hb) + tt;
    assert(core == r * r - e4 - e5 - e6);
    assert(z * (s * lq) + 2 * (z * (tau * hb)) + z * tt == z * core) by (nonlinear_arith)
        requires
            core == s * lq + 2 * (tau * hb) + tt,
    ;
    let slack = e4 + e5 + e6;
    assert(z * core == z * (r * r) - z * slack) by (nonlinear_arith)
        requires
            core == r * r - slack,
    ;
    assert(along - z * (r * r) == -(z * slack) + z * e1 + 2 * (c * e2) + tt * e3);
    // Their sizes.
    assert(0 <= e5 <= 2 * sq) by (nonlinear_arith)
        requires
            e5 == (h2 - lq + r2) * s - sq * sq,
            sq * sq <= (h2 - lq + r2) * s < (sq + 1) * (sq + 1),
    ;
    assert(0 <= slack <= 18 * m);
    assert(0 <= z * slack <= 18 * smm) by (nonlinear_arith)
        requires
            1 <= s <= m,
            z == s * s,
            smm == s * (m * m),
            0 <= slack <= 18 * m,
    ;
    assert(0 <= z * e1 <= 3 * smm) by (nonlinear_arith)
        requires
            1 <= s <= m,
            z == s * s,
            smm == s * (m * m),
            0 <= e1 < 3 * s,
    ;
    assert(-24 * smm <= c * e2 <= 24 * smm) by (nonlinear_arith)
        requires
            1 <= s <= m,
            c == s * tau,
            smm == s * (m * m),
            -8 * m <= tau <= 8 * m,
            -3 * s < e2 < 3 * s,
    ;
    assert(0 <= tt <= 64 * (m * m)) by (nonlinear_arith)
        requires
            tt == tau * tau,
            -8 * m <= tau <= 8 * m,
    ;
    assert(-576 * smm <= tt * e3 <= 576 * smm) by (nonlinear_arith)
        requires
            1 <= s <= m,
            smm == s * (m * m),
            0 <= tt <= 64 * (m * m),
            -9 * s <= e3 <= 9 * s,
    ;
    let spread = z * big_x - z * (r * r);
    assert(-1485 * smm <= spread <= 1485 * smm);
    let gap = big_x - r * r;
    assert(spread == s * (s * gap)) by (nonlinear_arith)
        requires
            spread == z * big_x - z * (r * r),
            z == s * s,
            gap == big_x - r * r,
    ;
    assert(-1485 * (m * m) <= s * gap <= 1485 * (m * m)) by (nonlinear_arith)
        requires
            1 <= s,
            smm == s * (m * m),
            -1485 * smm <= s * (s * gap) <= 1485 * smm,
    ;
}

/// The meeting point, scaled by `s`, is the point along the unit
/// direction plus what rounding adds, and the point along the unit
/// direction is at most `9 s m` from the centre in each coordinate.
pub proof fn lemma_scaled_sum(s: int, m: int, a: int, u: int, tau: int, w: int)
    requires
        1 <= s <= m,
        -m <= a <= m,
        -s <= u <= s,
        -8 * m <= tau <= 8 * m,
    ensures
        s * (a + w) == (s * a + u * tau) + (s * w - u * tau),
        (s * (a + w)) * (s * (a + w)) == (s * s) * ((a + w) * (a + w)),
        -9 * (s * m) <= s * a + u * tau <= 9 * (s * m),
{
    assert(s * (a + w) == s * a + s * w) by (nonlinear_arith);
    let x = s * (a + w);
    assert(x * x == (s * s) * ((a + w) * (a + w))) by (nonlinear_arith)
        requires
            x == s * (a + w),
    ;
    let sm = s * m;
    let first = s * a;
    let second = u * tau;
    assert(-sm <= first <= sm) by (nonlinear_arith)
        requires
            1 <= s,
            -m <= a <= m,
            sm == s * m,
            first == s * a,
    ;
    assert(-8 * sm <= second <= 8 * sm) by (nonlinear_arith)
        requires
            1 <= s <= m,
            -s <= u <= s,
            -8 * m <= tau <= 8 * m,
            sm == s * m,
            second == u * tau,
    ;
    assert(-9 * sm <= first + second <= 9 * sm);
}

} // verus!
