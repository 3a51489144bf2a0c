//! The arithmetic behind the law that a normalized vector has unit length,
//! up to rounding. Everything here is about integers: `s` is the scale, `l`
//! the rounded-down length of a vector with the components `a`, and `q` the
//! rounded-down components of the unit vector.
use vstd::prelude::*;

verus! {

/// One component of a unit vector: `q = (a * s) / l`, for `0 <= a <= l`,
/// is at most `s`, and `q * l` is the largest multiple of `l` that is not
/// above `a * s`.
pub proof fn lemma_unit_part(a: int, s: int, l: int)
    requires
        0 <= a <= l,
        1 <= s,
        1 <= l,
    ensures
        0 <= (a * s) / l <= s,
        ((a * s) / l) * l <= a * s < ((a * s) / l) * l + l,
{
    let q = (a * s) / l;
    assert(0 <= a * s <= l * s) by (nonlinear_arith)
        requires
            0 <= a <= l,
            1 <= s,
    ;
    vstd::arithmetic::div_mod::lemma_fundamental_div_mod(a * s, l);
    vstd::arithmetic::div_mod::lemma_mod_pos_bound(a * s, l);
    vstd::arithmetic::div_mod::lemma_div_pos_is_pos(a * s, l);
    vstd::arithmetic::div_mod::lemma_div_is_ordered(a * s, l * s, l);
    assert(l * s == s * l) by (nonlinear_arith);
    vstd::arithmetic::div_mod::lemma_div_multiples_vanish(s, l);
    assert(q * l == l * q) by (nonlinear_arith);
}

/// The squares of a rounded-down product and of the exact one: for
/// `0 <= q * l <= a * s < (q + 1) * l`,
/// `q^2 l^2 <= a^2 s^2 < (q + 1)^2 l^2`.
pub proof fn lemma_unit_part_squared(a: int, s: int, l: int, q: int)
    requires
        0 <= a,
        0 <= q,
        1 <= s,
        1 <= l,
        q * l <= a * s < q * l + l,
    ensures
        (q * q) * (l * l) <= (a * a) * (s * s),
        (a * a) * (s * s) < ((q + 1) * (q + 1)) * (l * l),
{
    let low = q * l;
    let mid = a * s;
    let high = (q + 1) * l;
    assert(high == q * l + l) by (nonlinear_arith)
        requires
            high == (q + 1) * l,
    ;
    assert(0 <= low) by (nonlinear_arith)
        requires
            low == q * l,
            0 <= q,
            1 <= l,
    ;
    assert(low * low <= mid * mid) by (nonlinear_arith)
        requires
            0 <= low <= mid,
    ;
    assert(mid * mid < high * high) by (nonlinear_arith)
        requires
            0 <= mid < high,
    ;
    assert(low * low == (q * q) * (l * l)) by (nonlinear_arith)
        requires
            low == q * l,
    ;
    assert(mid * mid == (a * a) * (s * s)) by (nonlinear_arith)
        requires
            mid == a * s,
    ;
    assert(high * high == ((q + 1) * (q + 1)) * (l * l)) by (nonlinear_arith)
        requires
            high == (q + 1) * l,
    ;
}

/// The rounded-down components of a unit vector have squares that sum to
/// `s^2`, up to rounding: between `s^2 - 6 s - 2` and `s^2 + 2 s`. `l` is
/// the rounded-down root of `n`, the sum of the squares of the components
/// `a`, and is at least `s`.
pub proof fn lemma_unit_parts(s: int, l: int, a: (int, int, int), q: (int, int, int))
    requires
        1 <= s <= l,
        l * l <= a.0 * a.0 + a.1 * a.1 + a.2 * a.2 < (l + 1) * (l + 1),
        0 <= a.0 && 0 <= a.1 && 0 <= a.2,
        0 <= q.0 <= s && 0 <= q.1 <= s && 0 <= q.2 <= s,
        q.0 * l <= a.0 * s < q.0 * l + l,
        q.1 * l <= a.1 * s < q.1 * l + l,
        q.2 * l <= a.2 * s < q.2 * l + l,
    ensures
        s * s - 6 * s - 2 <= q.0 * q.0 + q.1 * q.1 + q.2 * q.2 <= s * s + 2 * s,
{
    let n = a.0 * a.0 + a.1 * a.1 + a.2 * a.2;
    let ll = l * l;
    let ss = s * s;
    let below = q.0 * q.0 + q.1 * q.1 + q.2 * q.2;
    let above = (q.0 + 1) * (q.0 + 1) + (q.1 + 1) * (q.1 + 1) + (q.2 + 1) * (q.2 + 1);
    lemma_unit_part_squared(a.0, s, l, q.0);
    lemma_unit_part_squared(a.1, s, l, q.1);
    lemma_unit_part_squared(a.2, s, l, q.2);
    assert(below * ll == (q.0 * q.0) * ll + (q.1 * q.1) * ll + (q.2 * q.2) * ll)
        by (nonlinear_arith)
        requires
            below == q.0 * q.0 + q.1 * q.1 + q.2 * q.2,
    ;
    assert(above * ll == ((q.0 + 1) * (q.0 + 1)) * ll + ((q.1 + 1) * (q.1 + 1)) * ll + ((q.2 + 1)
        * (q.2 + 1)) * ll) by (nonlinear_arith)
        requires
            above == (q.0 + 1) * (q.0 + 1) + (q.1 + 1) * (q.1 + 1) + (q.2 + 1) * (q.2 + 1),
    ;
    assert(n * ss == (a.0 * a.0) * ss + (a.1 * a.1) * ss + (a.2 * a.2) * ss) by (nonlinear_arith)
        requires
            n == a.0 * a.0 + a.1 * a.1 + a.2 * a.2,
    ;
    assert(below * ll <= n * ss && n * ss < above * ll);
    // From above: the sum of the squares is below (s + 1)^2.
    if below >= (s + 1) * (s + 1) {
        assert(false) by (nonlinear_arith)
            requires
                1 <= s <= l,
                below >= (s + 1) * (s + 1),
                below * (l * l) <= n * (s * s),
                n < (l + 1) * (l + 1),
        {
            assert((s + 1) * (s + 1) * (l * l) <= below * (l * l));
            assert(n * (s * s) <= ((l + 1) * (l + 1) - 1) * (s * s));
            assert((s + 1) * l >= s * (l + 1));
            assert(((s + 1) * l) * ((s + 1) * l) >= (s * (l + 1)) * (s * (l + 1)));
        }
    }
    assert((s + 1) * (s + 1) == s * s + 2 * s + 1) by (nonlinear_arith);
    // From below: the sum of the squares of the successors is above s^2.
    assert(above > ss) by (nonlinear_arith)
        requires
            1 <= l,
            ll == l * l,
            n * ss < above * ll,
            ll <= n,
            0 <= ss,
    ;
    assert(above == below + 2 * (q.0 + q.1 + q.2) + 3) by (nonlinear_arith)
        requires
            above == (q.0 + 1) * (q.0 + 1) + (q.1 + 1) * (q.1 + 1) + (q.2 + 1) * (q.2 + 1),
            below == q.0 * q.0 + q.1 * q.1 + q.2 * q.2,
    ;
}

/// Two components of a unit vector, swapped and multiplied crosswise with
/// the components they came from, nearly cancel: for `q1` the rounded
/// `a k s / l` and `q2` the rounded `b k s / l`, `b q1` and `a q2` differ
/// by at most the larger of `a` and `b`.
pub proof fn lemma_crosswise(s: int, k: int, l: int, a: int, b: int, q1: int, q2: int)
    requires
        1 <= s,
        1 <= k,
        1 <= l,
        0 <= a,
        0 <= b,
        0 <= q1,
        0 <= q2,
        q1 * l <= (a * k) * s < q1 * l + l,
        q2 * l <= (b * k) * s < q2 * l + l,
    ensures
        b * q1 <= a * q2 + a,
        a * q2 <= b * q1 + b,
{
    let m = k * s;
    assert((a * k) * s == a * m && (b * k) * s == b * m) by (nonlinear_arith)
        requires
            m == k * s,
    ;
    assert(b * (q1 * l) <= b * (a * m)) by (nonlinear_arith)
        requires
            0 <= b,
            q1 * l <= a * m,
    ;
    assert(a * (b * m) <= a * (q2 * l + l)) by (nonlinear_arith)
        requires
            0 <= a,
            b * m < q2 * l + l,
    ;
    assert(b * (a * m) == a * (b * m)) by (nonlinear_arith);
    assert(b * (q1 * l) == (b * q1) * l && a * (q2 * l + l) == (a * q2 + a) * l)
        by (nonlinear_arith);
    assert(b * q1 <= a * q2 + a) by (nonlinear_arith)
        requires
            1 <= l,
            (b * q1) * l <= (a * q2 + a) * l,
    ;
    assert(a * (q2 * l) <= a * (b * m)) by (nonlinear_arith)
        requires
            0 <= a,
            q2 * l <= b * m,
    ;
    assert(b * (a * m) <= b * (q1 * l + l)) by (nonlinear_arith)
        requires
            0 <= b,
            a * m < q1 * l + l,
    ;
    assert(a * (q2 * l) == (a * q2) * l && b * (q1 * l + l) == (b * q1 + b) * l)
        by (nonlinear_arith);
    assert(a * q2 <= b * q1 + b) by (nonlinear_arith)
        requires
            1 <= l,
            (a * q2) * l <= (b * q1 + b) * l,
    ;
}

/// The cross product of a unit vector with the direction to its right is
/// at least half a unit long. `a`, `b` and `y` are the magnitudes of the
/// components of the unit vector, `y` the upward one; `q1` and `q2` those
/// of the direction to its right, with the divisor `l` and the magnifier
/// `k`; `t1 + t2` is the upward component of the cross product, `cx` and
/// `cz` the magnitudes of the other two.
pub proof fn lemma_upward_is_long(
    s: int,
    k: int,
    l: int,
    a: int,
    b: int,
    y: int,
    q: (int, int),
    t: (int, int),
    cx: int,
    cz: int,
)
    requires
        1000 <= s <= l,
        1 <= k,
        0 <= a <= s,
        0 <= b <= s,
        0 <= y <= s,
        s * s - 9 * s <= a * a + b * b + y * y,
        (a * a + b * b) * (k * k) < (l + 1) * (l + 1),
        l * l <= (a * a + b * b) * (k * k),
        0 <= q.0 <= s,
        0 <= q.1 <= s,
        q.0 * l <= (a * k) * s < q.0 * l + l,
        q.1 * l <= (b * k) * s < q.1 * l + l,
        s * s - 9 * s <= q.0 * q.0 + q.1 * q.1,
        0 <= a * q.0 - s * t.0 < s,
        0 <= b * q.1 - s * t.1 < s,
        0 <= y * q.1 - s * cx < s,
        0 <= y * q.0 - s * cz < s,
    ensures
        s * s <= 4 * (cx * cx + (t.0 + t.1) * (t.0 + t.1) + cz * cz),
{
    let up = t.0 + t.1;
    assert(cx * cx >= 0 && cz * cz >= 0 && up * up >= 0) by (nonlinear_arith);
    if 5 * y >= 4 * s {
        let yq1 = y * q.1;
        let yq0 = y * q.0;
        assert(5 * yq1 >= 4 * (s * q.1) && 5 * yq0 >= 4 * (s * q.0) && yq1 <= s * s && yq0 <= s
            * s) by (nonlinear_arith)
            requires
                yq1 == y * q.1,
                yq0 == y * q.0,
                5 * y >= 4 * s,
                0 <= y <= s,
                0 <= q.0 <= s,
                0 <= q.1 <= s,
        ;
        assert(5 * cx + 5 > 4 * q.1 && cx <= s && cx >= 0) by (nonlinear_arith)
            requires
                1 <= s,
                0 <= yq1 - s * cx < s,
                5 * yq1 >= 4 * (s * q.1),
                yq1 <= s * s,
                0 <= q.1,
        ;
        assert(5 * cz + 5 > 4 * q.0 && cz <= s && cz >= 0) by (nonlinear_arith)
            requires
                1 <= s,
                0 <= yq0 - s * cz < s,
                5 * yq0 >= 4 * (s * q.0),
                yq0 <= s * s,
                0 <= q.0,
        ;
        assert((5 * cx + 5) * (5 * cx + 5) >= 16 * (q.1 * q.1) && (5 * cx + 5) * (5 * cx + 5)
            == 25 * (cx * cx) + 50 * cx + 25) by (nonlinear_arith)
            requires
                5 * cx + 5 > 4 * q.1,
                0 <= q.1,
        ;
        assert((5 * cz + 5) * (5 * cz + 5) >= 16 * (q.0 * q.0) && (5 * cz + 5) * (5 * cz + 5)
            == 25 * (cz * cz) + 50 * cz + 25) by (nonlinear_arith)
            requires
                5 * cz + 5 > 4 * q.0,
                0 <= q.0,
        ;
        assert(39 * (s * s) >= 976 * s + 200) by (nonlinear_arith)
            requires
                1000 <= s,
        ;
    } else {
        let w = a * a + b * b;
        let g = a * q.0 + b * q.1;
        assert(25 * (y * y) < 16 * (s * s)) by (nonlinear_arith)
            requires
                0 <= y,
                5 * y < 4 * s,
        ;
        assert(59 * (s * s) >= 22500 * s) by (nonlinear_arith)
            requires
                1000 <= s,
        ;
        assert(2500 * w > 841 * (s * s));
        // The divisor is at least 0.58 s k.
        let sk = s * k;
        assert(2500 * ((l + 1) * (l + 1)) > (29 * sk) * (29 * sk)) by (nonlinear_arith)
            requires
                sk == s * k,
                1 <= k,
                w * (k * k) < (l + 1) * (l + 1),
                2500 * w > 841 * (s * s),
        ;
        assert(50 * (l + 1) > 29 * sk) by (nonlinear_arith)
            requires
                0 <= l,
                0 <= sk,
                2500 * ((l + 1) * (l + 1)) > (29 * sk) * (29 * sk),
        ;
        // The upward component is at least half a unit.
        assert((a * a) * (k * s) <= (a * q.0) * l + a * l) by (nonlinear_arith)
            requires
                0 <= a,
                (a * k) * s < q.0 * l + l,
        ;
        assert((b * b) * (k * s) <= (b * q.1) * l + b * l) by (nonlinear_arith)
            requires
                0 <= b,
                (b * k) * s < q.1 * l + l,
        ;
        assert(w * (k * s) == (a * a) * (k * s) + (b * b) * (k * s)) by (nonlinear_arith)
            requires
                w == a * a + b * b,
        ;
        assert(g * l == (a * q.0) * l + (b * q.1) * l) by (nonlinear_arith)
            requires
                g == a * q.0 + b * q.1,
        ;
        assert(w * (k * s) <= (g + a + b) * l) by (nonlinear_arith)
            requires
                w * (k * s) <= g * l + a * l + b * l,
        ;
        assert((l * l) * s <= ((g + a + b) * l) * k) by (nonlinear_arith)
            requires
                1 <= k,
                1 <= s,
                l * l <= w * (k * k),
                w * (k * s) <= (g + a + b) * l,
        {
            assert((w * (k * k)) * s == (w * (k * s)) * k);
        }
        assert(l * s <= (g + a + b) * k) by (nonlinear_arith)
            requires
                1 <= l,
                (l * l) * s <= ((g + a + b) * l) * k,
        ;
        assert(50 * (g + 2 * s) >= 29 * (s * s) - 50 * s) by (nonlinear_arith)
            requires
                1 <= k,
                1000 <= s,
                sk == s * k,
                50 * (l + 1) > 29 * sk,
                l * s <= (g + a + b) * k,
                0 <= a <= s,
                0 <= b <= s,
                0 <= g,
        ;
        assert(0 <= g) by (nonlinear_arith)
            requires
                g == a * q.0 + b * q.1,
                0 <= a,
                0 <= b,
                0 <= q.0,
                0 <= q.1,
        ;
        assert(2 * up > s) by (nonlinear_arith)
            requires
                1000 <= s,
                up == t.0 + t.1,
                g == a * q.0 + b * q.1,
                a * q.0 - s * t.0 < s,
                b * q.1 - s * t.1 < s,
                50 * (g + 2 * s) >= 29 * (s * s) - 50 * s,
        ;
        assert(4 * (up * up) > s * s) by (nonlinear_arith)
            requires
                2 * up > s,
                0 <= s,
        ;
    }
}

/// A vector of at least half a unit has a divisor of at least a third of
/// `k s`.
pub proof fn lemma_divisor_is_long(s: int, k: int, l: int, sum: int)
    requires
        1 <= s,
        1 <= k,
        0 <= l,
        s * s <= 4 * sum,
        sum * (k * k) < (l + 1) * (l + 1),
    ensures
        k * s <= 3 * l,
{
    let ks = k * s;
    assert(ks * ks <= 4 * (sum * (k * k))) by (nonlinear_arith)
        requires
            ks == k * s,
            s * s <= 4 * sum,
            1 <= k,
    ;
    assert(ks < 2 * (l + 1)) by (nonlinear_arith)
        requires
            0 <= l,
            0 <= ks,
            ks * ks < 4 * ((l + 1) * (l + 1)),
    ;
    assert(ks >= 1) by (nonlinear_arith)
        requires
            ks == k * s,
            1 <= k,
            1 <= s,
    ;
}

/// A vector is square to its cross product with any other vector, and so
/// is the other vector.
pub proof fn lemma_triple_product(a: (int, int, int), b: (int, int, int))
    ensures
        a.0 * (a.1 * b.2 - a.2 * b.1) + a.1 * (a.2 * b.0 - a.0 * b.2) + a.2 * (a.0 * b.1 - a.1
            * b.0) == 0,
        b.0 * (a.1 * b.2 - a.2 * b.1) + b.1 * (a.2 * b.0 - a.0 * b.2) + b.2 * (a.0 * b.1 - a.1
            * b.0) == 0,
{
    let p12 = a.1 * b.2;
    let p21 = a.2 * b.1;
    let p20 = a.2 * b.0;
    let p02 = a.0 * b.2;
    let p01 = a.0 * b.1;
    let p10 = a.1 * b.0;
    assert(a.0 * (p12 - p21) == a.0 * p12 - a.0 * p21 && a.1 * (p20 - p02) == a.1 * p20 - a.1
        * p02 && a.2 * (p01 - p10) == a.2 * p01 - a.2 * p10) by (nonlinear_arith);
    assert(a.0 * p12 == a.1 * p02) by (nonlinear_arith)
        requires
            p12 == a.1 * b.2,
            p02 == a.0 * b.2,
    ;
    assert(a.0 * p21 == a.2 * p01) by (nonlinear_arith)
        requires
            p21 == a.2 * b.1,
            p01 == a.0 * b.1,
    ;
    assert(a.1 * p20 == a.2 * p10) by (nonlinear_arith)
        requires
            p20 == a.2 * b.0,
            p10 == a.1 * b.0,
    ;
    assert(b.0 * (p12 - p21) == b.0 * p12 - b.0 * p21 && b.1 * (p20 - p02) == b.1 * p20 - b.1
        * p02 && b.2 * (p01 - p10) == b.2 * p01 - b.2 * p10) by (nonlinear_arith);
    assert(b.0 * p12 == b.2 * p10) by (nonlinear_arith)
        requires
            p12 == a.1 * b.2,
            p10 == a.1 * b.0,
    ;
    assert(b.0 * p21 == b.1 * p20) by (nonlinear_arith)
        requires
            p21 == a.2 * b.1,
            p20 == a.2 * b.0,
    ;
    assert(b.1 * p02 == b.2 * p01) by (nonlinear_arith)
        requires
            p02 == a.0 * b.2,
            p01 == a.0 * b.1,
    ;
}

/// A vector with components of at most `s` is square, up to rounding, to
/// a rounded cross product that it is exactly square to before rounding:
/// where each component of `c`, scaled by `s`, is within `2 s` of the
/// exact one, the dot product of `p` and `c` is at most `6 s`.
pub proof fn lemma_square_to_cross(s: int, p: (int, int, int), exact: (int, int, int), c: (int, int, int))
    requires
        1 <= s,
        -s <= p.0 <= s && -s <= p.1 <= s && -s <= p.2 <= s,
        p.0 * exact.0 + p.1 * exact.1 + p.2 * exact.2 == 0,
        -2 * s < s * c.0 - exact.0 < 2 * s,
        -2 * s < s * c.1 - exact.1 < 2 * s,
        -2 * s < s * c.2 - exact.2 < 2 * s,
    ensures
        -6 * s <= p.0 * c.0 + p.1 * c.1 + p.2 * c.2 <= 6 * s,
{
    let e = (s * c.0 - exact.0, s * c.1 - exact.1, s * c.2 - exact.2);
    let pe = (p.0 * e.0, p.1 * e.1, p.2 * e.2);
    let ss = s * s;
    assert(-2 * ss <= pe.0 <= 2 * ss && -2 * ss <= pe.1 <= 2 * ss && -2 * ss <= pe.2 <= 2 * ss)
        by (nonlinear_arith)
        requires
            1 <= s,
            ss == s * s,
            pe.0 == p.0 * e.0 && pe.1 == p.1 * e.1 && pe.2 == p.2 * e.2,
            -s <= p.0 <= s && -s <= p.1 <= s && -s <= p.2 <= s,
            -2 * s < e.0 < 2 * s && -2 * s < e.1 < 2 * s && -2 * s < e.2 < 2 * s,
    ;
    let dot = p.0 * c.0 + p.1 * c.1 + p.2 * c.2;
    assert(p.0 * e.0 == s * (p.0 * c.0) - p.0 * exact.0 && p.1 * e.1 == s * (p.1 * c.1) - p.1
        * exact.1 && p.2 * e.2 == s * (p.2 * c.2) - p.2 * exact.2) by (nonlinear_arith)
        requires
            e.0 == s * c.0 - exact.0,
            e.1 == s * c.1 - exact.1,
            e.2 == s * c.2 - exact.2,
    ;
    assert(s * dot == s * (p.0 * c.0) + s * (p.1 * c.1) + s * (p.2 * c.2)) by (nonlinear_arith)
        requires
            dot == p.0 * c.0 + p.1 * c.1 + p.2 * c.2,
    ;
    assert(s * dot == pe.0 + pe.1 + pe.2);
    assert(-6 * s <= dot <= 6 * s) by (nonlinear_arith)
        requires
            1 <= s,
            ss == s * s,
            -6 * ss <= s * dot <= 6 * ss,
    ;
}

/// One term of a dot product with a normalized vector, times the divisor.
pub proof fn lemma_part_after_normalizing(p: int, h: int, c: int, l: int, f: int)
    ensures
        (p * h) * l == (p * c) * f + p * (h * l - c * f),
{
    assert((p * h) * l == (p * c) * f + p * (h * l - c * f)) by (nonlinear_arith);
}

/// A unit vector that is square to a vector, up to rounding, stays square
/// to it after the vector is normalized. `p` has components of at most `s`
/// and a dot product with `c` of at most `6 s`; `h` holds the components of
/// the normalized `c`, whose divisor `l` is at least a third of `k s`.
/// Then the dot product of `p` and `h` is at most `21 s`.
pub proof fn lemma_square_after_normalizing(
    s: int,
    k: int,
    l: int,
    p: (int, int, int),
    c: (int, int, int),
    h: (int, int, int),
)
    requires
        1 <= s,
        1 <= k,
        1 <= l,
        k * s <= 3 * l,
        -s <= p.0 <= s && -s <= p.1 <= s && -s <= p.2 <= s,
        -6 * s <= p.0 * c.0 + p.1 * c.1 + p.2 * c.2 <= 6 * s,
        -l < h.0 * l - c.0 * (s * k) < l,
        -l < h.1 * l - c.1 * (s * k) < l,
        -l < h.2 * l - c.2 * (s * k) < l,
    ensures
        -21 * s <= p.0 * h.0 + p.1 * h.1 + p.2 * h.2 <= 21 * s,
{
    let f = s * k;
    let e = (h.0 * l - c.0 * f, h.1 * l - c.1 * f, h.2 * l - c.2 * f);
    let across = p.0 * c.0 + p.1 * c.1 + p.2 * c.2;
    let dot = p.0 * h.0 + p.1 * h.1 + p.2 * h.2;
    lemma_part_after_normalizing(p.0, h.0, c.0, l, f);
    lemma_part_after_normalizing(p.1, h.1, c.1, l, f);
    lemma_part_after_normalizing(p.2, h.2, c.2, l, f);
    assert(dot * l == (p.0 * h.0) * l + (p.1 * h.1) * l + (p.2 * h.2) * l) by (nonlinear_arith)
        requires
            dot == p.0 * h.0 + p.1 * h.1 + p.2 * h.2,
    ;
    assert(across * f == (p.0 * c.0) * f + (p.1 * c.1) * f + (p.2 * c.2) * f)
        by (nonlinear_arith)
        requires
            across == p.0 * c.0 + p.1 * c.1 + p.2 * c.2,
    ;
    assert(dot * l == across * f + (p.0 * e.0 + p.1 * e.1 + p.2 * e.2));
    let sl = s * l;
    let pe = (p.0 * e.0, p.1 * e.1, p.2 * e.2);
    assert(-sl <= pe.0 <= sl && -sl <= pe.1 <= sl && -sl <= pe.2 <= sl) by (nonlinear_arith)
        requires
            1 <= s,
            1 <= l,
            sl == s * l,
            pe.0 == p.0 * e.0 && pe.1 == p.1 * e.1 && pe.2 == p.2 * e.2,
            -s <= p.0 <= s && -s <= p.1 <= s && -s <= p.2 <= s,
            -l < e.0 < l && -l < e.1 < l && -l < e.2 < l,
    ;
    let af = across * f;
    assert(-18 * sl <= af <= 18 * sl) by (nonlinear_arith)
        requires
            1 <= s,
            sl == s * l,
            af == across * f,
            0 <= f <= 3 * l,
            -6 * s <= across <= 6 * s,
    ;
    assert(dot * l == af + (pe.0 + pe.1 + pe.2));
    assert(-21 * sl <= dot * l <= 21 * sl);
    assert(-21 * s <= dot <= 21 * s) by (nonlinear_arith)
        requires
            1 <= l,
            sl == s * l,
            -21 * sl <= dot * l <= 21 * sl,
    ;
}

} // verus!
