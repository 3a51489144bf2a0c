//! The arithmetic behind the law that a reflection keeps the length of a
//! unit vector, up to rounding. Everything here is about integers: `s` is
//! the scale, and the vectors are given by their raw components.
use vstd::prelude::*;

verus! {

/// The product of two bounded integers is bounded by the product of the
/// bounds.
pub proof fn lemma_product_bound(a: int, b: int, bound_a: int, bound_b: int)
    requires
        -bound_a <= a <= bound_a,
        -bound_b <= b <= bound_b,
    ensures
        -(bound_a * bound_b) <= a * b <= bound_a * bound_b,
{
    assert(-(bound_a * bound_b) <= a * b <= bound_a * bound_b) by (nonlinear_arith)
        requires
            -bound_a <= a <= bound_a,
            -bound_b <= b <= bound_b,
    ;
}

/// What rounding adds to a square: for `|y| <= 7 s^2` and `|e| < s`, the
/// squares of `y + e` and of `y` differ by at most `14 s^3 + s^2`.
pub proof fn lemma_square_shift(s: int, y: int, e: int)
    requires
        1 <= s,
        -7 * (s * s) <= y <= 7 * (s * s),
        -s < e < s,
    ensures
        -(14 * (s * s * s) + s * s) <= (y + e) * (y + e) - y * y <= 14 * (s * s * s) + s * s,
{
    assert((y + e) * (y + e) - y * y == 2 * (e * y) + e * e) by (nonlinear_arith);
    assert(-7 * (s * s * s) <= e * y <= 7 * (s * s * s)) by (nonlinear_arith)
        requires
            1 <= s,
            -7 * (s * s) <= y <= 7 * (s * s),
            -s < e < s,
    ;
    assert(0 <= e * e <= s * s) by (nonlinear_arith)
        requires
            -s < e < s,
    ;
}

/// The two terms that the rounding of the dot product and of the normal's
/// length leave behind are small: for `|d| <= 3 s`, `|g| < 3 s` and
/// `-9 s <= delta < 5 s`, `|-4 (s d) g + 4 (d d) delta| <= 360 s^3`.
pub proof fn lemma_mirror_residue(s: int, d: int, g: int, delta: int)
    requires
        1 <= s,
        -3 * s <= d <= 3 * s,
        -3 * s < g < 3 * s,
        -9 * s <= delta < 5 * s,
    ensures
        -360 * (s * s * s) <= -4 * ((s * d) * g) + 4 * ((d * d) * delta) <= 360 * (s * s * s),
{
    assert(-3 * (s * s) <= s * d <= 3 * (s * s)) by (nonlinear_arith)
        requires
            1 <= s,
            -3 * s <= d <= 3 * s,
    ;
    let c = s * d;
    assert(-9 * (s * s * s) <= c * g <= 9 * (s * s * s)) by (nonlinear_arith)
        requires
            1 <= s,
            -3 * (s * s) <= c <= 3 * (s * s),
            -3 * s < g < 3 * s,
    ;
    assert(0 <= d * d <= 9 * (s * s)) by (nonlinear_arith)
        requires
            1 <= s,
            -3 * s <= d <= 3 * s,
    ;
    let q = d * d;
    assert(-81 * (s * s * s) <= q * delta <= 45 * (s * s * s)) by (nonlinear_arith)
        requires
            1 <= s,
            0 <= q <= 9 * (s * s),
            -9 * s <= delta < 5 * s,
    ;
}

/// One component of the mirrored vector, scaled by `s` and squared: with
/// `e = 2 n d - s w` the rounding of the step along the normal,
/// `s^2 (v - w)^2` differs from
/// `s^2 v^2 - 4 (s d) (v n) + 4 (d d) (n n)` by at most `14 s^3 + s^2`.
pub proof fn lemma_mirror_component(s: int, v: int, n: int, d: int, w: int)
    requires
        1 <= s,
        -s <= v <= s,
        -s <= n <= s,
        -3 * s <= d <= 3 * s,
        -s < 2 * (n * d) - s * w < s,
    ensures
        -(14 * (s * s * s) + s * s) <= (s * s) * ((v - w) * (v - w)) - ((s * s) * (v * v) - 4 * ((s
            * d) * (v * n)) + 4 * ((d * d) * (n * n))) <= 14 * (s * s * s) + s * s,
{
    let a = s * v;
    let b = n * d;
    let e = 2 * b - s * w;
    let y = a - 2 * b;
    assert(s * (v - w) == y + e) by (nonlinear_arith)
        requires
            a == s * v,
            e == 2 * b - s * w,
            y == a - 2 * b,
    ;
    let k = s * (v - w);
    assert(k * k == (s * s) * ((v - w) * (v - w))) by (nonlinear_arith)
        requires
            k == s * (v - w),
    ;
    assert(-(s * s) <= a <= s * s) by (nonlinear_arith)
        requires
            1 <= s,
            -s <= v <= s,
            a == s * v,
    ;
    assert(-3 * (s * s) <= b <= 3 * (s * s)) by (nonlinear_arith)
        requires
            1 <= s,
            -s <= n <= s,
            -3 * s <= d <= 3 * s,
            b == n * d,
    ;
    let z = s * s;
    assert(-z <= a && a <= z);
    assert(-3 * z <= b && b <= 3 * z);
    assert(-7 * z <= y && y <= 7 * z);
    lemma_square_shift(s, y, e);
    assert(y * y == a * a - 4 * (a * b) + 4 * (b * b)) by (nonlinear_arith)
        requires
            y == a - 2 * b,
    ;
    assert(a * a == (s * s) * (v * v)) by (nonlinear_arith)
        requires
            a == s * v,
    ;
    assert(a * b == (s * d) * (v * n)) by (nonlinear_arith)
        requires
            a == s * v,
            b == n * d,
    ;
    assert(b * b == (d * d) * (n * n)) by (nonlinear_arith)
        requires
            b == n * d,
    ;
}

/// A reflection keeps the length of a unit vector up to rounding, in
/// integers. `n` has a squared length within a few multiples of `s` of
/// `s^2`; `d` is the dot product of `v` and `n` over `s`, rounded term by
/// term; `w` is `2 n d / s`, rounded; `lv` and `lr` are the squared lengths
/// of `v` and of `v - w` over `s`, rounded term by term. Then `lr` is
/// within 406 of `lv`.
pub proof fn lemma_mirror_length(
    s: int,
    v: (int, int, int),
    n: (int, int, int),
    d: int,
    w: (int, int, int),
    lv: int,
    lr: int,
)
    requires
        4 <= s,
        -s <= v.0 <= s && -s <= v.1 <= s && -s <= v.2 <= s,
        -s <= n.0 <= s && -s <= n.1 <= s && -s <= n.2 <= s,
        v.0 * v.0 + v.1 * v.1 + v.2 * v.2 - 3 * s < s * lv <= v.0 * v.0 + v.1 * v.1 + v.2 * v.2,
        s * s - 9 * s <= n.0 * n.0 + n.1 * n.1 + n.2 * n.2 < s * s + 5 * s,
        -3 * s <= d <= 3 * s,
        -3 * s < v.0 * n.0 + v.1 * n.1 + v.2 * n.2 - s * d < 3 * s,
        -s < 2 * (n.0 * d) - s * w.0 < s,
        -s < 2 * (n.1 * d) - s * w.1 < s,
        -s < 2 * (n.2 * d) - s * w.2 < s,
        (v.0 - w.0) * (v.0 - w.0) + (v.1 - w.1) * (v.1 - w.1) + (v.2 - w.2) * (v.2 - w.2) - 3 * s
            < s * lr <= (v.0 - w.0) * (v.0 - w.0) + (v.1 - w.1) * (v.1 - w.1) + (v.2 - w.2) * (v.2
            - w.2),
    ensures
        -406 < lr - lv < 406,
{
    let z = s * s;
    let c = s * d;
    let q = d * d;
    let cube = s * s * s;
    let big_v = v.0 * v.0 + v.1 * v.1 + v.2 * v.2;
    let big_n = n.0 * n.0 + n.1 * n.1 + n.2 * n.2;
    let big_p = v.0 * n.0 + v.1 * n.1 + v.2 * n.2;
    let big_r = (v.0 - w.0) * (v.0 - w.0) + (v.1 - w.1) * (v.1 - w.1) + (v.2 - w.2) * (v.2 - w.2);
    let g = big_p - c;
    let delta = big_n - z;
    lemma_mirror_component(s, v.0, n.0, d, w.0);
    lemma_mirror_component(s, v.1, n.1, d, w.1);
    lemma_mirror_component(s, v.2, n.2, d, w.2);
    assert(z * big_r == z * ((v.0 - w.0) * (v.0 - w.0)) + z * ((v.1 - w.1) * (v.1 - w.1)) + z * ((
    v.2 - w.2) * (v.2 - w.2))) by (nonlinear_arith)
        requires
            big_r == (v.0 - w.0) * (v.0 - w.0) + (v.1 - w.1) * (v.1 - w.1) + (v.2 - w.2) * (v.2
                - w.2),
    ;
    assert(z * big_v == z * (v.0 * v.0) + z * (v.1 * v.1) + z * (v.2 * v.2)) by (nonlinear_arith)
        requires
            big_v == v.0 * v.0 + v.1 * v.1 + v.2 * v.2,
    ;
    assert(c * big_p == c * (v.0 * n.0) + c * (v.1 * n.1) + c * (v.2 * n.2)) by (nonlinear_arith)
        requires
            big_p == v.0 * n.0 + v.1 * n.1 + v.2 * n.2,
    ;
    assert(q * big_n == q * (n.0 * n.0) + q * (n.1 * n.1) + q * (n.2 * n.2)) by (nonlinear_arith)
        requires
            big_n == n.0 * n.0 + n.1 * n.1 + n.2 * n.2,
    ;
    // What is left of -4 c P + 4 q N once P = c + g and N = z + delta.
    assert(c * big_p == c * c + c * g) by (nonlinear_arith)
        requires
            g == big_p - c,
    ;
    assert(q * big_n == q * z + q * delta) by (nonlinear_arith)
        requires
            delta == big_n - z,
    ;
    assert(c * c == q * z) by (nonlinear_arith)
        requires
            c == s * d,
            q == d * d,
            z == s * s,
    ;
    lemma_mirror_residue(s, d, g, delta);
    let spread = z * big_r - z * big_v;
    assert(-(402 * cube + 3 * z) <= spread <= 402 * cube + 3 * z);
    assert(spread == z * (big_r - big_v)) by (nonlinear_arith)
        requires
            spread == z * big_r - z * big_v,
    ;
    assert(-(402 * s + 3) <= big_r - big_v <= 402 * s + 3) by (nonlinear_arith)
        requires
            4 <= s,
            z == s * s,
            cube == s * s * s,
            -(402 * cube + 3 * z) <= z * (big_r - big_v) <= 402 * cube + 3 * z,
    ;
    assert(-406 < lr - lv < 406) by (nonlinear_arith)
        requires
            4 <= s,
            -(405 * s + 3) < s * lr - s * lv < 405 * s + 3,
    ;
}

} // verus!
