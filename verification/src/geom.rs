//! Fixed-point plane geometry: vectors in milli-units, truncating division,
//! integer square root, and the normalization that steering and attacks use.

use vstd::prelude::*;
use vstd::arithmetic::div_mod::{lemma_div_is_ordered, lemma_div_multiples_vanish};

verus! {

/// Positions are kept inside [-POS_LIMIT, POS_LIMIT] milli-units on each axis.
pub const POS_LIMIT: i64 = 1_000_000_000;

/// Collision radii lie in (0, RADIUS_LIMIT] milli-units.
pub const RADIUS_LIMIT: i64 = 1_000_000;

/// Truncating division (rounding toward zero) for a positive divisor,
/// matching what the executable helpers below compute.
pub open spec fn div_t(a: int, d: int) -> int {
    if a >= 0 {
        a / d
    } else {
        -((-a) / d)
    }
}

/// Clamp `v` into [lo, hi].
pub open spec fn clamp_s(v: int, lo: int, hi: int) -> int {
    if v < lo {
        lo
    } else if v > hi {
        hi
    } else {
        v
    }
}

/// The integer square root: the largest `r` with `r * r <= n`.
pub open spec fn sqrt_floor(n: nat) -> nat
    decreases n,
{
    if n == 0 {
        0
    } else {
        let p = sqrt_floor((n - 1) as nat);
        if (p + 1) * (p + 1) <= n {
            p + 1
        } else {
            p
        }
    }
}

/// `sqrt_floor(n)` squares to at most `n`, and the next integer squares past it.
pub proof fn lemma_sqrt_floor(n: nat)
    ensures
        sqrt_floor(n) * sqrt_floor(n) <= n,
        n < (sqrt_floor(n) + 1) * (sqrt_floor(n) + 1),
    decreases n,
{
    if n == 0 {
        let s = sqrt_floor(n);
        assert(s == 0);
        assert(n < (s + 1) * (s + 1)) by (nonlinear_arith)
            requires
                n == 0,
                s == 0,
        ;
        assert(s * s <= n) by (nonlinear_arith)
            requires
                n == 0,
                s == 0,
        ;
    } else {
        let p = sqrt_floor((n - 1) as nat);
        lemma_sqrt_floor((n - 1) as nat);
        let s = sqrt_floor(n);
        if (p + 1) * (p + 1) <= n {
            assert(s == p + 1);
            assert(n < (s + 1) * (s + 1)) by (nonlinear_arith)
                requires
                    n - 1 < (p + 1) * (p + 1),
                    s == p + 1,
                    0 <= p,
            ;
        } else {
            assert(s == p);
            assert(s * s <= n);
        }
    }
}

/// There is only one integer square root.
pub proof fn lemma_sqrt_floor_unique(n: nat, r: nat)
    requires
        r * r <= n,
        n < (r + 1) * (r + 1),
    ensures
        r == sqrt_floor(n),
{
    lemma_sqrt_floor(n);
    let s = sqrt_floor(n);
    assert(r == s) by (nonlinear_arith)
        requires
            r * r <= n,
            n < (r + 1) * (r + 1),
            s * s <= n,
            n < (s + 1) * (s + 1),
            0 <= r,
            0 <= s,
    ;
}

/// The integer square root is monotone.
pub proof fn lemma_sqrt_floor_ordered(m: nat, n: nat)
    requires
        m <= n,
    ensures
        sqrt_floor(m) <= sqrt_floor(n),
{
    lemma_sqrt_floor(m);
    lemma_sqrt_floor(n);
    let a = sqrt_floor(m);
    let b = sqrt_floor(n);
    assert(a <= b) by (nonlinear_arith)
        requires
            a * a <= m,
            m <= n,
            n < (b + 1) * (b + 1),
            0 <= a,
            0 <= b,
    ;
}

/// A perfect square has itself as integer square root.
pub proof fn lemma_sqrt_floor_square(a: nat)
    ensures
        sqrt_floor(a * a) == a,
{
    assert(a * a < (a + 1) * (a + 1)) by (nonlinear_arith)
        requires
            0 <= a,
    ;
    lemma_sqrt_floor_unique(a * a, a);
}

/// Integer square root by binary search.
pub fn isqrt_u128(n: u128) -> (r: u128)
    ensures
        r == sqrt_floor(n as nat),
        r < 0x1_0000_0000_0000_0000,
{
    let mut lo: u128 = 0;
    let mut hi: u128 = 0x1_0000_0000_0000_0000;
    proof {
        assert((hi as int) * (hi as int) > n as int) by (nonlinear_arith)
            requires
                hi == 0x1_0000_0000_0000_0000u128,
                n <= u128::MAX,
        ;
    }
    while lo + 1 < hi
        invariant
            lo < hi <= 0x1_0000_0000_0000_0000,
            (lo as int) * (lo as int) <= n as int,
            (hi as int) * (hi as int) > n as int,
        decreases hi - lo,
    {
        let mid: u128 = lo + (hi - lo) / 2;
        proof {
            assert((mid as int) * (mid as int) <= (0xffff_ffff_ffff_ffffu64 as int) * (
            0xffff_ffff_ffff_ffffu64 as int)) by (nonlinear_arith)
                requires
                    0 <= mid as int <= 0xffff_ffff_ffff_ffffu64 as int,
            ;
        }
        if mid * mid <= n {
            lo = mid;
        } else {
            hi = mid;
        }
    }
    proof {
        lemma_sqrt_floor_unique(n as nat, lo as nat);
    }
    lo
}

/// Truncating (toward zero) division of an `i64` by a positive divisor.
pub fn div_tr_64(a: i64, d: u64) -> (r: i64)
    requires
        d >= 1,
        -i64::MAX <= a,
    ensures
        r as int == div_t(a as int, d as int),
        -(i64::MAX as int) <= r as int <= i64::MAX,
{
    if a >= 0 {
        let q: u64 = (a as u64) / d;
        proof {
            lemma_div_is_ordered(q as int, a as int, 1);
            lemma_div_ord_denom(a as int, 1, d as int);
        }
        q as i64
    } else {
        let m: u64 = (-a) as u64;
        let q: u64 = m / d;
        proof {
            lemma_div_ord_denom(m as int, 1, d as int);
        }
        -(q as i64)
    }
}

/// Truncating (toward zero) division of an `i128` by a positive divisor.
pub fn div_tr_128(a: i128, d: u128) -> (r: i128)
    requires
        d >= 1,
        -i128::MAX <= a,
    ensures
        r as int == div_t(a as int, d as int),
        -(i128::MAX as int) <= r as int <= i128::MAX,
{
    if a >= 0 {
        let q: u128 = (a as u128) / d;
        proof {
            lemma_div_ord_denom(a as int, 1, d as int);
        }
        q as i128
    } else {
        let m: u128 = (-a) as u128;
        let q: u128 = m / d;
        proof {
            lemma_div_ord_denom(m as int, 1, d as int);
        }
        -(q as i128)
    }
}

/// Dividing a nonnegative value by a larger denominator gives a smaller quotient.
pub proof fn lemma_div_ord_denom(x: int, d1: int, d2: int)
    requires
        0 <= x,
        1 <= d1 <= d2,
    ensures
        x / d2 <= x / d1,
{
    vstd::arithmetic::div_mod::lemma_div_is_ordered_by_denominator(x, d1, d2);
}

/// A plane vector in milli-units.
#[derive(Clone, Copy, PartialEq, Eq, Structural, Debug)]
pub struct Vec2 {
    pub x: i64,
    pub y: i64,
}

/// Squared Euclidean norm.
pub open spec fn norm_sq(x: int, y: int) -> int {
    x * x + y * y
}

/// Both components of a vector lie within [-b, b].
pub open spec fn in_box(v: Vec2, b: int) -> bool {
    -b <= v.x <= b && -b <= v.y <= b
}

/// The squared distance between two points, exactly.
pub fn dist_sq(a: Vec2, b: Vec2) -> (r: i128)
    requires
        in_box(a, 100_000_000_000),
        in_box(b, 100_000_000_000),
    ensures
        r as int == norm_sq(a.x - b.x, a.y - b.y),
        0 <= r,
{
    let dx: i64 = a.x - b.x;
    let dy: i64 = a.y - b.y;
    proof {
        lemma_mul_bound(dx as int, dx as int, 200_000_000_000, 200_000_000_000);
        lemma_mul_bound(dy as int, dy as int, 200_000_000_000, 200_000_000_000);
        lemma_square_nonneg(dx as int);
        lemma_square_nonneg(dy as int);
    }
    (dx as i128) * (dx as i128) + (dy as i128) * (dy as i128)
}

/// |a| <= am and |b| <= bm bound the product by am * bm.
pub proof fn lemma_mul_bound(a: int, b: int, am: int, bm: int)
    by (nonlinear_arith)
    requires
        -am <= a <= am,
        -bm <= b <= bm,
        0 <= am,
        0 <= bm,
    ensures
        -(am * bm) <= a * b <= am * bm,
{
}

/// Squares are nonnegative.
pub proof fn lemma_square_nonneg(a: int)
    by (nonlinear_arith)
    ensures
        a * a >= 0,
{
}

/// Facing vectors (scaled unit directions, possibly rotated) stay inside
/// this per-component bound.
pub const FACING_BOX: i64 = 2000;

/// A quotient is bounded when the dividend is: |a| <= m * d gives |a / d| <= m.
pub proof fn lemma_div_t_bound(a: int, d: int, m: int)
    requires
        1 <= d,
        0 <= m,
        -(m * d) <= a <= m * d,
    ensures
        -m <= div_t(a, d) <= m,
{
    lemma_div_multiples_vanish(m, d);
    assert(d * m == m * d) by (nonlinear_arith);
    if a >= 0 {
        lemma_div_is_ordered(a, m * d, d);
        vstd::arithmetic::div_mod::lemma_div_pos_is_pos(a, d);
    } else {
        lemma_div_is_ordered(-a, m * d, d);
        vstd::arithmetic::div_mod::lemma_div_pos_is_pos(-a, d);
    }
}

/// Two circles overlap when the squared distance between their centres is
/// at most the square of the sum of their radii.
pub open spec fn circles_overlap(a: Vec2, ra: int, b: Vec2, rb: int) -> bool {
    norm_sq(a.x - b.x, a.y - b.y) <= (ra + rb) * (ra + rb)
}

/// Decide circle overlap, exactly as `circles_overlap` states it.
pub fn overlaps(a: Vec2, ra: i64, b: Vec2, rb: i64) -> (r: bool)
    requires
        in_box(a, POS_LIMIT as int),
        in_box(b, POS_LIMIT as int),
        0 <= ra <= RADIUS_LIMIT,
        0 <= rb <= RADIUS_LIMIT,
    ensures
        r == circles_overlap(a, ra as int, b, rb as int),
{
    let d2: i128 = dist_sq(a, b);
    let rsum: i64 = ra + rb;
    proof {
        lemma_mul_bound(rsum as int, rsum as int, 2_000_000, 2_000_000);
    }
    d2 <= (rsum as i128) * (rsum as i128)
}

/// The unit direction of (x, y), scaled by 1000 and truncated; the zero
/// vector maps to zero (a degenerate direction contributes nothing).
pub open spec fn unit_of(x: int, y: int) -> (int, int) {
    let l = sqrt_floor(norm_sq(x, y) as nat) as int;
    if l == 0 {
        (0, 0)
    } else {
        (div_t(x * 1000, l), div_t(y * 1000, l))
    }
}

/// A component is bounded by the norm: |x| <= sqrt_floor(x*x + y*y).
pub proof fn lemma_component_le_norm(x: int, y: int)
    ensures
        (if x >= 0 { x } else { -x }) <= sqrt_floor(norm_sq(x, y) as nat) as int,
{
    let ax = if x >= 0 { x } else { -x };
    lemma_square_nonneg(x);
    lemma_square_nonneg(y);
    assert(ax * ax == x * x) by (nonlinear_arith)
        requires
            ax == x || ax == -x,
    ;
    lemma_sqrt_floor_square(ax as nat);
    lemma_sqrt_floor_ordered((ax * ax) as nat, norm_sq(x, y) as nat);
}

/// Truncating division keeps |x * 1000 / l| at or below 1000 when |x| <= l.
proof fn lemma_unit_component_bound(x: int, l: int)
    requires
        1 <= l,
        (if x >= 0 { x } else { -x }) <= l,
    ensures
        -1000 <= div_t(x * 1000, l) <= 1000,
{
    if x >= 0 {
        lemma_mul_ordered(x, l, 1000);
        lemma_div_is_ordered(x * 1000, l * 1000, l);
        lemma_div_multiples_vanish(1000, l);
        assert(l * 1000 == 1000 * l);
        assert(x * 1000 >= 0) by (nonlinear_arith)
            requires
                x >= 0,
        ;
        vstd::arithmetic::div_mod::lemma_div_pos_is_pos(x * 1000, l);
    } else {
        let m = -x;
        lemma_mul_ordered(m, l, 1000);
        lemma_div_is_ordered(m * 1000, l * 1000, l);
        lemma_div_multiples_vanish(1000, l);
        assert(l * 1000 == 1000 * l);
        assert(m * 1000 >= 0) by (nonlinear_arith)
            requires
                m >= 0,
        ;
        vstd::arithmetic::div_mod::lemma_div_pos_is_pos(m * 1000, l);
        assert(-(x * 1000) == m * 1000);
    }
}

/// Multiplying both sides of `a <= b` by a nonnegative factor keeps the order.
pub proof fn lemma_mul_ordered(a: int, b: int, c: int)
    by (nonlinear_arith)
    requires
        a <= b,
        0 <= c,
    ensures
        a * c <= b * c,
{
}

/// The truncated unit direction of `v`, scaled by 1000. Returns the zero
/// vector for the zero vector.
pub fn normalize(v: Vec2) -> (r: Vec2)
    requires
        in_box(v, 2 * POS_LIMIT as int),
    ensures
        (r.x as int, r.y as int) == unit_of(v.x as int, v.y as int),
        in_box(r, 1000),
{
    let n2: i128 = dist_sq(v, Vec2 { x: 0, y: 0 });
    proof {
        lemma_mul_bound(v.x as int, v.x as int, 2_000_000_000, 2_000_000_000);
        lemma_mul_bound(v.y as int, v.y as int, 2_000_000_000, 2_000_000_000);
        assert(n2 as int <= 8_000_000_000_000_000_000);
    }
    let l128: u128 = isqrt_u128(n2 as u128);
    if l128 == 0 {
        proof {
            lemma_sqrt_floor(n2 as nat);
        }
        Vec2 { x: 0, y: 0 }
    } else {
        proof {
            lemma_sqrt_floor(n2 as nat);
            assert(l128 as int * (l128 as int) <= n2 as int);
            lemma_component_le_norm(v.x as int, v.y as int);
            lemma_component_le_norm(v.y as int, v.x as int);
            assert(norm_sq(v.y as int, v.x as int) == norm_sq(v.x as int, v.y as int));
        }
        let l: u64 = l128 as u64;
        proof {
            assert(l128 <= 0x7fff_ffff_ffff_ffff) by (nonlinear_arith)
                requires
                    (l128 as int) * (l128 as int) <= n2 as int,
                    n2 as int <= 8_000_000_000_000_000_000,
                    0 <= l128,
            ;
        }
        let rx: i64 = div_tr_64(v.x * 1000, l);
        let ry: i64 = div_tr_64(v.y * 1000, l);
        proof {
            lemma_unit_component_bound(v.x as int, l as int);
            lemma_unit_component_bound(v.y as int, l as int);
        }
        Vec2 { x: rx, y: ry }
    }
}

/// The scaled unit direction has components within the scale, 1000.
pub proof fn lemma_unit_of_bound(x: int, y: int)
    ensures
        -1000 <= unit_of(x, y).0 <= 1000,
        -1000 <= unit_of(x, y).1 <= 1000,
{
    let l = sqrt_floor(norm_sq(x, y) as nat) as int;
    if l != 0 {
        lemma_component_le_norm(x, y);
        lemma_component_le_norm(y, x);
        assert(norm_sq(y, x) == norm_sq(x, y));
        lemma_unit_component_bound(x, l);
        lemma_unit_component_bound(y, l);
    }
}

/// A nonzero integer squares to at least one.
pub proof fn lemma_nonzero_square(x: int)
    by (nonlinear_arith)
    requires
        x != 0,
    ensures
        x * x >= 1,
{
}

/// `v` rotated by the angle whose cosine and sine are `cos_m / 1000` and
/// `sin_m / 1000`, each product truncated back to the milli scale.
pub open spec fn rotated(v: Vec2, cos_m: int, sin_m: int) -> (int, int) {
    (div_t(v.x * cos_m - v.y * sin_m, 1000), div_t(v.x * sin_m + v.y * cos_m, 1000))
}

/// Rotate a facing vector by a fixed angle given as per-mille cosine and sine.
pub fn rotate(v: Vec2, cos_m: i64, sin_m: i64) -> (r: Vec2)
    requires
        in_box(v, 1000),
        -1000 <= cos_m <= 1000,
        -1000 <= sin_m <= 1000,
    ensures
        (r.x as int, r.y as int) == rotated(v, cos_m as int, sin_m as int),
        in_box(r, FACING_BOX as int),
{
    proof {
        lemma_mul_bound(v.x as int, cos_m as int, 1000, 1000);
        lemma_mul_bound(v.y as int, sin_m as int, 1000, 1000);
        lemma_mul_bound(v.x as int, sin_m as int, 1000, 1000);
        lemma_mul_bound(v.y as int, cos_m as int, 1000, 1000);
    }
    let nx: i64 = v.x * cos_m - v.y * sin_m;
    let ny: i64 = v.x * sin_m + v.y * cos_m;
    let rx: i64 = div_tr_64(nx, 1000);
    let ry: i64 = div_tr_64(ny, 1000);
    proof {
        lemma_div_t_bound(nx as int, 1000, 2000);
        lemma_div_t_bound(ny as int, 1000, 2000);
    }
    Vec2 { x: rx, y: ry }
}

/// One displacement component: direction component times force, scaled by
/// the tick duration `num / den` seconds, truncated toward zero.
pub open spec fn dir_step(u: Vec2, force: int, num: int, den: int) -> (int, int) {
    (div_t(u.x * force * num, den), div_t(u.y * force * num, den))
}

/// Displacement of a facing vector under a force over `num / den` seconds.
pub fn scale_dir(u: Vec2, force: u32, num: u32, den: u32) -> (r: (i64, i64))
    requires
        in_box(u, FACING_BOX as int),
        force <= 1_000_000,
        num <= 1_000_000,
        1 <= den,
    ensures
        r.0 as int == dir_step(u, force as int, num as int, den as int).0,
        r.1 as int == dir_step(u, force as int, num as int, den as int).1,
        -2_000_000_000_000_000 <= r.0 <= 2_000_000_000_000_000,
        -2_000_000_000_000_000 <= r.1 <= 2_000_000_000_000_000,
{
    proof {
        lemma_mul_bound(u.x as int, force as int, 2000, 1_000_000);
        lemma_mul_bound(u.y as int, force as int, 2000, 1_000_000);
        lemma_mul_bound(u.x as int * force as int, num as int, 2_000_000_000, 1_000_000);
        lemma_mul_bound(u.y as int * force as int, num as int, 2_000_000_000, 1_000_000);
    }
    let ax: i64 = u.x * (force as i64) * (num as i64);
    let ay: i64 = u.y * (force as i64) * (num as i64);
    let rx: i64 = div_tr_64(ax, den as u64);
    let ry: i64 = div_tr_64(ay, den as u64);
    proof {
        lemma_mul_ordered(1, den as int, 2_000_000_000_000_000);
        lemma_div_t_bound(ax as int, den as int, 2_000_000_000_000_000);
        lemma_div_t_bound(ay as int, den as int, 2_000_000_000_000_000);
    }
    (rx, ry)
}

/// A vector clamped to length at most `c`: kept as is when its squared norm
/// is within `c * c`, otherwise rescaled onto the circle of radius `c`.
pub open spec fn clamped_len(x: int, y: int, c: int) -> (int, int) {
    if norm_sq(x, y) <= c * c {
        (x, y)
    } else {
        let l = sqrt_floor(norm_sq(x, y) as nat) as int;
        (div_t(x * c, l), div_t(y * c, l))
    }
}

/// Clamp a vector's length to at most `c`.
pub fn clamp_len(x: i128, y: i128, c: u64) -> (r: (i64, i64))
    requires
        -10_000_000_000_000_000 <= x <= 10_000_000_000_000_000,
        -10_000_000_000_000_000 <= y <= 10_000_000_000_000_000,
        1 <= c <= 1_000_000,
    ensures
        r.0 as int == clamped_len(x as int, y as int, c as int).0,
        r.1 as int == clamped_len(x as int, y as int, c as int).1,
        -(c as int) <= r.0 as int <= c as int,
        -(c as int) <= r.1 as int <= c as int,
{
    proof {
        lemma_mul_bound(x as int, x as int, 10_000_000_000_000_000, 10_000_000_000_000_000);
        lemma_mul_bound(y as int, y as int, 10_000_000_000_000_000, 10_000_000_000_000_000);
        lemma_square_nonneg(x as int);
        lemma_square_nonneg(y as int);
        lemma_mul_bound(c as int, c as int, 1_000_000, 1_000_000);
    }
    let n2: i128 = x * x + y * y;
    let c2: i128 = (c as i128) * (c as i128);
    if n2 <= c2 {
        proof {
            lemma_component_le_sq(x as int, y as int, c as int);
        }
        (x as i64, y as i64)
    } else {
        let l128: u128 = isqrt_u128(n2 as u128);
        proof {
            lemma_sqrt_floor(n2 as nat);
            lemma_sqrt_floor_ordered(1, n2 as nat);
            lemma_component_le_norm(x as int, y as int);
            lemma_component_le_norm(y as int, x as int);
            assert(norm_sq(y as int, x as int) == norm_sq(x as int, y as int));
            assert(l128 as int * (l128 as int) <= n2 as int);
            assert(l128 <= 200_000_000_000_000_000) by (nonlinear_arith)
                requires
                    (l128 as int) * (l128 as int) <= n2 as int,
                    n2 as int <= 200_000_000_000_000_000_000_000_000_000_000,
                    0 <= l128,
            ;
        }
        proof {
            lemma_mul_bound(x as int, c as int, 10_000_000_000_000_000, 1_000_000);
            lemma_mul_bound(y as int, c as int, 10_000_000_000_000_000, 1_000_000);
        }
        let rx: i128 = div_tr_128(x * (c as i128), l128);
        let ry: i128 = div_tr_128(y * (c as i128), l128);
        proof {
            let l = l128 as int;
            lemma_mul_ordered_both(x as int, y as int, l, c as int);
            lemma_div_t_bound((x * (c as i128)) as int, l, c as int);
            lemma_div_t_bound((y * (c as i128)) as int, l, c as int);
        }
        (rx as i64, ry as i64)
    }
}

/// When the squared norm is within `c * c`, each component is within `c`.
proof fn lemma_component_le_sq(x: int, y: int, c: int)
    by (nonlinear_arith)
    requires
        x * x + y * y <= c * c,
        0 <= c,
    ensures
        -c <= x <= c,
        -c <= y <= c,
{
}

/// Scaling two norm-bounded components by `c` keeps them within `c * l`.
proof fn lemma_mul_ordered_both(x: int, y: int, l: int, c: int)
    by (nonlinear_arith)
    requires
        -l <= x <= l,
        -l <= y <= l,
        0 <= l,
        0 <= c,
    ensures
        -(c * l) <= x * c <= c * l,
        -(c * l) <= y * c <= c * l,
{
}

/// A coordinate clamped into the world box.
pub fn clamp_coord(v: i128) -> (r: i64)
    ensures
        r as int == clamp_s(v as int, -POS_LIMIT as int, POS_LIMIT as int),
        -POS_LIMIT <= r <= POS_LIMIT,
{
    if v > POS_LIMIT as i128 {
        POS_LIMIT
    } else if v < -POS_LIMIT as i128 {
        -POS_LIMIT
    } else {
        v as i64
    }
}

/// The melee reach test: the capsule swept from `a` along facing `f` over
/// `cast` milli-units, with rounded ends, against the circle at `t` with
/// radius `r`. `c_raw` is the dot product of the offset with the per-mille
/// facing, so `cast * 1000` is the far end on the same scale.
pub open spec fn capsule_hits(a: Vec2, f: Vec2, cast: int, t: Vec2, r: int) -> bool {
    let vx = t.x - a.x;
    let vy = t.y - a.y;
    let c_raw = vx * f.x + vy * f.y;
    let c = div_t(c_raw, 1000);
    let px = div_t(f.x * c, 1000);
    let py = div_t(f.y * c, 1000);
    let ex = div_t(f.x * cast, 1000);
    let ey = div_t(f.y * cast, 1000);
    (0 <= c_raw && c_raw <= cast * 1000 && norm_sq(vx - px, vy - py) <= r * r) || norm_sq(
        vx - ex,
        vy - ey,
    ) <= r * r || norm_sq(vx, vy) <= r * r
}

/// The reach of the melee capsule along its own axis: a target centred
/// exactly `cast + r` ahead touches the capsule's far cap and counts as
/// hit; any target even one milli-unit further along the axis is missed.
pub proof fn lemma_melee_reach(a: Vec2, cast: int, r: int, eps: int)
    requires
        0 <= cast,
        0 <= r,
        1 <= eps,
        -1_000_000_000 <= a.x <= 1_000_000_000,
        -1_000_000_000 <= a.y,
        a.y + cast + r + eps <= 1_000_000_000,
    ensures
        capsule_hits(a, Vec2 { x: 0, y: 1000 }, cast, Vec2 { x: a.x, y: (a.y + cast + r) as i64 }, r),
        !capsule_hits(
            a,
            Vec2 { x: 0, y: 1000 },
            cast,
            Vec2 { x: a.x, y: (a.y + cast + r + eps) as i64 },
            r,
        ),
{
    lemma_div_multiples_vanish(cast, 1000);
    assert(1000 * cast == cast * 1000) by (nonlinear_arith);
    assert(div_t(cast * 1000, 1000) == cast);
    let vy1 = cast + r;
    let d1 = vy1 - cast;
    assert(d1 == r);
    assert(norm_sq(0, d1) == d1 * d1);
    assert(d1 * d1 == r * r);
    let vy2 = cast + r + eps;
    assert(vy2 * 1000 > cast * 1000);
    let d2 = vy2 - cast;
    assert(norm_sq(0, d2) == d2 * d2);
    assert(d2 * d2 > r * r) by (nonlinear_arith)
        requires
            d2 == r + eps,
            1 <= eps,
            0 <= r,
    ;
    assert(norm_sq(0, vy2) == vy2 * vy2);
    assert(vy2 * vy2 > r * r) by (nonlinear_arith)
        requires
            vy2 >= r + 1,
            0 <= r,
    ;
}

/// Decide the melee reach test, exactly as `capsule_hits` states it.
pub fn capsule_hit(a: Vec2, f: Vec2, cast: i64, t: Vec2, r: i64) -> (hit: bool)
    requires
        in_box(a, POS_LIMIT as int),
        in_box(t, POS_LIMIT as int),
        in_box(f, FACING_BOX as int),
        0 <= cast <= POS_LIMIT,
        0 <= r <= RADIUS_LIMIT,
    ensures
        hit == capsule_hits(a, f, cast as int, t, r as int),
{
    let vx: i64 = t.x - a.x;
    let vy: i64 = t.y - a.y;
    proof {
        lemma_mul_bound(vx as int, f.x as int, 2_000_000_000, 2000);
        lemma_mul_bound(vy as int, f.y as int, 2_000_000_000, 2000);
    }
    let c_raw: i64 = vx * f.x + vy * f.y;
    let c: i64 = div_tr_64(c_raw, 1000);
    proof {
        lemma_div_t_bound(c_raw as int, 1000, 8_000_000_000);
        lemma_mul_bound(f.x as int, c as int, 2000, 8_000_000_000);
        lemma_mul_bound(f.y as int, c as int, 2000, 8_000_000_000);
    }
    let px: i64 = div_tr_64(f.x * c, 1000);
    let py: i64 = div_tr_64(f.y * c, 1000);
    proof {
        lemma_div_t_bound((f.x * c) as int, 1000, 16_000_000_000);
        lemma_div_t_bound((f.y * c) as int, 1000, 16_000_000_000);
        lemma_mul_bound(f.x as int, cast as int, 2000, 1_000_000_000);
        lemma_mul_bound(f.y as int, cast as int, 2000, 1_000_000_000);
    }
    let ex: i64 = div_tr_64(f.x * cast, 1000);
    let ey: i64 = div_tr_64(f.y * cast, 1000);
    proof {
        lemma_div_t_bound((f.x * cast) as int, 1000, 2_000_000_000);
        lemma_div_t_bound((f.y * cast) as int, 1000, 2_000_000_000);
        lemma_mul_bound(r as int, r as int, 1_000_000, 1_000_000);
    }
    let r2: i128 = (r as i128) * (r as i128);
    let d_perp: i128 = dist_sq(Vec2 { x: vx, y: vy }, Vec2 { x: px, y: py });
    let d_end: i128 = dist_sq(Vec2 { x: vx, y: vy }, Vec2 { x: ex, y: ey });
    let d_origin: i128 = dist_sq(Vec2 { x: vx, y: vy }, Vec2 { x: 0, y: 0 });
    proof {
        lemma_mul_bound(cast as int, 1000, 1_000_000_000, 1000);
    }
    (0 <= c_raw && c_raw <= cast * 1000 && d_perp <= r2) || d_end <= r2 || d_origin <= r2
}

} // verus!
