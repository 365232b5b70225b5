//! Rescaling a direction to a given speed with integers only.
//!
//! A direction `(x, y)` is first multiplied by the speed `s`, so that its
//! length is at least `s` and the rounding below costs less than one unit per
//! axis. Each component of `(x, y) * s * s` is then divided by the ceiling of
//! the length of `(x, y) * s`, rounding toward zero. The result is never
//! longer than `s`, and a zero direction gives the zero vector.

use vstd::prelude::*;
use crate::geometry::Vector;

verus! {

/// Largest speed, in length units per second, that the library rescales to.
pub const SPEED_LIMIT: i64 = 0x800_0000;

/// Largest component of a direction handed to `scale_to_speed`.
pub const DIRECTION_LIMIT: i64 = 0x1000_0000;

/// Whether `r` is the ceiling of the square root of `n`.
pub open spec fn is_ceil_sqrt(n: int, r: int) -> bool {
    0 <= r && n <= r * r && (r == 0 || (r - 1) * (r - 1) < n)
}

/// The ceiling of the square root of `n`.
pub open spec fn ceil_sqrt(n: int) -> int {
    choose|r: int| is_ceil_sqrt(n, r)
}

/// `a / l`, rounded toward zero.
pub open spec fn div_toward_zero(a: int, l: int) -> int {
    if a >= 0 {
        a / l
    } else {
        -((-a) / l)
    }
}

/// The direction `(x, y)` rescaled to length `s`, as a pair of components;
/// zero when the direction or the speed is zero.
pub open spec fn scale_to(x: int, y: int, s: int) -> (int, int) {
    if s <= 0 || (x == 0 && y == 0) {
        (0, 0)
    } else {
        let l = ceil_sqrt((x * s) * (x * s) + (y * s) * (y * s));
        (div_toward_zero(x * s * s, l), div_toward_zero(y * s * s, l))
    }
}

pub open spec fn abs(a: int) -> int {
    if a < 0 {
        -a
    } else {
        a
    }
}

proof fn lemma_square_monotone(a: int, b: int)
    requires
        0 <= a <= b,
    ensures
        a * a <= b * b,
{
    assert(a * a <= b * b) by (nonlinear_arith)
        requires
            0 <= a <= b,
    ;
}

proof fn lemma_square_strict(a: int, b: int)
    requires
        0 <= a < b,
    ensures
        a * a < b * b,
{
    assert(a * a < b * b) by (nonlinear_arith)
        requires
            0 <= a < b,
    ;
}

/// The ceiling square root is unique where it exists.
proof fn lemma_ceil_sqrt_unique(n: int, r: int)
    requires
        is_ceil_sqrt(n, r),
    ensures
        ceil_sqrt(n) == r,
{
    let c = ceil_sqrt(n);
    assert(is_ceil_sqrt(n, c));
    if c < r {
        lemma_square_monotone(c, r - 1);
    } else if r < c {
        lemma_square_monotone(r, c - 1);
    }
}

/// Computes the ceiling of the square root of `n` by bisection.
pub fn ceil_sqrt_exec(n: u128) -> (r: u128)
    requires
        n <= 0x1_0000_0000_0000_0000_0000_0000_0000,
    ensures
        is_ceil_sqrt(n as int, r as int),
        r as int == ceil_sqrt(n as int),
        r <= 0x100_0000_0000_0000,
{
    if n == 0 {
        proof {
            lemma_ceil_sqrt_unique(0, 0);
        }
        return 0;
    }
    let mut lo: u128 = 0;
    let mut hi: u128 = 0x100_0000_0000_0000;
    while hi - lo > 1
        invariant
            lo < hi <= 0x100_0000_0000_0000,
            lo * lo < n,
            n <= hi * hi,
        decreases hi - lo,
    {
        let mid = lo + (hi - lo) / 2;
        assert(mid * mid <= 0x100_0000_0000_0000 * 0x100_0000_0000_0000) by (nonlinear_arith)
            requires
                mid <= 0x100_0000_0000_0000,
        ;
        if mid * mid >= n {
            hi = mid;
        } else {
            lo = mid;
        }
    }
    assert(is_ceil_sqrt(n as int, hi as int));
    proof {
        lemma_ceil_sqrt_unique(n as int, hi as int);
    }
    hi
}

/// The rescaled direction is never longer than `s`, and with one unit added
/// to each component's magnitude it is longer than `s - 1`.
pub proof fn lemma_scale_to_speed_bounds(x: int, y: int, s: int)
    requires
        s > 0,
        x != 0 || y != 0,
    ensures
        ({
            let (rx, ry) = scale_to(x, y, s);
            &&& rx * rx + ry * ry <= s * s
            &&& (abs(rx) + 1) * (abs(rx) + 1) + (abs(ry) + 1) * (abs(ry) + 1) > (s - 1) * (s - 1)
        }),
{
    let n = (x * s) * (x * s) + (y * s) * (y * s);
    let l = ceil_sqrt(n);
    let (rx, ry) = scale_to(x, y, s);
    assert(x * x + y * y >= 1) by (nonlinear_arith)
        requires
            x != 0 || y != 0,
    ;
    assert(n == s * s * (x * x + y * y)) by (nonlinear_arith)
        requires
            n == (x * s) * (x * s) + (y * s) * (y * s),
    ;
    assert(n >= s * s) by (nonlinear_arith)
        requires
            n == s * s * (x * x + y * y),
            x * x + y * y >= 1,
    ;
    lemma_ceil_sqrt_exists(n);
    assert(is_ceil_sqrt(n, l));
    if l < s {
        lemma_square_monotone(l, s - 1);
        lemma_square_strict(s - 1, s);
    }
    assert(l >= s);
    let a = abs(x) * s * s;
    let b = abs(y) * s * s;
    assert(a >= 0 && b >= 0) by (nonlinear_arith)
        requires
            a == abs(x) * s * s,
            b == abs(y) * s * s,
            s > 0,
    ;
    assert(abs(rx) == a / l && abs(ry) == b / l) by (nonlinear_arith)
        requires
            rx == div_toward_zero(x * s * s, l),
            ry == div_toward_zero(y * s * s, l),
            a == abs(x) * s * s,
            b == abs(y) * s * s,
            l > 0,
    ;
    assert(a * a + b * b == s * s * n) by (nonlinear_arith)
        requires
            a == abs(x) * s * s,
            b == abs(y) * s * s,
            n == (x * s) * (x * s) + (y * s) * (y * s),
    ;
    lemma_div_square(a, l);
    lemma_div_square(b, l);
    let p = abs(rx);
    let q = abs(ry);
    assert(rx * rx == p * p) by {
        if rx < 0 {
            assert(rx * rx == (-rx) * (-rx)) by (nonlinear_arith);
        }
    }
    assert(ry * ry == q * q) by {
        if ry < 0 {
            assert(ry * ry == (-ry) * (-ry)) by (nonlinear_arith);
        }
    }
    // Upper bound: (p^2 + q^2) l^2 <= a^2 + b^2 = s^2 n <= s^2 l^2.
    assert(p * p + q * q <= s * s) by (nonlinear_arith)
        requires
            p * p * (l * l) <= a * a,
            q * q * (l * l) <= b * b,
            a * a + b * b == s * s * n,
            n <= l * l,
            l > 0,
    ;
    // Lower bound: with t = (p+1)^2 + (q+1)^2, t l^2 > s^2 n > s^2 (l-1)^2 >= (s-1)^2 l^2.
    let t = (p + 1) * (p + 1) + (q + 1) * (q + 1);
    assert(t * (l * l) > s * s * ((l - 1) * (l - 1))) by (nonlinear_arith)
        requires
            (p + 1) * (p + 1) * (l * l) > a * a,
            (q + 1) * (q + 1) * (l * l) > b * b,
            a * a + b * b == s * s * n,
            (l - 1) * (l - 1) < n,
            s > 0,
            t == (p + 1) * (p + 1) + (q + 1) * (q + 1),
    ;
    assert((s - 1) * (s - 1) * (l * l) <= s * s * ((l - 1) * (l - 1))) by (nonlinear_arith)
        requires
            l >= s,
            s > 0,
    ;
    assert(t > (s - 1) * (s - 1)) by (nonlinear_arith)
        requires
            t * (l * l) > s * s * ((l - 1) * (l - 1)),
            (s - 1) * (s - 1) * (l * l) <= s * s * ((l - 1) * (l - 1)),
            l > 0,
    ;
}

/// For `0 <= a` and `l > 0`: `(a / l)^2 l^2 <= a^2 < (a / l + 1)^2 l^2`.
proof fn lemma_div_square(a: int, l: int)
    requires
        a >= 0,
        l > 0,
    ensures
        (a / l) * (a / l) * (l * l) <= a * a,
        (a / l + 1) * (a / l + 1) * (l * l) > a * a,
{
    let d = a / l;
    assert(d * l <= a && a < (d + 1) * l && d >= 0) by (nonlinear_arith)
        requires
            a >= 0,
            l > 0,
            d == a / l,
    ;
    assert(d * d * (l * l) <= a * a) by (nonlinear_arith)
        requires
            0 <= d * l <= a,
    ;
    assert((d + 1) * (d + 1) * (l * l) > a * a) by (nonlinear_arith)
        requires
            0 <= a < (d + 1) * l,
    ;
}

/// Every nonnegative integer has a ceiling square root.
proof fn lemma_ceil_sqrt_exists(n: int)
    requires
        n >= 0,
    ensures
        is_ceil_sqrt(n, ceil_sqrt(n)),
    decreases n,
{
    if n == 0 {
        assert(is_ceil_sqrt(0, 0));
    } else {
        lemma_ceil_sqrt_exists(n - 1);
        let r = ceil_sqrt(n - 1);
        if n <= r * r {
            assert(is_ceil_sqrt(n, r));
        } else {
            assert(r * r < n);
            assert(n <= (r + 1) * (r + 1)) by (nonlinear_arith)
                requires
                    n - 1 <= r * r,
                    r >= 0,
            ;
            assert(is_ceil_sqrt(n, r + 1));
        }
    }
}

/// A nonzero component keeps its sign, and stays nonzero, when a direction no
/// longer than `s` is rescaled to `s`.
pub proof fn lemma_scale_to_keeps_sign(x: int, y: int, s: int)
    requires
        s > 0,
        x != 0,
        x * x + y * y <= s * s,
    ensures
        x > 0 ==> scale_to(x, y, s).0 >= 1,
        x < 0 ==> scale_to(x, y, s).0 <= -1,
{
    let n = (x * s) * (x * s) + (y * s) * (y * s);
    let l = ceil_sqrt(n);
    assert(n >= 0) by (nonlinear_arith)
        requires
            n == (x * s) * (x * s) + (y * s) * (y * s),
    ;
    lemma_ceil_sqrt_exists(n);
    assert(n <= (s * s) * (s * s)) by (nonlinear_arith)
        requires
            n == (x * s) * (x * s) + (y * s) * (y * s),
            x * x + y * y <= s * s,
            s > 0,
    ;
    assert(l <= s * s) by {
        if l > s * s {
            lemma_square_monotone(s * s, l - 1);
        }
    }
    assert(l >= 1) by {
        assert((x * s) * (x * s) > 0) by (nonlinear_arith)
            requires
                x != 0,
                s > 0,
        ;
        assert((y * s) * (y * s) >= 0) by (nonlinear_arith);
        if l == 0 {
            assert(l * l == 0) by (nonlinear_arith)
                requires
                    l == 0,
            ;
        }
    }
    let a = abs(x) * s * s;
    assert(a >= l) by (nonlinear_arith)
        requires
            a == abs(x) * s * s,
            abs(x) >= 1,
            l <= s * s,
    ;
    assert(a / l >= 1) by (nonlinear_arith)
        requires
            a >= l,
            l >= 1,
    ;
    if x > 0 {
        assert(x * s * s == a);
    } else {
        assert(-(x * s * s) == a) by (nonlinear_arith)
            requires
                a == abs(x) * s * s,
                x < 0,
        ;
    }
}

/// `a / l` rounded toward zero.
fn div_toward_zero_exec(a: i128, l: u128) -> (r: i128)
    requires
        l > 0,
        -0x1_0000_0000_0000_0000_0000_0000 <= a <= 0x1_0000_0000_0000_0000_0000_0000,
    ensures
        r == div_toward_zero(a as int, l as int),
{
    if a >= 0 {
        ((a as u128) / l) as i128
    } else {
        -(((-a) as u128 / l) as i128)
    }
}

/// Rescales the direction `v` to length `s`: the normalised direction times
/// `s`, or zero when `v` is zero.
pub fn scale_to_speed(v: Vector, s: i64) -> (r: Vector)
    requires
        -DIRECTION_LIMIT <= v.x <= DIRECTION_LIMIT,
        -DIRECTION_LIMIT <= v.y <= DIRECTION_LIMIT,
        0 <= s <= SPEED_LIMIT,
    ensures
        (r.x as int, r.y as int) == scale_to(v.x as int, v.y as int, s as int),
        r.x * r.x + r.y * r.y <= s * s,
{
    if s == 0 || (v.x == 0 && v.y == 0) {
        let r = Vector { x: 0, y: 0 };
        assert(r.x * r.x + r.y * r.y <= s * s) by (nonlinear_arith)
            requires
                r.x == 0,
                r.y == 0,
        ;
        return r;
    }
    let ghost (gx, gy) = scale_to(v.x as int, v.y as int, s as int);
    proof {
        lemma_scale_to_speed_bounds(v.x as int, v.y as int, s as int);
        assert(-s <= gx <= s && -s <= gy <= s) by (nonlinear_arith)
            requires
                gx * gx + gy * gy <= s * s,
                s > 0,
        ;
    }
    assert(-0x80_0000_0000_0000 <= v.x * s <= 0x80_0000_0000_0000 && -0x80_0000_0000_0000 <= v.y
        * s <= 0x80_0000_0000_0000) by (nonlinear_arith)
        requires
            -DIRECTION_LIMIT <= v.x <= DIRECTION_LIMIT,
            -DIRECTION_LIMIT <= v.y <= DIRECTION_LIMIT,
            0 <= s <= SPEED_LIMIT,
    ;
    let wx: i128 = v.x as i128 * s as i128;
    let wy: i128 = v.y as i128 * s as i128;
    assert(wx * wx <= 0x4000_0000_0000_0000_0000_0000_0000 && wy * wy
        <= 0x4000_0000_0000_0000_0000_0000_0000) by (nonlinear_arith)
        requires
            wx == v.x * s,
            wy == v.y * s,
            -DIRECTION_LIMIT <= v.x <= DIRECTION_LIMIT,
            -DIRECTION_LIMIT <= v.y <= DIRECTION_LIMIT,
            0 <= s <= SPEED_LIMIT,
    ;
    assert(0 <= wx * wx && 0 <= wy * wy) by (nonlinear_arith);
    let n: u128 = (wx * wx + wy * wy) as u128;
    let l = ceil_sqrt_exec(n);
    assert(l > 0) by {
        assert(wx * wx + wy * wy > 0) by (nonlinear_arith)
            requires
                wx == v.x * s,
                wy == v.y * s,
                v.x != 0 || v.y != 0,
                s > 0,
        ;
    }
    assert(-0x1_0000_0000_0000_0000_0000_0000 <= wx * s <= 0x1_0000_0000_0000_0000_0000_0000
        && -0x1_0000_0000_0000_0000_0000_0000 <= wy * s <= 0x1_0000_0000_0000_0000_0000_0000)
        by (nonlinear_arith)
        requires
            wx == v.x * s,
            wy == v.y * s,
            -DIRECTION_LIMIT <= v.x <= DIRECTION_LIMIT,
            -DIRECTION_LIMIT <= v.y <= DIRECTION_LIMIT,
            0 <= s <= SPEED_LIMIT,
    ;
    let rx = div_toward_zero_exec(wx * s as i128, l);
    let ry = div_toward_zero_exec(wy * s as i128, l);
    assert(wx * s == v.x * s * s && wy * s == v.y * s * s) by (nonlinear_arith)
        requires
            wx == v.x * s,
            wy == v.y * s,
    ;
    assert(rx == gx && ry == gy);
    Vector { x: rx as i64, y: ry as i64 }
}

/// A rescaled direction is never longer than `s`.
pub proof fn lemma_scale_to_short(x: int, y: int, s: int)
    requires
        s >= 0,
    ensures
        scale_to(x, y, s).0 * scale_to(x, y, s).0 + scale_to(x, y, s).1 * scale_to(x, y, s).1 <= s
            * s,
{
    if s > 0 && (x != 0 || y != 0) {
        lemma_scale_to_speed_bounds(x, y, s);
    } else {
        assert(0 * 0 + 0 * 0 <= s * s) by (nonlinear_arith)
            requires
                s >= 0,
        ;
    }
}

/// Each component of a vector no longer than `s` lies between `-s` and `s`.
pub proof fn lemma_component_bounds(x: int, y: int, s: int)
    requires
        s >= 0,
        x * x + y * y <= s * s,
    ensures
        -s <= x <= s,
        -s <= y <= s,
{
    assert(-s <= x <= s && -s <= y <= s) by (nonlinear_arith)
        requires
            s >= 0,
            x * x + y * y <= s * s,
    ;
}

/// Rescaling keeps a nonnegative second component nonnegative.
pub proof fn lemma_scale_to_keeps_y_nonnegative(x: int, y: int, s: int)
    requires
        s >= 0,
        y >= 0,
    ensures
        scale_to(x, y, s).1 >= 0,
{
    if s > 0 && (x != 0 || y != 0) {
        let n = (x * s) * (x * s) + (y * s) * (y * s);
        assert(n > 0) by (nonlinear_arith)
            requires
                n == (x * s) * (x * s) + (y * s) * (y * s),
                s > 0,
                x != 0 || y != 0,
        ;
        lemma_ceil_sqrt_exists(n);
        let l = ceil_sqrt(n);
        if l == 0 {
            assert(l * l == 0) by (nonlinear_arith)
                requires
                    l == 0,
            ;
        }
        assert(y * s * s >= 0) by (nonlinear_arith)
            requires
                y >= 0,
                s > 0,
        ;
        assert((y * s * s) / l >= 0) by (nonlinear_arith)
            requires
                y * s * s >= 0,
                l > 0,
        ;
    }
}

/// Rescaling keeps a zero second component at zero.
pub proof fn lemma_scale_to_zero_component(x: int, y: int, s: int)
    requires
        y == 0,
    ensures
        scale_to(x, y, s).1 == 0,
{
    if s > 0 && x != 0 {
        let n = (x * s) * (x * s) + (y * s) * (y * s);
        assert(n > 0) by (nonlinear_arith)
            requires
                n == (x * s) * (x * s) + (y * s) * (y * s),
                s > 0,
                x != 0,
        ;
        lemma_ceil_sqrt_exists(n);
        let l = ceil_sqrt(n);
        if l == 0 {
            assert(l * l == 0) by (nonlinear_arith)
                requires
                    l == 0,
            ;
        }
        assert(y * s * s == 0) by (nonlinear_arith)
            requires
                y == 0,
        ;
        assert(0int / l == 0) by (nonlinear_arith)
            requires
                l > 0,
        ;
    }
}

/// From a speed of 4000 units on, a nonzero direction rescaled to `s` has a
/// speed within a thousandth of `s`.
pub proof fn lemma_scale_to_near_speed(x: int, y: int, s: int)
    requires
        s >= 4000,
        x != 0 || y != 0,
    ensures
        1_000_000 * (scale_to(x, y, s).0 * scale_to(x, y, s).0 + scale_to(x, y, s).1 * scale_to(
            x,
            y,
            s,
        ).1) >= 998_001 * (s * s),
{
    lemma_scale_to_speed_bounds(x, y, s);
    let (fx, fy) = scale_to(x, y, s);
    lemma_component_bounds(fx, fy, s);
    let p = abs(fx);
    let q = abs(fy);
    assert(fx * fx == p * p && fy * fy == q * q) by {
        if fx < 0 {
            assert(fx * fx == (-fx) * (-fx)) by (nonlinear_arith);
        }
        if fy < 0 {
            assert(fy * fy == (-fy) * (-fy)) by (nonlinear_arith);
        }
    }
    assert(p * p + q * q > s * s - 6 * s - 1) by (nonlinear_arith)
        requires
            0 <= p <= s,
            0 <= q <= s,
            (p + 1) * (p + 1) + (q + 1) * (q + 1) > (s - 1) * (s - 1),
    ;
    assert(1999 * (s * s) >= 7_996_000 * s) by (nonlinear_arith)
        requires
            s >= 4000,
    ;
    assert(1_000_000 * (p * p + q * q) >= 998_001 * (s * s)) by (nonlinear_arith)
        requires
            p * p + q * q > s * s - 6 * s - 1,
            1999 * (s * s) >= 7_996_000 * s,
            s >= 4000,
    ;
}

} // verus!
