use vstd::arithmetic::div_mod::lemma_fundamental_div_mod;
use vstd::prelude::*;

verus! {

/// Thousandths of a world unit in one world unit (one window pixel).
pub const UNIT: i64 = 1000;

/// Fixed-point scale of a unit direction vector: a direction component of
/// `DIR_SCALE` stands for 1.
pub const DIR_SCALE: i64 = 1000;

/// Largest magnitude of a coordinate that the simulation handles.
pub const COORD_LIMIT: i64 = 1_000_000_000_000_000;

/// A point or a vector in world space, in thousandths of a unit.
#[derive(Clone, Copy, Debug, PartialEq, Eq, Structural)]
pub struct Vec2i {
    pub x: i64,
    pub y: i64,
}

pub open spec fn abs(v: int) -> int {
    if v < 0 { -v } else { v }
}

/// Integer division rounding toward zero, for a positive divisor.
pub open spec fn div_trunc(a: int, b: int) -> int {
    if a >= 0 { a / b } else { -((-a) / b) }
}

/// Integer square root: the largest `r` with `r * r <= n`.
pub open spec fn root(n: nat) -> nat
    decreases n,
{
    if n == 0 {
        0
    } else {
        let r = root((n - 1) as nat);
        if (r + 1) * (r + 1) <= n { r + 1 } else { r }
    }
}

/// Squared Euclidean length of a vector.
pub open spec fn norm_sq(v: Vec2i) -> nat {
    (v.x * v.x + v.y * v.y) as nat
}

/// The smallest `c` with `n <= c * c`.
pub open spec fn ceil_root(n: nat) -> nat {
    if root(n) * root(n) == n { root(n) } else { root(n) + 1 }
}

/// The Euclidean length of `v` times `DIR_SCALE`, rounded up.
pub open spec fn scaled_length(v: Vec2i) -> nat {
    ceil_root(norm_sq(v) * (DIR_SCALE * DIR_SCALE) as nat)
}

/// The direction of `v` in fixed point with scale `DIR_SCALE`: each
/// component of `v` times `DIR_SCALE * DIR_SCALE`, divided by the scaled
/// length of `v`, rounded toward zero. For every nonzero `v` its squared
/// length lies between `(DIR_SCALE - 2)^2` and `DIR_SCALE^2` (see
/// `normalize`).
pub open spec fn direction_of(v: Vec2i) -> Vec2i {
    Vec2i {
        x: div_trunc(v.x * (DIR_SCALE * DIR_SCALE), scaled_length(v) as int) as i64,
        y: div_trunc(v.y * (DIR_SCALE * DIR_SCALE), scaled_length(v) as int) as i64,
    }
}

/// A fixed-point vector of unit length up to rounding.
pub open spec fn is_unit(d: Vec2i) -> bool {
    (DIR_SCALE - 2) * (DIR_SCALE - 2) <= d.x * d.x + d.y * d.y <= DIR_SCALE * DIR_SCALE
}

pub open spec fn is_root(n: nat, r: nat) -> bool {
    r * r <= n && n < (r + 1) * (r + 1)
}

/// `root(n)` brackets `n` between consecutive squares.
pub proof fn lemma_root_brackets(n: nat)
    ensures
        is_root(n, root(n)),
    decreases n,
{
    if n == 0 {
        assert(0nat * 0nat == 0nat && 1nat * 1nat == 1nat) by (nonlinear_arith);
        assert(root(0) == 0);
    } else {
        lemma_root_brackets((n - 1) as nat);
        let r = root((n - 1) as nat);
        assert(r * r <= n - 1 && n - 1 < (r + 1) * (r + 1));
        if (r + 1) * (r + 1) <= n {
            assert(root(n) == r + 1);
            assert(n < (r + 1 + 1) * (r + 1 + 1)) by (nonlinear_arith)
                requires
                    n - 1 < (r + 1) * (r + 1),
                    r >= 0,
            ;
        } else {
            assert(root(n) == r);
        }
    }
}

/// Only one number brackets `n` between consecutive squares.
pub proof fn lemma_root_unique(n: nat, r: nat)
    requires
        is_root(n, r),
    ensures
        r == root(n),
{
    lemma_root_brackets(n);
    let s = root(n);
    if r < s {
        assert((r + 1) * (r + 1) <= s * s) by (nonlinear_arith)
            requires
                r + 1 <= s,
                r >= 0,
        ;
    } else if s < r {
        assert((s + 1) * (s + 1) <= r * r) by (nonlinear_arith)
            requires
                s + 1 <= r,
                s >= 0,
        ;
    }
}

/// `ceil_root(n)` is the least number whose square reaches `n`.
pub proof fn lemma_ceil_root(n: nat)
    requires
        n >= 1,
    ensures
        ceil_root(n) >= 1,
        (ceil_root(n) - 1) * (ceil_root(n) - 1) < n <= ceil_root(n) * ceil_root(n),
{
    lemma_root_brackets(n);
    let r = root(n);
    if r * r == n {
        assert(r >= 1) by (nonlinear_arith)
            requires
                r * r == n,
                n >= 1,
        ;
        assert((r - 1) * (r - 1) < r * r) by (nonlinear_arith)
            requires
                r >= 1,
        ;
    }
}

/// Squares grow with the number squared.
proof fn lemma_sq_mono(x: int, y: int)
    by (nonlinear_arith)
    requires
        0 <= x <= y,
    ensures
        x * x <= y * y,
{
}

/// The fixed-point direction of a nonzero vector has unit length up to
/// rounding. Here `a`, `b` are the sizes of the vector's components, `l`
/// its scaled length rounded up, and `rx`, `ry` the sizes of the result's
/// components, each `DIR_SCALE^2` times a component divided by `l`,
/// rounded down.
proof fn lemma_unit_bounds(a: int, b: int, rx: int, ry: int, l: int)
    requires
        a >= 0,
        b >= 0,
        rx >= 0,
        ry >= 0,
        l >= 1,
        a * a + b * b >= 1,
        l * rx <= 1_000_000 * a < l * (rx + 1),
        l * ry <= 1_000_000 * b < l * (ry + 1),
        (l - 1) * (l - 1) < 1_000_000 * (a * a + b * b) <= l * l,
    ensures
        998 * 998 <= rx * rx + ry * ry <= 1_000_000,
{
    let n = a * a + b * b;
    lemma_sq_mono(l * rx, 1_000_000 * a);
    lemma_sq_mono(l * ry, 1_000_000 * b);
    assert((l * rx) * (l * rx) == (l * l) * (rx * rx) && (l * ry) * (l * ry) == (l * l) * (ry * ry))
        by (nonlinear_arith);
    assert((1_000_000 * a) * (1_000_000 * a) + (1_000_000 * b) * (1_000_000 * b) == 1_000_000 * (
    1_000_000 * n)) by (nonlinear_arith)
        requires
            n == a * a + b * b,
    ;
    assert((l * l) * (rx * rx + ry * ry) <= (l * l) * 1_000_000) by (nonlinear_arith)
        requires
            (l * l) * (rx * rx) + (l * l) * (ry * ry) <= 1_000_000 * (1_000_000 * n),
            1_000_000 * n <= l * l,
    ;
    assert(rx * rx + ry * ry <= 1_000_000) by (nonlinear_arith)
        requires
            (l * l) * (rx * rx + ry * ry) <= (l * l) * 1_000_000,
            l >= 1,
    ;
    let t = rx * rx + ry * ry;
    if t < 998 * 998 {
        let sm = rx + ry;
        assert(sm * sm <= 2 * t) by (nonlinear_arith)
            requires
                sm == rx + ry,
                t == rx * rx + ry * ry,
        ;
        if sm >= 1412 {
            lemma_sq_mono(1412, sm);
        }
        assert((rx + 1) * (rx + 1) + (ry + 1) * (ry + 1) <= 998827) by (nonlinear_arith)
            requires
                t == rx * rx + ry * ry,
                t < 996004,
                rx + ry <= 1411,
        ;
        lemma_sq_mono(1_000_000 * a, l * (rx + 1));
        lemma_sq_mono(1_000_000 * b, l * (ry + 1));
        assert(1_000_000 * (l - 1) * (l - 1) < 998827 * (l * l)) by (nonlinear_arith)
            requires
                (1_000_000 * a) * (1_000_000 * a) <= (l * (rx + 1)) * (l * (rx + 1)),
                (1_000_000 * b) * (1_000_000 * b) <= (l * (ry + 1)) * (l * (ry + 1)),
                (1_000_000 * a) * (1_000_000 * a) + (1_000_000 * b) * (1_000_000 * b) == 1_000_000
                    * (1_000_000 * n),
                (l - 1) * (l - 1) < 1_000_000 * n,
                (rx + 1) * (rx + 1) + (ry + 1) * (ry + 1) <= 998827,
                l >= 1,
        ;
        if l >= 1706 {
            assert(1_000_000 * (l - 1) * (l - 1) >= 998827 * (l * l)) by (nonlinear_arith)
                requires
                    l >= 1706,
            ;
        }
        lemma_sq_mono(l, 1705);
        if a >= 2 {
            lemma_sq_mono(2, a);
            assert(b * b >= 0) by (nonlinear_arith);
        }
        if b >= 2 {
            lemma_sq_mono(2, b);
            assert(a * a >= 0) by (nonlinear_arith);
        }
        assert(a <= 1 && b <= 1);
        if l <= 999 {
            lemma_sq_mono(l, 999);
        }
        if a == 1 && b == 1 {
            if l <= 1414 {
                lemma_sq_mono(l, 1414);
            }
            if l >= 1416 {
                lemma_sq_mono(1415, l - 1);
            }
            assert(l == 1415);
            assert(rx == 706 && ry == 706);
        } else {
            if l >= 1001 {
                lemma_sq_mono(1000, l - 1);
            }
            assert(l == 1000);
            assert(rx == 1000 || ry == 1000);
        }
    }
}

/// Integer square root by bisection.
pub fn isqrt(n: u128) -> (r: u64)
    ensures
        r as nat == root(n as nat),
{
    let mut lo: u128 = 0;
    let mut hi: u128 = 0x1_0000_0000_0000_0000;
    assert(n < hi * hi) by (nonlinear_arith)
        requires
            hi == 0x1_0000_0000_0000_0000u128,
            n < 0x1_0000_0000_0000_0000_0000_0000_0000_0000int,
    ;
    while hi - lo > 1
        invariant
            lo < hi <= 0x1_0000_0000_0000_0000u128,
            lo * lo <= n,
            n < hi * hi,
        decreases hi - lo,
    {
        let mid: u128 = lo + (hi - lo) / 2;
        assert(mid * mid < 0x1_0000_0000_0000_0000_0000_0000_0000_0000int) by (nonlinear_arith)
            requires
                mid < 0x1_0000_0000_0000_0000int,
        ;
        if mid * mid <= n {
            lo = mid;
        } else {
            hi = mid;
        }
    }
    proof {
        lemma_root_unique(n as nat, lo as nat);
    }
    lo as u64
}

/// The range of a difference between two points of the world, or between
/// a point of the world and the cursor.
pub open spec fn in_diff_range(v: Vec2i) -> bool {
    abs(v.x as int) <= 4 * COORD_LIMIT && abs(v.y as int) <= 4 * COORD_LIMIT
}

/// Scales a nonzero vector to unit length in fixed point.
pub fn normalize(v: Vec2i) -> (r: Vec2i)
    requires
        v != (Vec2i { x: 0, y: 0 }),
        in_diff_range(v),
    ensures
        r == direction_of(v),
        is_unit(r),
        abs(r.x as int) <= DIR_SCALE,
        abs(r.y as int) <= DIR_SCALE,
{
    let (ax, ay) = (v.x as i128, v.y as i128);
    assert(ax * ax >= 0 && ay * ay >= 0 && ax * ax <= 16 * COORD_LIMIT * COORD_LIMIT && ay * ay
        <= 16 * COORD_LIMIT * COORD_LIMIT) by (nonlinear_arith)
        requires
            abs(ax as int) <= 4 * COORD_LIMIT,
            abs(ay as int) <= 4 * COORD_LIMIT,
            abs(ax as int) == ax || abs(ax as int) == -ax,
            abs(ay as int) == ay || abs(ay as int) == -ay,
    ;
    let xx: i128 = ax * ax;
    let yy: i128 = ay * ay;
    let sum: u128 = (xx + yy) as u128;
    assert(sum * 1_000_000 <= 0xffff_ffff_ffff_ffff_ffff_ffff_ffff_ffffu128) by (nonlinear_arith)
        requires
            sum <= 32 * COORD_LIMIT * COORD_LIMIT,
    ;
    let n: u128 = sum * 1_000_000;
    let root: u64 = isqrt(n);
    assert((root as u128) * (root as u128) <= 0xffff_ffff_ffff_ffff_ffff_ffff_ffff_ffffu128) by (
    nonlinear_arith)
        requires
            root <= 0xffff_ffff_ffff_ffffu64,
    ;
    let l: u128 = if root as u128 * root as u128 == n { root as u128 } else { root as u128 + 1 };
    proof {
        assert(n >= 1_000_000) by (nonlinear_arith)
            requires
                xx == v.x * v.x,
                yy == v.y * v.y,
                v.x != 0 || v.y != 0,
                n == (xx + yy) * 1_000_000,
        ;
        assert(sum == xx + yy);
        assert(l == ceil_root(n as nat));
        lemma_ceil_root(n as nat);
        assert(norm_sq(v) * (DIR_SCALE * DIR_SCALE) as nat == n);
    }
    let x = scale_div(v.x, l);
    let y = scale_div(v.y, l);
    let r = Vec2i { x, y };
    proof {
        let (mx, my) = (abs(v.x as int), abs(v.y as int));
        assert(mx * mx == v.x * v.x && my * my == v.y * v.y) by (nonlinear_arith)
            requires
                mx == v.x || mx == -v.x,
                my == v.y || my == -v.y,
        ;
        lemma_unit_bounds(mx, my, abs(x as int), abs(y as int), l as int);
        assert(abs(x as int) * abs(x as int) == x * x && abs(y as int) * abs(y as int) == y * y)
            by (nonlinear_arith)
            requires
                abs(x as int) == x || abs(x as int) == -x,
                abs(y as int) == y || abs(y as int) == -y,
        ;
        if abs(x as int) > 1000 {
            lemma_sq_mono(1001, abs(x as int));
            assert(abs(y as int) * abs(y as int) >= 0) by (nonlinear_arith);
        }
        if abs(y as int) > 1000 {
            lemma_sq_mono(1001, abs(y as int));
            assert(abs(x as int) * abs(x as int) >= 0) by (nonlinear_arith);
        }
    }
    r
}

/// `c * DIR_SCALE^2 / l`, rounded toward zero, together with the bracket
/// that the rounding leaves on its size.
fn scale_div(c: i64, l: u128) -> (r: i64)
    requires
        l >= 1,
        abs(c as int) <= 4 * COORD_LIMIT,
        l * l >= 1_000_000 * (c * c),
    ensures
        r == div_trunc(c * (DIR_SCALE * DIR_SCALE), l as int),
        l * abs(r as int) <= 1_000_000 * abs(c as int) < l * (abs(r as int) + 1),
{
    let m: u128 = if c >= 0 { c as u128 } else { (-(c as i128)) as u128 };
    let big: u128 = m * 1_000_000;
    let q: u128 = big / l;
    proof {
        lemma_fundamental_div_mod(big as int, l as int);
        let rem = (big as int) % (l as int);
        assert(q == (big as int) / (l as int));
        assert(l * q <= big < l * (q + 1)) by (nonlinear_arith)
            requires
                big == l * q + rem,
                0 <= rem < l,
        ;
        // the quotient is at most 1000: q * q * l * l <= big * big <= 10^6 * l * l
        lemma_sq_mono(l * q, big as int);
        assert(m * m == c * c) by (nonlinear_arith)
            requires
                m == c || m == -c,
        ;
        assert(q <= 1000) by (nonlinear_arith)
            requires
                (l * q) * (l * q) <= big * big,
                big == m * 1_000_000,
                l * l >= 1_000_000 * (m * m),
                l >= 1,
                q >= 0,
        ;
    }
    proof {
        assert(c * (DIR_SCALE * DIR_SCALE) == c * 1_000_000);
        if c >= 0 {
            assert(big == c * 1_000_000);
        } else {
            assert(big == (-c) * 1_000_000);
            assert(-(c * 1_000_000) == (-c) * 1_000_000);
        }
    }
    if c >= 0 {
        q as i64
    } else {
        -(q as i64)
    }
}

} // verus!
