use vstd::arithmetic::div_mod::{lemma_div_pos_is_pos, lemma_fundamental_div_mod, lemma_mod_bound};
use vstd::prelude::*;

verus! {

/// Fixed-point steps in one playfield unit (one pixel).
pub const UNIT: i64 = 1000000;

/// Angle steps in one full turn. Angles are whole steps in `0..TURN`,
/// measured clockwise from north.
pub const TURN: u32 = 2520;

pub const HALF_TURN: u32 = 1260;

pub const QUARTER_TURN: u32 = 630;

/// The value that sine and cosine take for a unit result.
pub const TRIG_ONE: i64 = 1000000;

/// Largest magnitude of a position or velocity coordinate.
pub const LIMIT: i64 = 0x100_0000_0000;

/// A point or displacement in fixed-point playfield coordinates.
#[derive(Clone, Copy, Debug, PartialEq, Eq)]
pub struct Vec2 {
    pub x: i64,
    pub y: i64,
}

/// Both coordinates of `v` lie within `[-lim, lim]`.
pub open spec fn within(v: Vec2, lim: int) -> bool {
    -lim <= v.x <= lim && -lim <= v.y <= lim
}

/// An eighth of a turn, in angle steps.
pub const EIGHTH_TURN: u32 = 315;

/// Internal fixed-point scale of the sine series.
pub const SERIES_ONE: u128 = 1000000000000;

/// Pi scaled by `SERIES_ONE`, rounded.
pub const PI_SCALED: u128 = 3141592653590;

/// Sine of `r` steps, `r` in `[0, EIGHTH_TURN]`, scaled by `TRIG_ONE`: the
/// Taylor series of sine up to the ninth power, in Horner form, evaluated
/// with `SERIES_ONE` fixed point and rounded down at each step. On this
/// range it lies within a few millionths of the true sine.
pub open spec fn series_sine(r: int) -> int {
    let one = SERIES_ONE as int;
    let x = r * PI_SCALED / (HALF_TURN as int);
    let x2 = x * x / one;
    let h4 = one - x2 / 72;
    let h3 = one - x2 * h4 / (42 * one);
    let h2 = one - x2 * h3 / (20 * one);
    let h1 = one - x2 * h2 / (6 * one);
    (x * h1 / one) / 1000000
}

/// `r` is the integer square root of `n`.
pub open spec fn is_root(n: int, r: int) -> bool {
    0 <= r && r * r <= n < (r + 1) * (r + 1)
}

/// The integer square root of `n >= 0`.
pub open spec fn root(n: int) -> int {
    choose|r: int| #[trigger] is_root(n, r)
}

/// Sine and cosine of `r` steps, `r` in `[0, QUARTER_TURN)`, scaled by
/// `TRIG_ONE`. The one of the two that is at most `sqrt(1/2)` comes from the
/// series; the other is the integer square root of what is left of
/// `TRIG_ONE^2`, so that their squares sum to nearly `TRIG_ONE^2`.
pub open spec fn quadrant_trig(r: int) -> (int, int) {
    let t2 = TRIG_ONE * TRIG_ONE;
    if r <= EIGHTH_TURN {
        let s = series_sine(r);
        (s, root(t2 - s * s))
    } else {
        let c = series_sine(QUARTER_TURN - r);
        (root(t2 - c * c), c)
    }
}

/// Sine and cosine of angle `a` (steps in `0..TURN`), scaled by `TRIG_ONE`:
/// those of `a` within its quarter turn, moved to its quadrant.
pub open spec fn trig(a: int) -> (int, int) {
    let q = a / (QUARTER_TURN as int);
    let p = quadrant_trig(a % (QUARTER_TURN as int));
    if q == 0 {
        p
    } else if q == 1 {
        (p.1, -p.0)
    } else if q == 2 {
        (-p.0, -p.1)
    } else {
        (-p.1, p.0)
    }
}

/// Sine of angle `a` as `trig` computes it, scaled by `TRIG_ONE`: within a
/// few millionths of the true sine, with `sine^2 + cosine^2` proved within
/// `2 * TRIG_ONE` of `TRIG_ONE^2` (`lemma_trig_bounds`).
pub open spec fn sine(a: int) -> int {
    trig(a).0
}

/// Cosine of angle `a` as `trig` computes it, scaled by `TRIG_ONE`.
pub open spec fn cosine(a: int) -> int {
    trig(a).1
}

/// First coordinate of `v` turned by angle `a`, rounded down.
pub open spec fn turned_x(v: Vec2, a: int) -> int {
    (v.x * cosine(a) + v.y * sine(a)) / (TRIG_ONE as int)
}

/// Second coordinate of `v` turned by angle `a`, rounded down.
pub open spec fn turned_y(v: Vec2, a: int) -> int {
    (v.y * cosine(a) - v.x * sine(a)) / (TRIG_ONE as int)
}

/// `v` turned by angle `a`.
pub open spec fn turned(v: Vec2, a: int) -> Vec2 {
    Vec2 { x: turned_x(v, a) as i64, y: turned_y(v, a) as i64 }
}

/// Bounds on a floored quotient.
pub proof fn lemma_div_within(x: int, d: int, k: int)
    requires
        d > 0,
        k >= 0,
        -(d * k) <= x <= d * k,
    ensures
        -k <= x / d <= k,
{
    lemma_fundamental_div_mod(x, d);
    lemma_mod_bound(x, d);
    let q = x / d;
    let r = x % d;
    assert(-k <= q <= k) by (nonlinear_arith)
        requires
            x == d * q + r,
            0 <= r < d,
            d > 0,
            -(d * k) <= x <= d * k,
    ;
}

proof fn lemma_root_exists(n: nat)
    ensures
        exists|r: int| #[trigger] is_root(n as int, r),
    decreases n,
{
    if n == 0 {
        assert(is_root(0, 0));
    } else {
        lemma_root_exists((n - 1) as nat);
        let r = choose|r: int| #[trigger] is_root((n - 1) as int, r);
        if (r + 1) * (r + 1) <= n {
            assert(n < (r + 2) * (r + 2)) by (nonlinear_arith)
                requires
                    n - 1 < (r + 1) * (r + 1),
                    r >= 0,
            ;
            assert(is_root(n as int, r + 1));
        } else {
            assert(is_root(n as int, r));
        }
    }
}

proof fn lemma_root_unique(n: int, a: int, b: int)
    requires
        is_root(n, a),
        is_root(n, b),
    ensures
        a == b,
{
    if a < b {
        assert((a + 1) * (a + 1) <= b * b) by (nonlinear_arith)
            requires
                0 <= a,
                a + 1 <= b,
        ;
    } else if b < a {
        assert((b + 1) * (b + 1) <= a * a) by (nonlinear_arith)
            requires
                0 <= b,
                b + 1 <= a,
        ;
    }
}

/// `root(n)` is the integer square root of `n`.
pub proof fn lemma_root(n: int)
    requires
        n >= 0,
    ensures
        is_root(n, root(n)),
{
    lemma_root_exists(n as nat);
}

/// A square root of what is left of `TRIG_ONE^2` after `s^2`: the squares
/// sum to within `2 * TRIG_ONE` of `TRIG_ONE^2`.
proof fn lemma_root_completes(s: int)
    requires
        0 <= s <= TRIG_ONE,
    ensures
        0 <= root(TRIG_ONE * TRIG_ONE - s * s) <= TRIG_ONE,
        TRIG_ONE * TRIG_ONE - 2 * TRIG_ONE <= s * s + root(TRIG_ONE * TRIG_ONE - s * s) * root(
            TRIG_ONE * TRIG_ONE - s * s,
        ) <= TRIG_ONE * TRIG_ONE,
{
    let t = TRIG_ONE as int;
    assert(s * s <= t * t) by (nonlinear_arith)
        requires
            0 <= s <= t,
    ;
    let n = t * t - s * s;
    lemma_root(n);
    let c = root(n);
    assert(c <= t) by (nonlinear_arith)
        requires
            0 <= c,
            c * c <= n,
            n <= t * t,
            t > 0,
    ;
    assert(t * t - 2 * t <= s * s + c * c) by (nonlinear_arith)
        requires
            n < (c + 1) * (c + 1),
            n == t * t - s * s,
            c <= t,
    ;
}

proof fn lemma_series_sine_bounds(r: int)
    requires
        0 <= r <= EIGHTH_TURN,
    ensures
        0 <= series_sine(r) <= 800000,
{
    let one = SERIES_ONE as int;
    let x = r * PI_SCALED / (HALF_TURN as int);
    lemma_div_within(r * PI_SCALED, HALF_TURN as int, 800000000000);
    vstd::arithmetic::div_mod::lemma_div_pos_is_pos(r * PI_SCALED, HALF_TURN as int);
    assert(x * x <= 800000000000 * one) by (nonlinear_arith)
        requires
            0 <= x <= 800000000000,
            one == 1000000000000,
    ;
    let x2 = x * x / one;
    lemma_div_within(x * x, one, 800000000000);
    vstd::arithmetic::div_mod::lemma_div_pos_is_pos(x * x, one);
    let h4 = one - x2 / 72;
    lemma_div_within(x2, 72, x2);
    vstd::arithmetic::div_mod::lemma_div_pos_is_pos(x2, 72);
    lemma_horner_step(x2, h4, 42);
    let h3 = one - x2 * h4 / (42 * one);
    lemma_horner_step(x2, h3, 20);
    let h2 = one - x2 * h3 / (20 * one);
    lemma_horner_step(x2, h2, 6);
    let h1 = one - x2 * h2 / (6 * one);
    assert(0 <= x * h1 <= x * one) by (nonlinear_arith)
        requires
            0 <= x,
            0 <= h1 <= one,
    ;
    lemma_div_within(x * h1, one, x);
    vstd::arithmetic::div_mod::lemma_div_pos_is_pos(x * h1, one);
    lemma_div_within(x * h1 / one, 1000000, 800000);
    vstd::arithmetic::div_mod::lemma_div_pos_is_pos(x * h1 / one, 1000000);
}

/// One Horner step keeps its value within `[0, SERIES_ONE]`.
proof fn lemma_horner_step(x2: int, h: int, k: int)
    requires
        0 <= x2 <= 800000000000,
        0 <= h <= SERIES_ONE,
        k >= 1,
    ensures
        0 <= x2 * h / (k * SERIES_ONE) <= x2,
        0 <= SERIES_ONE - x2 * h / (k * SERIES_ONE) <= SERIES_ONE,
{
    let one = SERIES_ONE as int;
    assert(0 <= x2 * h <= (k * one) * x2) by (nonlinear_arith)
        requires
            0 <= x2,
            0 <= h <= one,
            k >= 1,
    ;
    assert(k * one > 0) by (nonlinear_arith)
        requires
            k >= 1,
            one > 0,
    ;
    lemma_div_within(x2 * h, k * one, x2);
    vstd::arithmetic::div_mod::lemma_div_pos_is_pos(x2 * h, k * one);
}

/// Sine and cosine stay within one unit, and their squares sum to within
/// `2 * TRIG_ONE` of `TRIG_ONE^2`.
pub proof fn lemma_trig_bounds(a: int)
    requires
        0 <= a < TURN,
    ensures
        -TRIG_ONE <= sine(a) <= TRIG_ONE,
        -TRIG_ONE <= cosine(a) <= TRIG_ONE,
        TRIG_ONE * TRIG_ONE - 2 * TRIG_ONE <= sine(a) * sine(a) + cosine(a) * cosine(a)
            <= TRIG_ONE * TRIG_ONE,
{
    let r = a % (QUARTER_TURN as int);
    lemma_mod_bound(a, QUARTER_TURN as int);
    if r <= EIGHTH_TURN {
        lemma_series_sine_bounds(r);
        lemma_root_completes(series_sine(r));
    } else {
        lemma_series_sine_bounds(QUARTER_TURN - r);
        lemma_root_completes(series_sine(QUARTER_TURN - r));
    }
    let p = quadrant_trig(r);
    assert(p.0 * p.0 + p.1 * p.1 == p.1 * p.1 + p.0 * p.0);
    assert((-p.0) * (-p.0) == p.0 * p.0) by (nonlinear_arith);
    assert((-p.1) * (-p.1) == p.1 * p.1) by (nonlinear_arith);
}

/// The integer square root of `n`.
fn int_root(n: u64) -> (r: u64)
    requires
        n < 0x100_0000_0000,
    ensures
        r == root(n as int),
        is_root(n as int, r as int),
{
    let mut lo: u64 = 0;
    let mut hi: u64 = 0x10_0000;
    assert(hi * hi > n);
    while hi - lo > 1
        invariant
            lo < hi <= 0x10_0000,
            lo * lo <= n,
            n < hi * hi,
        decreases hi - lo,
    {
        let mid = lo + (hi - lo) / 2;
        assert(mid * mid <= 0x100_0000_0000) by (nonlinear_arith)
            requires
                mid <= 0x10_0000,
        ;
        if mid * mid <= n {
            lo = mid;
        } else {
            hi = mid;
        }
    }
    proof {
        assert(hi == lo + 1);
        lemma_root(n as int);
        lemma_root_unique(n as int, lo as int, root(n as int));
    }
    lo
}

fn series_sine_of(r: u32) -> (s: u64)
    requires
        r <= EIGHTH_TURN,
    ensures
        s == series_sine(r as int),
        s <= 800000,
{
    proof {
        lemma_series_sine_bounds(r as int);
    }
    let one: u128 = SERIES_ONE;
    assert((r as u128) * PI_SCALED <= 315 * 3141592653590) by (nonlinear_arith)
        requires
            r <= 315,
    ;
    let x: u128 = (r as u128) * PI_SCALED / (HALF_TURN as u128);
    proof {
        lemma_div_within((r as int) * PI_SCALED, HALF_TURN as int, 800000000000);
        vstd::arithmetic::div_mod::lemma_div_pos_is_pos((r as int) * PI_SCALED, HALF_TURN as int);
    }
    assert(x * x <= 800000000000 * 800000000000) by (nonlinear_arith)
        requires
            x <= 800000000000,
    ;
    let x2: u128 = x * x / one;
    proof {
        lemma_div_within((x * x) as int, one as int, 800000000000);
    }
    let h4: u128 = one - x2 / 72;
    proof {
        lemma_div_within(x2 as int, 72, x2 as int);
        lemma_horner_step(x2 as int, h4 as int, 42);
    }
    assert(x2 * h4 <= 800000000000 * SERIES_ONE) by (nonlinear_arith)
        requires
            x2 <= 800000000000,
            h4 <= SERIES_ONE,
    ;
    let h3: u128 = one - x2 * h4 / (42 * one);
    proof {
        lemma_horner_step(x2 as int, h3 as int, 20);
    }
    assert(x2 * h3 <= 800000000000 * SERIES_ONE) by (nonlinear_arith)
        requires
            x2 <= 800000000000,
            h3 <= SERIES_ONE,
    ;
    let h2: u128 = one - x2 * h3 / (20 * one);
    proof {
        lemma_horner_step(x2 as int, h2 as int, 6);
    }
    assert(x2 * h2 <= 800000000000 * SERIES_ONE) by (nonlinear_arith)
        requires
            x2 <= 800000000000,
            h2 <= SERIES_ONE,
    ;
    let h1: u128 = one - x2 * h2 / (6 * one);
    assert(x * h1 <= 800000000000 * SERIES_ONE) by (nonlinear_arith)
        requires
            x <= 800000000000,
            h1 <= SERIES_ONE,
    ;
    let s: u128 = x * h1 / one / 1000000;
    s as u64
}

/// Sine and cosine of an angle in steps, scaled by `TRIG_ONE`.
pub fn trig_of(a: u32) -> (r: (i64, i64))
    requires
        a < TURN,
    ensures
        r.0 == sine(a as int),
        r.1 == cosine(a as int),
        -TRIG_ONE <= r.0 <= TRIG_ONE,
        -TRIG_ONE <= r.1 <= TRIG_ONE,
{
    proof {
        lemma_trig_bounds(a as int);
    }
    let q = a / QUARTER_TURN;
    let r = a % QUARTER_TURN;
    let t2: u64 = 1000000000000;
    assert(t2 == TRIG_ONE * TRIG_ONE) by (nonlinear_arith)
        requires
            t2 == 1000000000000,
            TRIG_ONE == 1000000,
    ;
    let (s0, c0): (i64, i64) = if r <= EIGHTH_TURN {
        let s = series_sine_of(r);
        assert(s * s <= 800000 * 800000) by (nonlinear_arith)
            requires
                s <= 800000,
        ;
        let c = int_root(t2 - s * s);
        (s as i64, c as i64)
    } else {
        let c = series_sine_of(QUARTER_TURN - r);
        assert(c * c <= 800000 * 800000) by (nonlinear_arith)
            requires
                c <= 800000,
        ;
        let s = int_root(t2 - c * c);
        (s as i64, c as i64)
    };
    proof {
        if r <= EIGHTH_TURN {
            lemma_root_completes(series_sine(r as int));
        } else {
            lemma_root_completes(series_sine(QUARTER_TURN - r));
        }
    }
    if q == 0 {
        (s0, c0)
    } else if q == 1 {
        (c0, -s0)
    } else if q == 2 {
        (-s0, -c0)
    } else {
        (-c0, s0)
    }
}

/// Sine of an angle in steps, scaled by `TRIG_ONE`.
pub fn sin_of(a: u32) -> (r: i64)
    requires
        a < TURN,
    ensures
        r == sine(a as int),
        -TRIG_ONE <= r <= TRIG_ONE,
{
    trig_of(a).0
}

/// Cosine of an angle in steps, scaled by `TRIG_ONE`.
pub fn cos_of(a: u32) -> (r: i64)
    requires
        a < TURN,
    ensures
        r == cosine(a as int),
        -TRIG_ONE <= r <= TRIG_ONE,
{
    trig_of(a).1
}

/// Floor of `x / d` for a positive divisor.
pub fn floor_div(x: i128, d: i128) -> (r: i128)
    requires
        d > 0,
    ensures
        r == x / d,
{
    proof {
        lemma_fundamental_div_mod(x as int, d as int);
        lemma_mod_bound(x as int, d as int);
        let q = x / d;
        let m = x % d;
        assert(i128::MIN <= q <= i128::MAX) by (nonlinear_arith)
            requires
                x == d * q + m,
                0 <= m < d,
                i128::MIN <= x <= i128::MAX,
        ;
    }
    match x.checked_div_euclid(d) {
        Some(q) => q,
        None => 0,
    }
}

/// A 2x2 matrix by columns, entries scaled by `TRIG_ONE`.
#[derive(Clone, Copy, Debug, PartialEq, Eq)]
pub struct Mat2 {
    pub x_axis: Vec2,
    pub y_axis: Vec2,
}

/// The matrix that turns a vector by `theta` angle steps: columns
/// `(cos, -sin)` and `(sin, cos)`.
pub fn rotation_matrix(theta: u32) -> (r: Mat2)
    requires
        theta < TURN,
    ensures
        r.x_axis.x == cosine(theta as int),
        r.x_axis.y == -sine(theta as int),
        r.y_axis.x == sine(theta as int),
        r.y_axis.y == cosine(theta as int),
        within(r.x_axis, TRIG_ONE as int),
        within(r.y_axis, TRIG_ONE as int),
        TRIG_ONE * TRIG_ONE - 2 * TRIG_ONE <= r.x_axis.x * r.x_axis.x + r.y_axis.x * r.y_axis.x
            <= TRIG_ONE * TRIG_ONE,
{
    proof {
        lemma_trig_bounds(theta as int);
    }
    let (s, c) = trig_of(theta);
    Mat2 { x_axis: Vec2 { x: c, y: -s }, y_axis: Vec2 { x: s, y: c } }
}

/// Whole pixels in the fixed-point coordinate `x`, rounded towards zero and
/// saturated to the `i32` range.
pub open spec fn pixel_of(x: int) -> int {
    let q = if x >= 0 {
        x / (UNIT as int)
    } else {
        -((-x) / (UNIT as int))
    };
    if q > i32::MAX {
        i32::MAX as int
    } else if q < i32::MIN {
        i32::MIN as int
    } else {
        q
    }
}

/// Conversion to a whole-pixel screen point.
pub trait AsPoint {
    spec fn point_of(&self) -> (int, int);

    fn as_point(&self) -> (r: (i32, i32))
        ensures
            r.0 == self.point_of().0,
            r.1 == self.point_of().1,
    ;
}

fn to_pixel(x: i64) -> (r: i32)
    ensures
        r == pixel_of(x as int),
{
    let m: i128 = if x >= 0 {
        x as i128
    } else {
        -(x as i128)
    };
    let q = floor_div(m, UNIT as i128);
    proof {
        vstd::arithmetic::div_mod::lemma_div_pos_is_pos(m as int, UNIT as int);
        vstd::arithmetic::div_mod::lemma_div_is_ordered(m as int, 0x8000_0000_0000_0000int, UNIT as int);
    }
    let t: i128 = if x >= 0 {
        q
    } else {
        -q
    };
    if t > i32::MAX as i128 {
        i32::MAX
    } else if t < i32::MIN as i128 {
        i32::MIN
    } else {
        t as i32
    }
}

impl AsPoint for Vec2 {
    open spec fn point_of(&self) -> (int, int) {
        (pixel_of(self.x as int), pixel_of(self.y as int))
    }

    fn as_point(&self) -> (r: (i32, i32)) {
        (to_pixel(self.x), to_pixel(self.y))
    }
}

/// Squared length of `v`.
pub open spec fn norm2(v: Vec2) -> int {
    v.x * v.x + v.y * v.y
}

/// Sum of the absolute coordinates of `v`.
pub open spec fn taxicab(v: Vec2) -> int {
    (if v.x >= 0 {
        v.x as int
    } else {
        -v.x
    }) + (if v.y >= 0 {
        v.y as int
    } else {
        -v.y
    })
}

/// Turning keeps length up to rounding: the squared length of the turned
/// vector is at most `|v|^2 + 4 (|v.x| + |v.y|) + 2`, and at least
/// `|v|^2 (1 - 2 / TRIG_ONE) - 4 (|v.x| + |v.y|)`.
pub proof fn lemma_turn_length(v: Vec2, a: int)
    requires
        0 <= a < TURN,
        within(v, LIMIT as int),
    ensures
        norm2(turned(v, a)) <= norm2(v) + 4 * taxicab(v) + 2,
        TRIG_ONE * norm2(turned(v, a)) >= TRIG_ONE * norm2(v) - 2 * norm2(v) - 4 * taxicab(v)
            * TRIG_ONE,
{
    lemma_trig_bounds(a);
    let t = TRIG_ONE as int;
    let (vx, vy) = (v.x as int, v.y as int);
    let (s, c) = (sine(a), cosine(a));
    let n = norm2(v);
    let m = taxicab(v);
    let xx = vx * c + vy * s;
    let yy = vy * c - vx * s;
    assert(n >= 0) by (nonlinear_arith)
        requires
            n == vx * vx + vy * vy,
    ;
    let (p1, p2, p3, p4) = (vx * c, vy * s, vy * c, vx * s);
    assert(xx * xx == p1 * p1 + 2 * (p1 * p2) + p2 * p2) by (nonlinear_arith)
        requires
            xx == p1 + p2,
    ;
    assert(yy * yy == p3 * p3 - 2 * (p3 * p4) + p4 * p4) by (nonlinear_arith)
        requires
            yy == p3 - p4,
    ;
    assert(p1 * p2 == p3 * p4) by (nonlinear_arith)
        requires
            p1 == vx * c,
            p2 == vy * s,
            p3 == vy * c,
            p4 == vx * s,
    ;
    assert(p1 * p1 + p4 * p4 == (vx * vx) * (s * s + c * c)) by (nonlinear_arith)
        requires
            p1 == vx * c,
            p4 == vx * s,
    ;
    assert(p2 * p2 + p3 * p3 == (vy * vy) * (s * s + c * c)) by (nonlinear_arith)
        requires
            p2 == vy * s,
            p3 == vy * c,
    ;
    assert(n * (s * s + c * c) == (vx * vx) * (s * s + c * c) + (vy * vy) * (s * s + c * c))
        by (nonlinear_arith)
        requires
            n == vx * vx + vy * vy,
    ;
    assert(xx * xx + yy * yy == n * (s * s + c * c));
    let ax = if vx >= 0 { vx } else { -vx };
    let ay = if vy >= 0 { vy } else { -vy };
    assert(-(m * t) <= xx <= m * t && -(m * t) <= yy <= m * t) by (nonlinear_arith)
        requires
            xx == vx * c + vy * s,
            yy == vy * c - vx * s,
            -t <= s <= t,
            -t <= c <= t,
            ax >= 0 && (ax == vx || ax == -vx),
            ay >= 0 && (ay == vy || ay == -vy),
            m == ax + ay,
    ;
    lemma_fundamental_div_mod(xx, t);
    lemma_fundamental_div_mod(yy, t);
    lemma_mod_bound(xx, t);
    lemma_mod_bound(yy, t);
    let x = xx / t;
    let y = yy / t;
    let dx = xx % t;
    let dy = yy % t;
    assert(turned_x(v, a) == x && turned_y(v, a) == y);
    lemma_div_within(xx, t, m);
    lemma_div_within(yy, t, m);
    assert(turned(v, a).x == x && turned(v, a).y == y);
    assert(t * t * (x * x) == xx * xx - 2 * (xx * dx) + dx * dx) by (nonlinear_arith)
        requires
            xx == t * x + dx,
    ;
    assert(t * t * (y * y) == yy * yy - 2 * (yy * dy) + dy * dy) by (nonlinear_arith)
        requires
            yy == t * y + dy,
    ;
    assert(t * t * (x * x + y * y) == t * t * (x * x) + t * t * (y * y)) by (nonlinear_arith);
    assert(-(m * t * t) <= xx * dx <= m * t * t) by (nonlinear_arith)
        requires
            -(m * t) <= xx <= m * t,
            0 <= dx < t,
    ;
    assert(-(m * t * t) <= yy * dy <= m * t * t) by (nonlinear_arith)
        requires
            -(m * t) <= yy <= m * t,
            0 <= dy < t,
    ;
    assert(dx * dx + dy * dy <= 2 * t * t) by (nonlinear_arith)
        requires
            0 <= dx < t,
            0 <= dy < t,
    ;
    assert(n * (s * s + c * c) <= n * (t * t)) by (nonlinear_arith)
        requires
            n >= 0,
            s * s + c * c <= t * t,
    ;
    assert(n * (s * s + c * c) >= n * (t * t - 2 * t)) by (nonlinear_arith)
        requires
            n >= 0,
            s * s + c * c >= t * t - 2 * t,
    ;
    let w = x * x + y * y;
    assert(w <= n + 4 * m + 2) by (nonlinear_arith)
        requires
            t * t * w <= n * (t * t) + 4 * m * t * t + 2 * t * t,
            t > 0,
    ;
    assert(t * w >= t * n - 2 * n - 4 * m * t) by (nonlinear_arith)
        requires
            t * t * w >= n * (t * t - 2 * t) - 4 * m * t * t,
            t > 0,
    ;
}

/// `v` turned clockwise by the angle `a` (steps), each coordinate rounded down.
pub fn turn(v: Vec2, a: u32) -> (r: Vec2)
    requires
        a < TURN,
        within(v, LIMIT as int),
    ensures
        r == turned(v, a as int),
        r.x == turned_x(v, a as int),
        r.y == turned_y(v, a as int),
        within(r, 2 * LIMIT),
        norm2(r) <= norm2(v) + 4 * taxicab(v) + 2,
        TRIG_ONE * norm2(r) >= TRIG_ONE * norm2(v) - 2 * norm2(v) - 4 * taxicab(v) * TRIG_ONE,
{
    proof {
        lemma_turn_length(v, a as int);
    }
    let m = rotation_matrix(a);
    let c = m.x_axis.x;
    let s = m.y_axis.x;
    let t = TRIG_ONE as i128;
    let (vx, vy) = (v.x as i128, v.y as i128);
    proof {
        assert(-LIMIT * TRIG_ONE <= vx * c <= LIMIT * TRIG_ONE) by (nonlinear_arith)
            requires
                -LIMIT <= vx <= LIMIT,
                -TRIG_ONE <= c <= TRIG_ONE,
        ;
        assert(-LIMIT * TRIG_ONE <= vy * s <= LIMIT * TRIG_ONE) by (nonlinear_arith)
            requires
                -LIMIT <= vy <= LIMIT,
                -TRIG_ONE <= s <= TRIG_ONE,
        ;
        assert(-LIMIT * TRIG_ONE <= vx * s <= LIMIT * TRIG_ONE) by (nonlinear_arith)
            requires
                -LIMIT <= vx <= LIMIT,
                -TRIG_ONE <= s <= TRIG_ONE,
        ;
        assert(-LIMIT * TRIG_ONE <= vy * c <= LIMIT * TRIG_ONE) by (nonlinear_arith)
            requires
                -LIMIT <= vy <= LIMIT,
                -TRIG_ONE <= c <= TRIG_ONE,
        ;
    }
    let nx = vx * (c as i128) + vy * (s as i128);
    let ny = vy * (c as i128) - vx * (s as i128);
    let qx = floor_div(nx, t);
    let qy = floor_div(ny, t);
    proof {
        lemma_div_within(nx as int, t as int, 2 * LIMIT);
        lemma_div_within(ny as int, t as int, 2 * LIMIT);
    }
    Vec2 { x: qx as i64, y: qy as i64 }
}

} // verus!
