//! Lattice points and the few vector operations the growth rules need.
//!
//! Positions are pairs of `i32` in whatever unit the caller picks.  A
//! direction is a vector of length one, held in fixed point: its components
//! are counted in parts of `UNIT`, so `(UNIT, 0)` points along the x axis.

use vstd::prelude::*;

verus! {

/// The fixed-point representation of the number one.
pub const UNIT: i32 = 65536;

/// Components of a vector are brought below this bound before its length is
/// taken, so that the squares fit a machine word.
pub const FIT: u128 = 0x8000_0000_0000;

/// A point of the lattice, or a vector between two of them.
#[derive(Clone, Copy, Debug, PartialEq, Eq, Structural)]
pub struct Point2 {
    pub x: i32,
    pub y: i32,
}

/// The square of the Euclidean distance between two points.
pub open spec fn dist2(a: Point2, b: Point2) -> int {
    (a.x - b.x) * (a.x - b.x) + (a.y - b.y) * (a.y - b.y)
}

/// The square of the Euclidean length of a vector.
pub open spec fn norm2(v: Point2) -> int {
    v.x * v.x + v.y * v.y
}

/// `r` is the integer part of the square root of `n`.
pub open spec fn is_floor_sqrt(n: int, r: int) -> bool {
    0 <= r && r * r <= n < (r + 1) * (r + 1)
}

/// The integer part of the square root of `n`, for `n >= 0`.
pub open spec fn floor_sqrt(n: int) -> int {
    choose|r: int| is_floor_sqrt(n, r)
}

/// The magnitude `m` with the sign of `v`.
pub open spec fn with_sign_of(m: nat, v: int) -> int {
    if v < 0 {
        -(m as int)
    } else {
        m as int
    }
}

/// The absolute value of `v`.
pub open spec fn magnitude(v: int) -> nat {
    if v < 0 {
        (-v) as nat
    } else {
        v as nat
    }
}

/// Halves both components, rounding down, until each is below `FIT`.
pub open spec fn fitted(ax: nat, ay: nat) -> (nat, nat)
    decreases ax + ay,
{
    if ax < FIT && ay < FIT {
        (ax, ay)
    } else {
        fitted(ax / 2, ay / 2)
    }
}

/// One component of the unit vector along a vector whose component has
/// magnitude `c` and whose squared length is `n > 0`: the integer part of
/// `UNIT * c / sqrt(n)`.
pub open spec fn unit_component(c: nat, n: nat) -> nat {
    floor_sqrt((UNIT * UNIT * c * c) / (n as int)) as nat
}

/// The unit vector along `(x, y)`, or zero for the zero vector.  Each
/// component is rounded toward zero.
pub open spec fn unit_of(x: int, y: int) -> Point2 {
    let (ax, ay) = fitted(magnitude(x), magnitude(y));
    let n = ax * ax + ay * ay;
    if n == 0 {
        Point2 { x: 0, y: 0 }
    } else {
        Point2 {
            x: with_sign_of(unit_component(ax, n), x) as i32,
            y: with_sign_of(unit_component(ay, n), y) as i32,
        }
    }
}

/// The fixed-point product of a direction component `d` and a length `len`:
/// `d * len / UNIT`, rounded to the nearest integer, and away from zero
/// where two are equally near.
pub open spec fn scaled(d: int, len: int) -> int {
    with_sign_of(((magnitude(d) * len + UNIT / 2) / (UNIT as int)) as nat, d)
}

/// `v` is zero or has length one, up to the rounding of its components:
/// its length lies between `UNIT - 2` and `UNIT`.
pub open spec fn zero_or_unit(v: Point2) -> bool {
    v == (Point2 { x: 0, y: 0 }) || (UNIT - 2) * (UNIT - 2) <= norm2(v) <= UNIT * UNIT
}

/// Every `n >= 0` has an integer square root.
pub proof fn lemma_floor_sqrt(n: int)
    requires
        0 <= n,
    ensures
        is_floor_sqrt(n, floor_sqrt(n)),
    decreases n,
{
    if n == 0 {
        assert(is_floor_sqrt(0, 0));
    } else {
        lemma_floor_sqrt(n - 1);
        let r = floor_sqrt(n - 1);
        if (r + 1) * (r + 1) <= n {
            assert(n < (r + 2) * (r + 2)) by (nonlinear_arith)
                requires
                    0 <= r,
                    n - 1 < (r + 1) * (r + 1),
            ;
            assert(is_floor_sqrt(n, r + 1));
        } else {
            assert(is_floor_sqrt(n, r));
        }
    }
}

/// The integer square root is unique.
pub proof fn lemma_floor_sqrt_unique(n: int, r: int)
    requires
        is_floor_sqrt(n, r),
    ensures
        floor_sqrt(n) == r,
{
    let s = floor_sqrt(n);
    assert(is_floor_sqrt(n, s));
    assert(s == r) by (nonlinear_arith)
        requires
            0 <= r,
            0 <= s,
            r * r <= n < (r + 1) * (r + 1),
            s * s <= n < (s + 1) * (s + 1),
    ;
}

/// The integer part of the square root of `n`.
pub fn isqrt(n: u64) -> (r: u64)
    ensures
        r == floor_sqrt(n as int),
        r < 0x1_0000_0000,
{
    let mut lo: u64 = 0;
    let mut hi: u64 = 0x1_0000_0000;
    assert(n < hi * hi) by (nonlinear_arith)
        requires
            hi == 0x1_0000_0000,
            n <= u64::MAX,
    ;
    while hi - lo > 1
        invariant
            lo < hi <= 0x1_0000_0000,
            lo * lo <= n < hi * hi,
        decreases hi - lo,
    {
        let mid: u64 = lo + (hi - lo) / 2;
        assert(mid * mid <= 0xffff_ffff * 0xffff_ffff) by (nonlinear_arith)
            requires
                0 <= mid <= 0xffff_ffff,
        ;
        if mid * mid <= n {
            lo = mid;
        } else {
            hi = mid;
        }
    }
    proof {
        assert(hi == lo + 1);
        lemma_floor_sqrt_unique(n as int, lo as int);
    }
    lo
}

/// What `fitted` keeps: the components end below `FIT`, never grow, and a
/// vector that is not zero stays so.
pub proof fn lemma_fitted(ax: nat, ay: nat)
    ensures
        fitted(ax, ay).0 < FIT,
        fitted(ax, ay).1 < FIT,
        fitted(ax, ay).0 <= ax,
        fitted(ax, ay).1 <= ay,
        ax > 0 || ay > 0 ==> fitted(ax, ay).0 > 0 || fitted(ax, ay).1 > 0,
    decreases ax + ay,
{
    if !(ax < FIT && ay < FIT) {
        lemma_fitted(ax / 2, ay / 2);
    }
}

/// A component of a unit vector is at most `UNIT`, is zero where the
/// vector's own component is, and is the integer part of `UNIT * c / sqrt(n)`.
pub proof fn lemma_unit_component(c: nat, n: nat)
    requires
        0 < n,
        c * c <= n,
    ensures
        unit_component(c, n) <= UNIT,
        c == 0 ==> unit_component(c, n) == 0,
        unit_component(c, n) * unit_component(c, n) * n <= UNIT * UNIT * c * c,
        UNIT * UNIT * c * c < (unit_component(c, n) + 1) * (unit_component(c, n) + 1) * n,
{
    let u: int = UNIT * UNIT;
    let a: int = u * c * c;
    assert(0 <= a && a <= u * n) by (nonlinear_arith)
        requires
            a == u * c * c,
            u == 4294967296,
            c * c <= n,
    ;
    let q: int = a / (n as int);
    assert(q * n <= a < (q + 1) * n && 0 <= q <= u) by (nonlinear_arith)
        requires
            q == a / (n as int),
            0 < n,
            0 <= a <= u * n,
    ;
    lemma_floor_sqrt(q);
    let d: int = floor_sqrt(q);
    assert(d == unit_component(c, n));
    assert(d <= 65536) by (nonlinear_arith)
        requires
            0 <= d,
            d * d <= q,
            q <= 4294967296,
    ;
    assert(d * d * n <= a) by (nonlinear_arith)
        requires
            d * d <= q,
            q * n <= a,
            0 < n,
    ;
    assert(a < (d + 1) * (d + 1) * n) by (nonlinear_arith)
        requires
            q < (d + 1) * (d + 1),
            a < (q + 1) * n,
            0 < n,
    ;
    if c == 0 {
        assert(a == 0) by (nonlinear_arith)
            requires
                a == u * c * c,
                c == 0,
        ;
        assert(d == 0) by (nonlinear_arith)
            requires
                0 <= d,
                d * d * n <= 0,
                0 < n,
        ;
    }
}

/// The unit vector along a vector is zero exactly for the zero vector, and
/// else has length one up to rounding.  Each of its components has the sign
/// of the vector's own, or is zero, and is at most `UNIT` in magnitude.
pub proof fn lemma_unit_of(x: int, y: int)
    ensures
        zero_or_unit(unit_of(x, y)),
        unit_of(x, y) == (Point2 { x: 0, y: 0 }) <==> x == 0 && y == 0,
        x >= 0 ==> 0 <= unit_of(x, y).x <= UNIT,
        x <= 0 ==> -UNIT <= unit_of(x, y).x <= 0,
        y >= 0 ==> 0 <= unit_of(x, y).y <= UNIT,
        y <= 0 ==> -UNIT <= unit_of(x, y).y <= 0,
{
    let (ax, ay) = fitted(magnitude(x), magnitude(y));
    lemma_fitted(magnitude(x), magnitude(y));
    let n: nat = ax * ax + ay * ay;
    assert(ax * ax >= 0 && ay * ay >= 0) by (nonlinear_arith);
    if n == 0 {
        assert(ax == 0 && ay == 0) by (nonlinear_arith)
            requires
                ax * ax + ay * ay == 0,
        ;
    } else {
        let dx: int = unit_component(ax, n) as int;
        let dy: int = unit_component(ay, n) as int;
        lemma_unit_component(ax, n);
        lemma_unit_component(ay, n);
        let u: int = UNIT * UNIT;
        assert(dx * dx + dy * dy <= u && u < (dx + 1) * (dx + 1) + (dy + 1) * (dy + 1))
            by (nonlinear_arith)
            requires
                0 < n,
                n == ax * ax + ay * ay,
                dx * dx * n <= u * ax * ax,
                dy * dy * n <= u * ay * ay,
                u * ax * ax < (dx + 1) * (dx + 1) * n,
                u * ay * ay < (dy + 1) * (dy + 1) * n,
        ;
        assert(dx + dy <= 98304) by (nonlinear_arith)
            requires
                0 <= dx,
                0 <= dy,
                dx * dx + dy * dy <= 4294967296,
        ;
        assert((dx + 1) * (dx + 1) + (dy + 1) * (dy + 1) == dx * dx + dy * dy + 2 * (dx + dy) + 2)
            by (nonlinear_arith);
        let v = unit_of(x, y);
        assert(v.x == with_sign_of(dx as nat, x));
        assert(v.y == with_sign_of(dy as nat, y));
        assert(v.x * v.x == dx * dx) by (nonlinear_arith)
            requires
                v.x == dx || v.x == -dx,
        ;
        assert(v.y * v.y == dy * dy) by (nonlinear_arith)
            requires
                v.y == dy || v.y == -dy,
        ;
        assert(norm2(v) == dx * dx + dy * dy);
        assert(dx != 0 || dy != 0) by (nonlinear_arith)
            requires
                4294967296 < (dx + 1) * (dx + 1) + (dy + 1) * (dy + 1),
        ;
    }
}

/// No component of a vector of length at most one exceeds `UNIT`.
pub proof fn lemma_unit_bounds(v: Point2)
    requires
        zero_or_unit(v),
    ensures
        -UNIT <= v.x <= UNIT,
        -UNIT <= v.y <= UNIT,
{
    if v != (Point2 { x: 0, y: 0 }) {
        assert(-65536 <= v.x <= 65536 && -65536 <= v.y <= 65536) by (nonlinear_arith)
            requires
                v.x * v.x + v.y * v.y <= 65536 * 65536,
        ;
    }
}

/// Scaling a component of a unit vector by a length gives at most that
/// length, with the sign of the component.
pub proof fn lemma_scaled_bound(d: int, len: int)
    requires
        -UNIT <= d <= UNIT,
        0 <= len,
    ensures
        d >= 0 ==> 0 <= scaled(d, len) <= len,
        d <= 0 ==> -len <= scaled(d, len) <= 0,
{
    let m: int = magnitude(d) as int;
    assert(0 <= (m * len + 32768) / 65536 <= len && (m == 0 ==> (m * len + 32768) / 65536 == 0))
        by (nonlinear_arith)
        requires
            0 <= m <= 65536,
            0 <= len,
    ;
}

/// The magnitude of `v` as an unsigned word.
fn magnitude_of(v: i128) -> (m: u128)
    ensures
        m == magnitude(v as int),
{
    if v >= 0 {
        v as u128
    } else {
        (-(v + 1)) as u128 + 1
    }
}

/// The fixed-point product of a direction component and a length.
pub fn scale(d: i32, len: u64) -> (r: i64)
    requires
        len <= 0x2_0000_0000,
    ensures
        r == scaled(d as int, len as int),
{
    let m: u128 = magnitude_of(d as i128);
    assert(0 <= m * len <= 0x8000_0000 * 0x2_0000_0000) by (nonlinear_arith)
        requires
            0 <= m <= 0x8000_0000,
            0 <= len <= 0x2_0000_0000,
    ;
    let q: u128 = (m * (len as u128) + 32768) / 65536;
    if d < 0 {
        -(q as i64)
    } else {
        q as i64
    }
}

/// One component of a unit vector: see `unit_component`.
fn component(c: u128, n: u128) -> (r: i32)
    requires
        c < FIT,
        0 < n,
        c * c <= n,
    ensures
        r == unit_component(c as nat, n as nat),
        0 <= r <= UNIT,
{
    assert(c * c < 0x8000_0000_0000 * 0x8000_0000_0000) by (nonlinear_arith)
        requires
            0 <= c < 0x8000_0000_0000,
    ;
    let cc: u128 = c * c;
    let a: u128 = 0x1_0000_0000u128 * cc;
    assert(a == UNIT * UNIT * c * c) by (nonlinear_arith)
        requires
            a == 0x1_0000_0000 * (c * c),
            UNIT == 65536,
    ;
    let q: u128 = a / n;
    proof {
        lemma_unit_component(c as nat, n as nat);
        assert(q <= 0x1_0000_0000) by (nonlinear_arith)
            requires
                q == a as int / n as int,
                0 < n,
                a == 0x1_0000_0000 * cc,
                cc <= n,
        ;
    }
    let r: u64 = isqrt(q as u64);
    r as i32
}

/// The unit vector along `(x, y)`, or zero for the zero vector.
pub fn unit_vector(x: i128, y: i128) -> (d: Point2)
    ensures
        d == unit_of(x as int, y as int),
{
    let mut ax: u128 = magnitude_of(x);
    let mut ay: u128 = magnitude_of(y);
    while ax >= FIT || ay >= FIT
        invariant
            fitted(ax as nat, ay as nat) == fitted(magnitude(x as int), magnitude(y as int)),
        decreases ax + ay,
    {
        ax = ax / 2;
        ay = ay / 2;
    }
    assert(ax * ax < 0x8000_0000_0000 * 0x8000_0000_0000) by (nonlinear_arith)
        requires
            0 <= ax < 0x8000_0000_0000,
    ;
    assert(ay * ay < 0x8000_0000_0000 * 0x8000_0000_0000) by (nonlinear_arith)
        requires
            0 <= ay < 0x8000_0000_0000,
    ;
    let n: u128 = ax * ax + ay * ay;
    if n == 0 {
        return Point2 { x: 0, y: 0 };
    }
    let cx: i32 = component(ax, n);
    let cy: i32 = component(ay, n);
    proof {
        lemma_unit_component(ax as nat, n as nat);
        lemma_unit_component(ay as nat, n as nat);
    }
    Point2 { x: if x < 0 { -cx } else { cx }, y: if y < 0 { -cy } else { cy } }
}

impl Point2 {
    /// The point with the coordinates `x` and `y`.
    pub fn new(x: i32, y: i32) -> (p: Point2)
        ensures
            p.x == x,
            p.y == y,
    {
        Point2 { x, y }
    }

    /// The zero vector.
    pub fn zero() -> (p: Point2)
        ensures
            p == (Point2 { x: 0, y: 0 }),
    {
        Point2 { x: 0, y: 0 }
    }

    /// Whether both components are zero.
    pub fn is_zero(&self) -> (b: bool)
        ensures
            b == (*self == Point2 { x: 0, y: 0 }),
    {
        self.x == 0 && self.y == 0
    }

    /// The unit vector along this one, or zero for the zero vector.
    pub fn normalize(&self) -> (d: Point2)
        ensures
            d == unit_of(self.x as int, self.y as int),
    {
        unit_vector(self.x as i128, self.y as i128)
    }

    /// The square of the Euclidean distance to `other`, computed exactly.
    pub fn distance_squared(&self, other: &Point2) -> (d: u128)
        ensures
            d == dist2(*self, *other),
    {
        let dx: i64 = self.x as i64 - other.x as i64;
        let dy: i64 = self.y as i64 - other.y as i64;
        assert(0 <= dx * dx <= 0x1_0000_0000 * 0x1_0000_0000) by (nonlinear_arith)
            requires
                -0x1_0000_0000 < dx < 0x1_0000_0000,
        ;
        assert(0 <= dy * dy <= 0x1_0000_0000 * 0x1_0000_0000) by (nonlinear_arith)
            requires
                -0x1_0000_0000 < dy < 0x1_0000_0000,
        ;
        let sx: u128 = (dx as i128 * dx as i128) as u128;
        let sy: u128 = (dy as i128 * dy as i128) as u128;
        sx + sy
    }
}

} // verus!
