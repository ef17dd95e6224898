//! Integer arithmetic of the fixed-point model: magnitudes, quotients rounded
//! toward zero, integer square roots, and the two-dimensional vector.

use vstd::prelude::*;
use crate::constants::{FIELD_MAX, REACH_MAX};

verus! {

/// Magnitude of an integer.
pub open spec fn abs(x: int) -> int {
    if x >= 0 {
        x
    } else {
        -x
    }
}

/// Quotient of `a` by a non-zero `b`, rounded toward zero.
pub open spec fn quot(a: int, b: int) -> int {
    if b > 0 {
        if a >= 0 {
            a / b
        } else {
            -((-a) / b)
        }
    } else {
        if a >= 0 {
            -(a / (-b))
        } else {
            (-a) / (-b)
        }
    }
}

/// `r` is the square root of `n`, rounded down.
pub open spec fn is_floor_sqrt(n: int, r: int) -> bool {
    0 <= r && r * r <= n < (r + 1) * (r + 1)
}

/// The square root of `n`, rounded down (0 for a negative `n`).
pub open spec fn floor_sqrt(n: int) -> int {
    if n < 0 {
        0
    } else {
        choose|r: int| is_floor_sqrt(n, r)
    }
}

/// At most one number is the rounded-down square root of `n`.
pub proof fn lemma_floor_sqrt_unique(n: int, r1: int, r2: int)
    requires
        is_floor_sqrt(n, r1),
        is_floor_sqrt(n, r2),
    ensures
        r1 == r2,
{
    if r1 < r2 {
        assert((r1 + 1) * (r1 + 1) <= r2 * r2) by (nonlinear_arith)
            requires
                0 <= r1,
                r1 + 1 <= r2,
        ;
    } else if r2 < r1 {
        assert((r2 + 1) * (r2 + 1) <= r1 * r1) by (nonlinear_arith)
            requires
                0 <= r2,
                r2 + 1 <= r1,
        ;
    }
}

/// Every number from 0 on has a rounded-down square root, and
/// `floor_sqrt` is it.
pub proof fn lemma_floor_sqrt(n: int)
    requires
        0 <= n,
    ensures
        is_floor_sqrt(n, floor_sqrt(n)),
    decreases n,
{
    if n == 0 {
        assert(is_floor_sqrt(0, 0));
    } else {
        lemma_floor_sqrt(n - 1);
        let r = floor_sqrt(n - 1);
        if (r + 1) * (r + 1) <= n {
            assert((r + 2) * (r + 2) > (r + 1) * (r + 1)) by (nonlinear_arith)
                requires
                    0 <= r,
            ;
            assert(is_floor_sqrt(n, r + 1));
        } else {
            assert(is_floor_sqrt(n, r));
        }
    }
}

/// Whoever has a rounded-down square root of `n` has `floor_sqrt(n)`.
pub proof fn lemma_floor_sqrt_is(n: int, r: int)
    requires
        is_floor_sqrt(n, r),
    ensures
        floor_sqrt(n) == r,
{
    assert(n >= 0) by (nonlinear_arith)
        requires
            r * r <= n,
    ;
    lemma_floor_sqrt_unique(n, r, floor_sqrt(n));
}

/// Square root of `n`, rounded down.
pub fn isqrt(n: u128) -> (r: u64)
    ensures
        is_floor_sqrt(n as int, r as int),
        r == floor_sqrt(n as int),
{
    let mut lo: u128 = 0;
    let mut hi: u128 = 0x1_0000_0000_0000_0000;
    assert(n < hi * hi) by (nonlinear_arith)
        requires
            hi == 0x1_0000_0000_0000_0000,
            n <= u128::MAX,
    ;
    while hi - lo > 1
        invariant
            lo < hi <= 0x1_0000_0000_0000_0000,
            lo * lo <= n < hi * hi,
        decreases hi - lo,
    {
        let mid: u128 = lo + (hi - lo) / 2;
        assert(mid * mid <= 0xffff_ffff_ffff_ffff * 0xffff_ffff_ffff_ffff) by (nonlinear_arith)
            requires
                0 <= mid <= 0xffff_ffff_ffff_ffff,
        ;
        if mid * mid <= n {
            lo = mid;
        } else {
            hi = mid;
        }
    }
    proof {
        lemma_floor_sqrt_is(n as int, lo as int);
    }
    lo as u64
}

/// A point or a velocity in the plane, over the integers: what a `Vec2`
/// stands for in contracts.
pub struct Point {
    pub x: int,
    pub y: int,
}

impl Point {
    /// Both coordinates have magnitude at most `limit`.
    pub open spec fn within(self, limit: int) -> bool {
        abs(self.x) <= limit && abs(self.y) <= limit
    }

    /// The point may stand in a layout or be aimed at.
    pub open spec fn in_field(self) -> bool {
        self.within(FIELD_MAX as int)
    }

    /// The point is one that a ball can get to.
    pub open spec fn in_reach(self) -> bool {
        self.within(REACH_MAX as int)
    }

    /// Square of the Euclidean distance between two points.
    pub open spec fn dist_sq(self, other: Point) -> int {
        (self.x - other.x) * (self.x - other.x) + (self.y - other.y) * (self.y - other.y)
    }

    /// Euclidean distance between two points, rounded down.
    pub open spec fn dist(self, other: Point) -> int {
        floor_sqrt(self.dist_sq(other))
    }
}

/// A point or a velocity in the plane.
#[derive(Clone, Copy, Debug, PartialEq, Eq, Structural)]
pub struct Vec2 {
    pub x: i64,
    pub y: i64,
}

impl View for Vec2 {
    type V = Point;

    open spec fn view(&self) -> Point {
        Point { x: self.x as int, y: self.y as int }
    }
}

impl Vec2 {
    pub fn new(x: i64, y: i64) -> (v: Vec2)
        ensures
            v == (Vec2 { x, y }),
    {
        Vec2 { x, y }
    }

    /// Whether both coordinates have magnitude at most `FIELD_MAX`.
    pub fn is_in_field(&self) -> (b: bool)
        ensures
            b == self@.in_field(),
    {
        -FIELD_MAX <= self.x && self.x <= FIELD_MAX && -FIELD_MAX <= self.y && self.y <= FIELD_MAX
    }

    /// Square of the distance to `other`.
    pub fn distance_squared(&self, other: &Vec2) -> (d: u128)
        requires
            self@.in_reach(),
            other@.in_reach(),
        ensures
            d == self@.dist_sq(other@),
            d <= 80_000_000_000_000_000_000_000_000_000_000_000,
    {
        let dx: i128 = self.x as i128 - other.x as i128;
        let dy: i128 = self.y as i128 - other.y as i128;
        assert(0 <= dx * dx <= 200_000_000_000_000_000 * 200_000_000_000_000_000) by (nonlinear_arith)
            requires
                -200_000_000_000_000_000 <= dx <= 200_000_000_000_000_000,
        ;
        assert(0 <= dy * dy <= 200_000_000_000_000_000 * 200_000_000_000_000_000) by (nonlinear_arith)
            requires
                -200_000_000_000_000_000 <= dy <= 200_000_000_000_000_000,
        ;
        (dx * dx + dy * dy) as u128
    }

    /// Distance to `other`, rounded down to a whole unit.
    pub fn distance(&self, other: &Vec2) -> (d: i64)
        requires
            self@.in_reach(),
            other@.in_reach(),
        ensures
            d == self@.dist(other@),
            is_floor_sqrt(self@.dist_sq(other@), d as int),
    {
        let sq = self.distance_squared(other);
        let r = isqrt(sq);
        assert(r <= 300_000_000_000_000_000) by (nonlinear_arith)
            requires
                r * r <= sq,
                sq <= 80_000_000_000_000_000_000_000_000_000_000_000,
                0 <= r,
        ;
        r as i64
    }
}

} // verus!
