//! Lattice points, exact squared distances and whole-unit distances.

use vstd::prelude::*;

verus! {

/// A point of the plane with whole lattice coordinates.
#[derive(Debug, Clone, Copy, PartialEq, Eq, Structural)]
pub struct Point {
    pub x: i32,
    pub y: i32,
}

/// A displacement proposed around a point.
#[derive(Debug, Clone, Copy, PartialEq, Eq, Structural)]
pub struct Offset {
    pub dx: i32,
    pub dy: i32,
}

/// The squared Euclidean distance between two points.
pub open spec fn distance_squared(a: Point, b: Point) -> int {
    (b.x - a.x) * (b.x - a.x) + (b.y - a.y) * (b.y - a.y)
}

/// `root` is the square root of `n`, rounded down.
pub open spec fn is_floor_sqrt(root: int, n: int) -> bool {
    0 <= root && root * root <= n && n < (root + 1) * (root + 1)
}

/// `point` lies in the rectangle `[0, width) x [0, height)`.
pub open spec fn in_rectangle(point: Point, width: int, height: int) -> bool {
    0 <= point.x < width && 0 <= point.y < height
}

/// `b` lies strictly closer to `a` than `separation`. No point is closer than
/// a separation that is not positive.
pub open spec fn closer_than(a: Point, b: Point, separation: int) -> bool {
    separation > 0 && distance_squared(a, b) < separation * separation
}

/// The point that `offset` leads to from `seed`, where its coordinates fit the
/// lattice.
pub open spec fn proposal(seed: Point, offset: Offset) -> Option<Point> {
    if i32::MIN <= seed.x + offset.dx <= i32::MAX && i32::MIN <= seed.y + offset.dy <= i32::MAX {
        Some(Point { x: (seed.x + offset.dx) as i32, y: (seed.y + offset.dy) as i32 })
    } else {
        None
    }
}

/// Squaring keeps the order of non-negative integers.
pub proof fn lemma_square_monotonic(a: int, b: int)
    requires
        0 <= a <= b,
    ensures
        a * a <= b * b,
{
    assert(a * a <= a * b) by (nonlinear_arith)
        requires
            0 <= a <= b,
    ;
    assert(a * b <= b * b) by (nonlinear_arith)
        requires
            0 <= a <= b,
    ;
}

/// A number has at most one rounded-down square root.
pub proof fn lemma_floor_sqrt_unique(r1: int, r2: int, n: int)
    requires
        is_floor_sqrt(r1, n),
        is_floor_sqrt(r2, n),
    ensures
        r1 == r2,
{
    if r1 < r2 {
        lemma_square_monotonic(r1 + 1, r2);
    } else if r2 < r1 {
        lemma_square_monotonic(r2 + 1, r1);
    }
}

/// Comparing a rounded-down square root with a whole bound is the same as
/// comparing the number with the bound's square: rounding loses nothing.
pub proof fn lemma_floor_sqrt_below(root: int, n: int, bound: int)
    requires
        is_floor_sqrt(root, n),
        0 <= bound,
    ensures
        root < bound <==> n < bound * bound,
{
    if root < bound {
        lemma_square_monotonic(root + 1, bound);
    } else {
        lemma_square_monotonic(bound, root);
    }
}

/// Whether a point lies strictly closer than a whole separation can be read
/// off the distance rounded down to whole units.
pub proof fn lemma_closer_by_whole_distance(a: Point, b: Point, whole: int, separation: int)
    requires
        is_floor_sqrt(whole, distance_squared(a, b)),
    ensures
        closer_than(a, b, separation) <==> separation > 0 && whole < separation,
{
    if separation > 0 {
        lemma_floor_sqrt_below(whole, distance_squared(a, b), separation);
    }
}

/// The squared distance does not depend on the order of the two points.
pub proof fn lemma_distance_symmetric(a: Point, b: Point)
    ensures
        distance_squared(a, b) == distance_squared(b, a),
{
    assert((b.x - a.x) * (b.x - a.x) == (a.x - b.x) * (a.x - b.x)) by (nonlinear_arith);
    assert((b.y - a.y) * (b.y - a.y) == (a.y - b.y) * (a.y - b.y)) by (nonlinear_arith);
}

/// A point is at distance zero from itself, and only from itself.
pub proof fn lemma_distance_zero(a: Point, b: Point)
    ensures
        distance_squared(a, a) == 0,
        distance_squared(a, b) >= 0,
        distance_squared(a, b) == 0 <==> a == b,
{
    let dx = b.x - a.x;
    let dy = b.y - a.y;
    assert(dx * dx >= 0 && (dx * dx == 0 <==> dx == 0)) by (nonlinear_arith);
    assert(dy * dy >= 0 && (dy * dy == 0 <==> dy == 0)) by (nonlinear_arith);
}

/// The squared distance between two points fits in 66 bits.
pub proof fn lemma_distance_squared_bound(a: Point, b: Point)
    ensures
        0 <= distance_squared(a, b) <= 2 * 0xFFFF_FFFF * 0xFFFF_FFFF,
{
    let dx = b.x - a.x;
    let dy = b.y - a.y;
    assert(0 <= dx * dx <= 0xFFFF_FFFF * 0xFFFF_FFFF) by (nonlinear_arith)
        requires
            -0xFFFF_FFFF <= dx <= 0xFFFF_FFFF,
    ;
    assert(0 <= dy * dy <= 0xFFFF_FFFF * 0xFFFF_FFFF) by (nonlinear_arith)
        requires
            -0xFFFF_FFFF <= dy <= 0xFFFF_FFFF,
    ;
}

/// The square root of `n`, rounded down.
pub fn floor_sqrt(n: u128) -> (root: u64)
    requires
        n < 0x1_0000_0000_0000_0000_0000,
    ensures
        is_floor_sqrt(root as int, n as int),
{
    let mut low: u128 = 0;
    let mut high: u128 = 0x100_0000_0000;
    assert(0x100_0000_0000 * 0x100_0000_0000 == 0x1_0000_0000_0000_0000_0000) by (nonlinear_arith);
    while high - low > 1
        invariant
            low < high <= 0x100_0000_0000,
            low * low <= n,
            n < high * high,
        decreases high - low,
    {
        let middle: u128 = low + (high - low) / 2;
        assert(middle * middle <= 0x100_0000_0000 * 0x100_0000_0000) by {
            lemma_square_monotonic(middle as int, 0x100_0000_0000);
        }
        if middle * middle <= n {
            low = middle;
        } else {
            high = middle;
        }
    }
    low as u64
}

impl Point {
    /// The point with the given coordinates.
    pub fn new(x: i32, y: i32) -> (point: Point)
        ensures
            point.x == x,
            point.y == y,
    {
        Point { x, y }
    }

    /// The point whose coordinates are both zero.
    pub fn origin() -> (point: Point)
        ensures
            point.x == 0,
            point.y == 0,
    {
        Point::new(0, 0)
    }

    /// The exact squared Euclidean distance to `other`.
    pub fn distance_squared(&self, other: &Point) -> (squared: u128)
        ensures
            squared == distance_squared(*self, *other),
    {
        let dx: i128 = other.x as i128 - self.x as i128;
        let dy: i128 = other.y as i128 - self.y as i128;
        proof {
            lemma_distance_squared_bound(*self, *other);
            assert(0 <= dx * dx <= 0xFFFF_FFFF * 0xFFFF_FFFF) by (nonlinear_arith)
                requires
                    -0xFFFF_FFFF <= dx <= 0xFFFF_FFFF,
            ;
            assert(0 <= dy * dy <= 0xFFFF_FFFF * 0xFFFF_FFFF) by (nonlinear_arith)
                requires
                    -0xFFFF_FFFF <= dy <= 0xFFFF_FFFF,
            ;
        }
        (dx * dx + dy * dy) as u128
    }

    /// The Euclidean distance to `other`, rounded down to whole lattice units.
    pub fn distance(&self, other: &Point) -> (whole: u64)
        ensures
            is_floor_sqrt(whole as int, distance_squared(*self, *other)),
    {
        proof {
            lemma_distance_squared_bound(*self, *other);
        }
        floor_sqrt(self.distance_squared(other))
    }

    /// Whether `other` lies strictly closer than `separation`: a point at
    /// exactly that distance is not closer.
    pub fn is_closer_than(&self, other: &Point, separation: i32) -> (closer: bool)
        ensures
            closer == closer_than(*self, *other, separation as int),
    {
        if separation <= 0 {
            proof {
                lemma_distance_zero(*self, *other);
            }
            return false;
        }
        let bound: u128 = separation as u128;
        assert(bound * bound <= 0x7FFF_FFFF * 0x7FFF_FFFF) by (nonlinear_arith)
            requires
                0 <= bound <= 0x7FFF_FFFF,
        ;
        self.distance_squared(other) < bound * bound
    }

    /// The point that `offset` leads to, or `None` when a coordinate of that
    /// point does not fit the lattice.
    pub fn translated(&self, offset: Offset) -> (moved: Option<Point>)
        ensures
            moved == proposal(*self, offset),
    {
        match (self.x.checked_add(offset.dx), self.y.checked_add(offset.dy)) {
            (Some(x), Some(y)) => Some(Point { x, y }),
            _ => None,
        }
    }

    /// Whether the point lies in the rectangle `[0, width) x [0, height)`:
    /// x is held against `width` and y against `height`.
    pub fn is_in_rectangle(&self, width: i32, height: i32) -> (inside: bool)
        ensures
            inside == in_rectangle(*self, width as int, height as int),
    {
        0 <= self.x && self.x < width && 0 <= self.y && self.y < height
    }
}

} // verus!
