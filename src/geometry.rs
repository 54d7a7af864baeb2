use vstd::prelude::*;

verus! {

/// Largest absolute value a coordinate of the arena may take.
pub const COORD_LIMIT: i64 = 0x4000_0000;

/// Largest radius a body may have.
pub const RADIUS_LIMIT: i64 = 0x4000_0000;

/// A point or displacement on the integer grid of the arena.
#[derive(Clone, Copy, Debug, PartialEq, Eq, Structural)]
pub struct Point {
    pub x: i64,
    pub y: i64,
}

pub open spec fn coord_ok(v: int) -> bool {
    -COORD_LIMIT <= v <= COORD_LIMIT
}

impl Point {
    /// Both coordinates lie inside the arena.
    pub open spec fn in_arena(self) -> bool {
        coord_ok(self.x as int) && coord_ok(self.y as int)
    }
}

/// The square of the Euclidean distance between `a` and `b`.
pub open spec fn dist_sq(a: Point, b: Point) -> int {
    (b.x - a.x) * (b.x - a.x) + (b.y - a.y) * (b.y - a.y)
}

/// The dot product of `b - a` and `d - c`.
pub open spec fn dot(a: Point, b: Point, c: Point, d: Point) -> int {
    (b.x - a.x) * (d.x - c.x) + (b.y - a.y) * (d.y - c.y)
}

/// Two circles touch or overlap: the distance of their centres is at most the
/// sum of their radii.
pub open spec fn circles_touch(a: Point, ra: int, b: Point, rb: int) -> bool {
    dist_sq(a, b) <= (ra + rb) * (ra + rb)
}

/// The point of the segment from `a` to `b` that is closest to `c` lies within
/// distance `r` of `c`.
///
/// With `t = (c - a)·(b - a)` and `len = |b - a|²`, the closest point is `a` when
/// `t <= 0`, `b` when `t >= len`, and otherwise the foot of the perpendicular,
/// whose squared distance to `c` is `|c - a|² - t² / len`; the last case is
/// compared after multiplying through by `len`.
pub open spec fn segment_within(a: Point, b: Point, c: Point, r: int) -> bool {
    let len = dist_sq(a, b);
    let t = dot(a, c, a, b);
    if len == 0 || t <= 0 {
        dist_sq(a, c) <= r * r
    } else if t >= len {
        dist_sq(b, c) <= r * r
    } else {
        dist_sq(a, c) * len - t * t <= r * r * len
    }
}

proof fn lemma_square_bound(v: int, m: int)
    requires
        -m <= v <= m,
    ensures
        0 <= v * v <= m * m,
{
    assert(0 <= v * v <= m * m) by (nonlinear_arith)
        requires
            -m <= v <= m,
    ;
}

/// Exact `dist_sq` of two points of the arena.
pub fn distance_squared(a: Point, b: Point) -> (r: i128)
    requires
        a.in_arena(),
        b.in_arena(),
    ensures
        r == dist_sq(a, b),
        0 <= r <= 0x8000_0000_0000_0000i128,
{
    let dx: i128 = b.x as i128 - a.x as i128;
    let dy: i128 = b.y as i128 - a.y as i128;
    proof {
        lemma_square_bound(dx as int, 2 * COORD_LIMIT);
        lemma_square_bound(dy as int, 2 * COORD_LIMIT);
    }
    dx * dx + dy * dy
}

/// Whether two circles of the arena touch or overlap.
pub fn circles_overlap(a: Point, ra: i64, b: Point, rb: i64) -> (r: bool)
    requires
        a.in_arena(),
        b.in_arena(),
        0 <= ra <= RADIUS_LIMIT,
        0 <= rb <= RADIUS_LIMIT,
    ensures
        r == circles_touch(a, ra as int, b, rb as int),
{
    let d = distance_squared(a, b);
    let s: i128 = ra as i128 + rb as i128;
    proof {
        lemma_square_bound(s as int, 2 * RADIUS_LIMIT);
    }
    d <= s * s
}

/// Whether the segment from `a` to `b` passes within distance `r` of `c`.
pub fn segment_near(a: Point, b: Point, c: Point, r: i64) -> (res: bool)
    requires
        a.in_arena(),
        b.in_arena(),
        c.in_arena(),
        0 <= r <= 2 * RADIUS_LIMIT,
    ensures
        res == segment_within(a, b, c, r as int),
{
    let len = distance_squared(a, b);
    let ac = distance_squared(a, c);
    let rr: i128 = r as i128;
    proof {
        lemma_square_bound(rr as int, 2 * RADIUS_LIMIT);
    }
    let r2 = rr * rr;
    let ux: i128 = b.x as i128 - a.x as i128;
    let uy: i128 = b.y as i128 - a.y as i128;
    let vx: i128 = c.x as i128 - a.x as i128;
    let vy: i128 = c.y as i128 - a.y as i128;
    proof {
        let m = 2 * COORD_LIMIT;
        assert(-m * m <= vx * ux <= m * m) by (nonlinear_arith)
            requires
                -m <= vx <= m,
                -m <= ux <= m,
                m > 0,
        ;
        assert(-m * m <= vy * uy <= m * m) by (nonlinear_arith)
            requires
                -m <= vy <= m,
                -m <= uy <= m,
                m > 0,
        ;
    }
    let t = vx * ux + vy * uy;
    if len == 0 || t <= 0 {
        ac <= r2
    } else if t >= len {
        distance_squared(b, c) <= r2
    } else {
        proof {
            let big: int = 0x8000_0000_0000_0000;
            assert(0 <= ac * len <= big * big) by (nonlinear_arith)
                requires
                    0 <= ac <= big,
                    0 <= len <= big,
            ;
            assert(0 <= t * t <= big * big) by (nonlinear_arith)
                requires
                    0 < t < len,
                    len <= big,
            ;
            let rl: int = 0x4000_0000_0000_0000;
            assert(0 <= r2 * len <= rl * big) by (nonlinear_arith)
                requires
                    0 <= r2 <= rl,
                    0 <= len <= big,
            ;
        }
        ac * len - t * t <= r2 * len
    }
}

/// `r` is the integer square root of `n`.
pub open spec fn is_root(n: int, r: int) -> bool {
    0 <= r && r * r <= n < (r + 1) * (r + 1)
}

/// The integer square root of a non-negative `n` (the floor of its real root).
pub open spec fn int_sqrt(n: int) -> int {
    choose|r: int| is_root(n, r)
}

proof fn lemma_root_unique(n: int, a: int, b: int)
    requires
        is_root(n, a),
        is_root(n, b),
    ensures
        a == b,
{
    if a < b {
        assert((a + 1) * (a + 1) <= b * b) by (nonlinear_arith)
            requires
                0 <= a,
                a + 1 <= b,
        ;
    } else if b < a {
        assert((b + 1) * (b + 1) <= a * a) by (nonlinear_arith)
            requires
                0 <= b,
                b + 1 <= a,
        ;
    }
}

/// Every non-negative number has an integer square root.
pub proof fn lemma_root_exists(n: int)
    requires
        0 <= n,
    ensures
        is_root(n, int_sqrt(n)),
    decreases n,
{
    if n == 0 {
        assert(is_root(0, 0));
    } else {
        lemma_root_exists(n - 1);
        let r = int_sqrt(n - 1);
        if (r + 1) * (r + 1) <= n {
            assert((r + 1) * (r + 1) == n);
            assert(n < (r + 2) * (r + 2)) by (nonlinear_arith)
                requires
                    (r + 1) * (r + 1) == n,
                    0 <= r,
            ;
            assert(is_root(n, r + 1));
        } else {
            assert(is_root(n, r));
        }
    }
}

/// The integer square root: the largest `r` with `r * r <= n`.
pub fn isqrt(n: u64) -> (r: u64)
    ensures
        is_root(n as int, r as int),
        r as int == int_sqrt(n as int),
        r <= 0xFFFF_FFFF,
{
    let mut lo: u64 = 0;
    let mut hi: u64 = 0x1_0000_0000;
    assert(hi * hi == 0x1_0000_0000_0000_0000int) by (nonlinear_arith)
        requires
            hi == 0x1_0000_0000int,
    ;
    while hi - lo > 1
        invariant
            lo < hi <= 0x1_0000_0000,
            lo * lo <= n,
            n < hi * hi,
        decreases hi - lo,
    {
        let mid: u64 = lo + (hi - lo) / 2;
        assert(mid * mid <= 0x1_0000_0000_0000_0000int) by (nonlinear_arith)
            requires
                0 <= mid <= 0x1_0000_0000int,
        ;
        let sq: u128 = mid as u128 * mid as u128;
        if sq <= n as u128 {
            lo = mid;
        } else {
            hi = mid;
        }
    }
    proof {
        assert(is_root(n as int, lo as int));
        lemma_root_unique(n as int, lo as int, int_sqrt(n as int));
    }
    lo
}

} // verus!
