use vstd::prelude::*;

use crate::collision::{all_wf, Body, BodyKind, MAX_BODIES};
use crate::geometry::{dist_sq, distance_squared, int_sqrt, is_root, isqrt, Point, COORD_LIMIT};

verus! {

/// Extra gap, beyond the sum of the radii, that separation tries to keep.
pub const SEPARATION_MARGIN: i64 = 2;

/// Largest separation force per tick.
pub const FORCE_LIMIT: i64 = 0x10_0000;

/// Bodies that push each other apart: the player and the enemies.
pub open spec fn pushes(k: BodyKind) -> bool {
    k == BodyKind::Player || k == BodyKind::Enemy
}

/// `v * k / d` rounded toward zero, for `d > 0` and `k >= 0`.
pub open spec fn scale(v: int, k: int, d: int) -> int {
    if v >= 0 {
        v * k / d
    } else {
        -((-v) * k / d)
    }
}

/// How far body `i` is pushed along its line to body `j` this tick: `force`
/// scaled by how deep the overlap is, or 0 when the pair does not push.
pub open spec fn push_strength(bodies: Seq<Body>, i: int, j: int, force: int) -> int {
    let min = bodies[i].radius + bodies[j].radius + SEPARATION_MARGIN;
    let d = int_sqrt(dist_sq(bodies[j].pos, bodies[i].pos));
    if i == j || !pushes(bodies[i].kind) || !pushes(bodies[j].kind) || d >= min {
        0
    } else {
        force * (min - d) / min
    }
}

/// The displacement body `i` receives from body `j`: along the direction from
/// `j` to `i`, of length about `push_strength`. Coincident bodies are split
/// along the x axis, the lower index to the left.
pub open spec fn push_on(bodies: Seq<Body>, i: int, j: int, force: int) -> (int, int) {
    let k = push_strength(bodies, i, j, force);
    let vx = bodies[i].pos.x - bodies[j].pos.x;
    let vy = bodies[i].pos.y - bodies[j].pos.y;
    let d = int_sqrt(dist_sq(bodies[j].pos, bodies[i].pos));
    if d == 0 {
        (if i < j { -k } else { k }, 0)
    } else {
        (scale(vx, k, d), scale(vy, k, d))
    }
}

/// Sum of the displacements body `i` receives from bodies `0..end`.
pub open spec fn push_total(bodies: Seq<Body>, i: int, end: int, force: int) -> (int, int)
    decreases end,
{
    if end <= 0 {
        (0, 0)
    } else {
        let prev = push_total(bodies, i, end - 1, force);
        let p = push_on(bodies, i, end - 1, force);
        (prev.0 + p.0, prev.1 + p.1)
    }
}

proof fn lemma_scale_bound(v: int, k: int, d: int)
    requires
        0 < d,
        0 <= k,
        -d <= v <= d,
    ensures
        -k <= scale(v, k, d) <= k,
{
    if v >= 0 {
        assert(0 <= v * k <= d * k) by (nonlinear_arith)
            requires
                0 <= v <= d,
                0 <= k,
        ;
        assert(v * k / d <= k) by (nonlinear_arith)
            requires
                0 <= v * k <= d * k,
                0 < d,
        ;
        assert(0 <= v * k / d) by (nonlinear_arith)
            requires
                0 <= v * k,
                0 < d,
        ;
    } else {
        let w = -v;
        assert(0 <= w * k <= d * k) by (nonlinear_arith)
            requires
                0 <= w <= d,
                0 <= k,
        ;
        assert(w * k / d <= k) by (nonlinear_arith)
            requires
                0 <= w * k <= d * k,
                0 < d,
        ;
        assert(0 <= w * k / d) by (nonlinear_arith)
            requires
                0 <= w * k,
                0 < d,
        ;
    }
}

pub proof fn lemma_component_le_root(v: int, w: int, d: int)
    requires
        is_root(v * v + w * w, d),
    ensures
        -d <= v <= d,
{
    assert(v * v <= v * v + w * w) by (nonlinear_arith);
    if v > d {
        assert((d + 1) * (d + 1) <= v * v) by (nonlinear_arith)
            requires
                0 <= d,
                d + 1 <= v,
        ;
    }
    if v < -d {
        assert((d + 1) * (d + 1) <= v * v) by (nonlinear_arith)
            requires
                0 <= d,
                v <= -d - 1,
        ;
    }
}

/// Scales `v` by `k / d`, rounding toward zero.
pub fn scale_exec(v: i64, k: i64, d: i64) -> (r: i64)
    requires
        0 < d,
        0 <= k <= FORCE_LIMIT,
        -d <= v <= d,
        d <= 0x1_0000_0000,
    ensures
        r == scale(v as int, k as int, d as int),
        -k <= r <= k,
{
    proof {
        lemma_scale_bound(v as int, k as int, d as int);
    }
    if v >= 0 {
        assert(0 <= v * k <= 0x1_0000_0000 * FORCE_LIMIT) by (nonlinear_arith)
            requires
                0 <= v <= 0x1_0000_0000,
                0 <= k <= FORCE_LIMIT,
        ;
        v * k / d
    } else {
        let w: i64 = -v;
        assert(0 <= w * k <= 0x1_0000_0000 * FORCE_LIMIT) by (nonlinear_arith)
            requires
                0 <= w <= 0x1_0000_0000,
                0 <= k <= FORCE_LIMIT,
        ;
        -(w * k / d)
    }
}

/// The displacement body `i` receives from body `j`.
pub fn pair_push(bodies: &Vec<Body>, i: usize, j: usize, force: i64) -> (r: Point)
    requires
        all_wf(bodies@),
        i < bodies@.len(),
        j < bodies@.len(),
        0 <= force <= FORCE_LIMIT,
    ensures
        (r.x as int, r.y as int) == push_on(bodies@, i as int, j as int, force as int),
        -force <= r.x <= force,
        -force <= r.y <= force,
{
    let a = &bodies[i];
    let b = &bodies[j];
    assert(a.wf() && b.wf());
    let dsq = distance_squared(b.pos, a.pos);
    let d = isqrt(dsq as u64) as i64;
    let min: i64 = a.radius + b.radius + SEPARATION_MARGIN;
    let pushes_a = match a.kind {
        BodyKind::Player | BodyKind::Enemy => true,
        _ => false,
    };
    let pushes_b = match b.kind {
        BodyKind::Player | BodyKind::Enemy => true,
        _ => false,
    };
    let k: i64 = if i == j || !pushes_a || !pushes_b || d >= min {
        0
    } else {
        assert(0 <= force * (min - d) <= FORCE_LIMIT * min) by (nonlinear_arith)
            requires
                0 <= force <= FORCE_LIMIT,
                0 < min - d <= min,
        ;
        assert(force * (min - d) <= force * min) by (nonlinear_arith)
            requires
                0 <= force,
                min - d <= min,
        ;
        proof {
            let f = force as int;
            let m = min as int;
            let e = (min - d) as int;
            assert(f * e / m <= f) by (nonlinear_arith)
                requires
                    0 <= f * e <= f * m,
                    0 < m,
            ;
        }
        force * (min - d) / min
    };
    assert(k == push_strength(bodies@, i as int, j as int, force as int));
    assert(0 <= k <= force);
    let vx: i64 = a.pos.x - b.pos.x;
    let vy: i64 = a.pos.y - b.pos.y;
    if d == 0 {
        if i < j {
            Point { x: -k, y: 0 }
        } else {
            Point { x: k, y: 0 }
        }
    } else {
        proof {
            assert(dist_sq(b.pos, a.pos) == vx * vx + vy * vy);
            assert(vy * vy + vx * vx == vx * vx + vy * vy);
            lemma_component_le_root(vx as int, vy as int, d as int);
            lemma_component_le_root(vy as int, vx as int, d as int);
        }
        Point { x: scale_exec(vx, k, d), y: scale_exec(vy, k, d) }
    }
}

/// Separation for one tick: for every body, the sum of the pushes it receives
/// from all others, computed from the same snapshot of positions so that the
/// order in which pairs are visited cannot bias any body's result.
pub fn separation_displacements(bodies: &Vec<Body>, force: i64) -> (r: Vec<Point>)
    requires
        all_wf(bodies@),
        bodies@.len() <= MAX_BODIES,
        0 <= force <= FORCE_LIMIT,
    ensures
        r@.len() == bodies@.len(),
        forall|i: int|
            0 <= i < r@.len() ==> ((#[trigger] r@[i]).x as int, r@[i].y as int) == push_total(
                bodies@,
                i,
                bodies@.len() as int,
                force as int,
            ),
{
    let n = bodies.len();
    let mut out: Vec<Point> = Vec::new();
    let mut i: usize = 0;
    while i < n
        invariant
            n == bodies@.len(),
            n <= MAX_BODIES,
            i <= n,
            all_wf(bodies@),
            0 <= force <= FORCE_LIMIT,
            out@.len() == i,
            forall|i2: int|
                0 <= i2 < i ==> ((#[trigger] out@[i2]).x as int, out@[i2].y as int) == push_total(
                    bodies@,
                    i2,
                    n as int,
                    force as int,
                ),
        decreases n - i,
    {
        let mut sx: i64 = 0;
        let mut sy: i64 = 0;
        let mut j: usize = 0;
        while j < n
            invariant
                n == bodies@.len(),
                n <= MAX_BODIES,
                i < n,
                j <= n,
                all_wf(bodies@),
                0 <= force <= FORCE_LIMIT,
                (sx as int, sy as int) == push_total(bodies@, i as int, j as int, force as int),
                -((j as int) * (force as int)) <= sx <= (j as int) * (force as int),
                -((j as int) * (force as int)) <= sy <= (j as int) * (force as int),
            decreases n - j,
        {
            let p = pair_push(bodies, i, j, force);
            proof {
                let jj = j as int;
                let f = force as int;
                assert((jj + 1) * f == jj * f + f) by (nonlinear_arith);
                assert((jj + 1) * f <= 0x100_0000_0000) by (nonlinear_arith)
                    requires
                        0 <= jj + 1 <= 0x10_0000,
                        0 <= f <= 0x10_0000,
                ;
            }
            sx = sx + p.x;
            sy = sy + p.y;
            j = j + 1;
        }
        out.push(Point { x: sx, y: sy });
        i = i + 1;
    }
    out
}

/// Each component of a sum of pushes is bounded by `end` times the force.
pub proof fn lemma_push_total_bound(bodies: Seq<Body>, i: int, end: int, force: int)
    requires
        all_wf(bodies),
        0 <= i < bodies.len(),
        0 <= end <= bodies.len(),
        0 <= force,
    ensures
        -(end * force) <= push_total(bodies, i, end, force).0 <= end * force,
        -(end * force) <= push_total(bodies, i, end, force).1 <= end * force,
    decreases end,
{
    if end > 0 {
        lemma_push_total_bound(bodies, i, end - 1, force);
        lemma_push_on_bound(bodies, i, end - 1, force);
        assert(end * force == (end - 1) * force + force) by (nonlinear_arith);
    }
}

proof fn lemma_push_on_bound(bodies: Seq<Body>, i: int, j: int, force: int)
    requires
        all_wf(bodies),
        0 <= i < bodies.len(),
        0 <= j < bodies.len(),
        0 <= force,
    ensures
        -force <= push_on(bodies, i, j, force).0 <= force,
        -force <= push_on(bodies, i, j, force).1 <= force,
{
    let a = bodies[i];
    let b = bodies[j];
    assert(a.wf() && b.wf());
    let min = a.radius + b.radius + SEPARATION_MARGIN;
    let dsq = dist_sq(b.pos, a.pos);
    let d = int_sqrt(dsq);
    let k = push_strength(bodies, i, j, force);
    assert(0 <= dsq) by (nonlinear_arith)
        requires
            dsq == (a.pos.x - b.pos.x) * (a.pos.x - b.pos.x) + (a.pos.y - b.pos.y) * (a.pos.y - b.pos.y),
    ;
    crate::geometry::lemma_root_exists(dsq);
    if !(i == j || !pushes(a.kind) || !pushes(b.kind) || d >= min) {
        assert(0 <= force * (min - d) <= force * min) by (nonlinear_arith)
            requires
                0 <= force,
                0 < min - d <= min,
        ;
        assert(force * (min - d) / min <= force) by (nonlinear_arith)
            requires
                0 <= force * (min - d) <= force * min,
                0 < min,
        ;
        assert(0 <= force * (min - d) / min) by (nonlinear_arith)
            requires
                0 <= force * (min - d),
                0 < min,
        ;
    }
    assert(0 <= k <= force);
    if d != 0 {
        let vx = a.pos.x - b.pos.x;
        let vy = a.pos.y - b.pos.y;
        assert(dsq == vx * vx + vy * vy);
        assert(vy * vy + vx * vx == vx * vx + vy * vy);
        lemma_component_le_root(vx, vy, d);
        lemma_component_le_root(vy, vx, d);
        lemma_scale_bound(vx, k, d);
        lemma_scale_bound(vy, k, d);
    }
}

proof fn lemma_scale_sign(v: int, k: int, d: int)
    requires
        0 < d,
        0 <= k,
    ensures
        v >= 0 ==> scale(v, k, d) >= 0,
        v <= 0 ==> scale(v, k, d) <= 0,
        scale(-v, k, d) == -scale(v, k, d),
{
    if v >= 0 {
        assert(v * k >= 0) by (nonlinear_arith)
            requires
                v >= 0,
                k >= 0,
        ;
    } else {
        assert((-v) * k >= 0) by (nonlinear_arith)
            requires
                v < 0,
                k >= 0,
        ;
    }
}

/// Separation pushes the two bodies of a pair in opposite directions, each
/// away from the other, so a pushed pair never ends up closer: for two
/// distinct bodies that do not coincide, body `i`'s push is the negation of
/// body `j`'s, each of its components has the sign of `i`'s offset from
/// `j`, and moving both by their pushes does not shrink their distance.
pub proof fn lemma_pair_pushed_apart(bodies: Seq<Body>, i: int, j: int, force: int)
    requires
        all_wf(bodies),
        0 <= i < bodies.len(),
        0 <= j < bodies.len(),
        i != j,
        0 <= force,
        bodies[i].pos != bodies[j].pos,
    ensures
        ({
            let pi = push_on(bodies, i, j, force);
            let pj = push_on(bodies, j, i, force);
            let vx = bodies[i].pos.x - bodies[j].pos.x;
            let vy = bodies[i].pos.y - bodies[j].pos.y;
            &&& pi == (-pj.0, -pj.1)
            &&& pi.0 * vx >= 0 && pi.1 * vy >= 0
            &&& (vx + pi.0 - pj.0) * (vx + pi.0 - pj.0) + (vy + pi.1 - pj.1) * (vy + pi.1 - pj.1) >= vx * vx + vy * vy
        }),
{
    let a = bodies[i];
    let b = bodies[j];
    assert(a.wf() && b.wf());
    let vx = a.pos.x - b.pos.x;
    let vy = a.pos.y - b.pos.y;
    assert(dist_sq(b.pos, a.pos) == vx * vx + vy * vy);
    assert((b.pos.x - a.pos.x) * (b.pos.x - a.pos.x) + (b.pos.y - a.pos.y) * (b.pos.y - a.pos.y) == vx * vx + vy
        * vy) by (nonlinear_arith)
        requires
            vx == a.pos.x - b.pos.x,
            vy == a.pos.y - b.pos.y,
    ;
    assert(dist_sq(a.pos, b.pos) == vx * vx + vy * vy);
    assert(vx * vx + vy * vy > 0) by (nonlinear_arith)
        requires
            vx != 0 || vy != 0,
    ;
    crate::geometry::lemma_root_exists(vx * vx + vy * vy);
    let d = int_sqrt(vx * vx + vy * vy);
    assert(d > 0) by (nonlinear_arith)
        requires
            vx * vx + vy * vy < (d + 1) * (d + 1),
            vx * vx + vy * vy > 0,
            d >= 0,
    ;
    assert(push_strength(bodies, i, j, force) == push_strength(bodies, j, i, force));
    let k = push_strength(bodies, i, j, force);
    lemma_push_on_bound(bodies, i, j, force);
    assert(k >= 0) by {
        let min = a.radius + b.radius + SEPARATION_MARGIN;
        if !(i == j || !pushes(a.kind) || !pushes(b.kind) || d >= min) {
            assert(0 <= force * (min - d)) by (nonlinear_arith)
                requires
                    0 <= force,
                    0 < min - d,
            ;
            assert(0 <= force * (min - d) / min) by (nonlinear_arith)
                requires
                    0 <= force * (min - d),
                    0 < min,
            ;
        }
    }
    lemma_scale_sign(vx, k, d);
    lemma_scale_sign(vy, k, d);
    assert(b.pos.x - a.pos.x == -vx);
    assert(b.pos.y - a.pos.y == -vy);
    let px = scale(vx, k, d);
    let py = scale(vy, k, d);
    assert(px * vx >= 0) by (nonlinear_arith)
        requires
            vx >= 0 ==> px >= 0,
            vx <= 0 ==> px <= 0,
    ;
    assert(py * vy >= 0) by (nonlinear_arith)
        requires
            vy >= 0 ==> py >= 0,
            vy <= 0 ==> py <= 0,
    ;
    assert((vx + 2 * px) * (vx + 2 * px) >= vx * vx) by (nonlinear_arith)
        requires
            px * vx >= 0,
    ;
    assert((vy + 2 * py) * (vy + 2 * py) >= vy * vy) by (nonlinear_arith)
        requires
            py * vy >= 0,
    ;
}

/// Clamps a coordinate into the arena.
pub open spec fn clamp_coord(v: int) -> int {
    if v < -COORD_LIMIT {
        -COORD_LIMIT as int
    } else if v > COORD_LIMIT {
        COORD_LIMIT as int
    } else {
        v
    }
}

/// Moves `p` by `d`, stopping at the edge of the arena.
pub fn displace(p: Point, d: Point) -> (r: Point)
    requires
        p.in_arena(),
    ensures
        r.x == clamp_coord(p.x + d.x),
        r.y == clamp_coord(p.y + d.y),
        r.in_arena(),
{
    let x: i128 = p.x as i128 + d.x as i128;
    let y: i128 = p.y as i128 + d.y as i128;
    let cx: i64 = if x < -(COORD_LIMIT as i128) {
        -COORD_LIMIT
    } else if x > COORD_LIMIT as i128 {
        COORD_LIMIT
    } else {
        x as i64
    };
    let cy: i64 = if y < -(COORD_LIMIT as i128) {
        -COORD_LIMIT
    } else if y > COORD_LIMIT as i128 {
        COORD_LIMIT
    } else {
        y as i64
    };
    Point { x: cx, y: cy }
}

} // verus!
