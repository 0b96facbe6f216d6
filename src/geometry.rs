use crate::fixed::{within, Vec2};
use vstd::arithmetic::mul::{lemma_mul_is_associative, lemma_mul_is_distributive_add_other_way};
use vstd::prelude::*;

verus! {

/// Largest magnitude of a world-space triangle coordinate.
pub const WORLD_LIMIT: i64 = 0x400_0000_0000;

/// Largest magnitude of a projection axis component.
pub const AXIS_LIMIT: i128 = 0x1000_0000_0000;

/// A triangle in world coordinates.
#[derive(Clone, Copy, Debug, PartialEq, Eq)]
pub struct Triangle {
    pub a: Vec2,
    pub b: Vec2,
    pub c: Vec2,
}

/// All corners of `t` lie within the world coordinate range.
pub open spec fn triangle_in_world(t: Triangle) -> bool {
    within(t.a, WORLD_LIMIT as int) && within(t.b, WORLD_LIMIT as int) && within(
        t.c,
        WORLD_LIMIT as int,
    )
}

pub open spec fn min3(a: int, b: int, c: int) -> int {
    if a <= b && a <= c {
        a
    } else if b <= c {
        b
    } else {
        c
    }
}

pub open spec fn max3(a: int, b: int, c: int) -> int {
    if a >= b && a >= c {
        a
    } else if b >= c {
        b
    } else {
        c
    }
}

/// Projection of `v` onto the axis `(nx, ny)`.
pub open spec fn dot(v: Vec2, nx: int, ny: int) -> int {
    v.x * nx + v.y * ny
}

/// Lowest projection of a corner of `t` onto the axis.
pub open spec fn proj_lo(t: Triangle, nx: int, ny: int) -> int {
    min3(dot(t.a, nx, ny), dot(t.b, nx, ny), dot(t.c, nx, ny))
}

/// Highest projection of a corner of `t` onto the axis.
pub open spec fn proj_hi(t: Triangle, nx: int, ny: int) -> int {
    max3(dot(t.a, nx, ny), dot(t.b, nx, ny), dot(t.c, nx, ny))
}

/// The projections of `s` and `t` onto the axis share at least one value.
pub open spec fn overlap_on(s: Triangle, t: Triangle, nx: int, ny: int) -> bool {
    proj_lo(s, nx, ny) <= proj_hi(t, nx, ny) && proj_lo(t, nx, ny) <= proj_hi(s, nx, ny)
}

/// The axis-aligned bounding boxes of `s` and `t` overlap (edges touching count).
pub open spec fn boxes_overlap(s: Triangle, t: Triangle) -> bool {
    overlap_on(s, t, 1, 0) && overlap_on(s, t, 0, 1)
}

/// The projections overlap on the normal of the edge from `p` to `q`.
pub open spec fn overlap_on_edge(s: Triangle, t: Triangle, p: Vec2, q: Vec2) -> bool {
    overlap_on(s, t, p.y - q.y, q.x - p.x)
}

/// No edge normal of either triangle separates them.
pub open spec fn no_separating_edge(s: Triangle, t: Triangle) -> bool {
    &&& overlap_on_edge(s, t, s.a, s.b)
    &&& overlap_on_edge(s, t, s.b, s.c)
    &&& overlap_on_edge(s, t, s.c, s.a)
    &&& overlap_on_edge(s, t, t.a, t.b)
    &&& overlap_on_edge(s, t, t.b, t.c)
    &&& overlap_on_edge(s, t, t.c, t.a)
}

/// `(px / w, py / w)` is the convex combination of the corners of `t`
/// with weights `l0 / w`, `l1 / w`, `l2 / w`.
pub open spec fn weighs_to(t: Triangle, l0: int, l1: int, l2: int, px: int, py: int) -> bool {
    &&& l0 >= 0 && l1 >= 0 && l2 >= 0
    &&& l0 + l1 + l2 > 0
    &&& l0 * t.a.x + l1 * t.b.x + l2 * t.c.x == px
    &&& l0 * t.a.y + l1 * t.b.y + l2 * t.c.y == py
}

/// The point `(px / w, py / w)` lies in `t`, boundary included.
pub open spec fn holds_point(t: Triangle, px: int, py: int, w: int) -> bool {
    exists|l0: int, l1: int, l2: int|
        #![trigger weighs_to(t, l0, l1, l2, px, py)]
        l0 + l1 + l2 == w && weighs_to(t, l0, l1, l2, px, py)
}

/// `s` and `t` share at least one point of the plane (a rational one, as
/// both have integer corners).
pub open spec fn triangles_meet(s: Triangle, t: Triangle) -> bool {
    exists|px: int, py: int, w: int|
        #![trigger holds_point(s, px, py, w), holds_point(t, px, py, w)]
        holds_point(s, px, py, w) && holds_point(t, px, py, w)
}

proof fn lemma_scale_sum3(l0: int, l1: int, l2: int, a: int, b: int, c: int, n: int)
    ensures
        (l0 * a + l1 * b + l2 * c) * n == l0 * (a * n) + l1 * (b * n) + l2 * (c * n),
{
    lemma_mul_is_distributive_add_other_way(n, l0 * a + l1 * b, l2 * c);
    lemma_mul_is_distributive_add_other_way(n, l0 * a, l1 * b);
    lemma_mul_is_associative(l0, a, n);
    lemma_mul_is_associative(l1, b, n);
    lemma_mul_is_associative(l2, c, n);
}

/// A point of a triangle projects between the projections of its corners.
pub proof fn lemma_point_projects_inside(
    t: Triangle,
    l0: int,
    l1: int,
    l2: int,
    px: int,
    py: int,
    nx: int,
    ny: int,
)
    requires
        weighs_to(t, l0, l1, l2, px, py),
    ensures
        (l0 + l1 + l2) * proj_lo(t, nx, ny) <= px * nx + py * ny,
        px * nx + py * ny <= (l0 + l1 + l2) * proj_hi(t, nx, ny),
{
    let (da, db, dc) = (dot(t.a, nx, ny), dot(t.b, nx, ny), dot(t.c, nx, ny));
    let (ax, bx, cx) = (t.a.x as int, t.b.x as int, t.c.x as int);
    let (ay, by, cy) = (t.a.y as int, t.b.y as int, t.c.y as int);
    lemma_scale_sum3(l0, l1, l2, ax, bx, cx, nx);
    lemma_scale_sum3(l0, l1, l2, ay, by, cy, ny);
    assert(l0 * da == l0 * (ax * nx) + l0 * (ay * ny)) by (nonlinear_arith)
        requires
            da == ax * nx + ay * ny,
    ;
    assert(l1 * db == l1 * (bx * nx) + l1 * (by * ny)) by (nonlinear_arith)
        requires
            db == bx * nx + by * ny,
    ;
    assert(l2 * dc == l2 * (cx * nx) + l2 * (cy * ny)) by (nonlinear_arith)
        requires
            dc == cx * nx + cy * ny,
    ;
    let lo = proj_lo(t, nx, ny);
    let hi = proj_hi(t, nx, ny);
    assert(lo <= da && lo <= db && lo <= dc && da <= hi && db <= hi && dc <= hi);
    assert((l0 + l1 + l2) * lo <= l0 * da + l1 * db + l2 * dc <= (l0 + l1 + l2) * hi)
        by (nonlinear_arith)
        requires
            l0 >= 0,
            l1 >= 0,
            l2 >= 0,
            lo <= da,
            lo <= db,
            lo <= dc,
            da <= hi,
            db <= hi,
            dc <= hi,
    ;
}

/// Triangles that share a point overlap in their projections onto every axis.
pub proof fn lemma_meet_overlaps_on_every_axis(s: Triangle, t: Triangle, nx: int, ny: int)
    requires
        triangles_meet(s, t),
    ensures
        overlap_on(s, t, nx, ny),
{
    let (px, py, w) = choose|px: int, py: int, w: int|
        holds_point(s, px, py, w) && holds_point(t, px, py, w);
    let (s0, s1, s2) = choose|l0: int, l1: int, l2: int|
        l0 + l1 + l2 == w && weighs_to(s, l0, l1, l2, px, py);
    let (t0, t1, t2) = choose|l0: int, l1: int, l2: int|
        l0 + l1 + l2 == w && weighs_to(t, l0, l1, l2, px, py);
    lemma_point_projects_inside(s, s0, s1, s2, px, py, nx, ny);
    lemma_point_projects_inside(t, t0, t1, t2, px, py, nx, ny);
    let p = px * nx + py * ny;
    let (slo, shi) = (proj_lo(s, nx, ny), proj_hi(s, nx, ny));
    let (tlo, thi) = (proj_lo(t, nx, ny), proj_hi(t, nx, ny));
    assert(slo <= thi && tlo <= shi) by (nonlinear_arith)
        requires
            w > 0,
            w * slo <= p <= w * shi,
            w * tlo <= p <= w * thi,
    ;
}

/// Broad-phase soundness: triangles that truly intersect have overlapping
/// bounding boxes, so the box test never discards a real intersection.
pub proof fn lemma_broad_phase_sound(s: Triangle, t: Triangle)
    requires
        triangles_meet(s, t),
    ensures
        boxes_overlap(s, t),
{
    lemma_meet_overlaps_on_every_axis(s, t, 1, 0);
    lemma_meet_overlaps_on_every_axis(s, t, 0, 1);
}

/// Narrow-phase soundness: triangles that truly intersect are never separated
/// by an edge normal.
pub proof fn lemma_narrow_phase_sound(s: Triangle, t: Triangle)
    requires
        triangles_meet(s, t),
    ensures
        no_separating_edge(s, t),
{
    lemma_meet_overlaps_on_every_axis(s, t, s.a.y - s.b.y, s.b.x - s.a.x);
    lemma_meet_overlaps_on_every_axis(s, t, s.b.y - s.c.y, s.c.x - s.b.x);
    lemma_meet_overlaps_on_every_axis(s, t, s.c.y - s.a.y, s.a.x - s.c.x);
    lemma_meet_overlaps_on_every_axis(s, t, t.a.y - t.b.y, t.b.x - t.a.x);
    lemma_meet_overlaps_on_every_axis(s, t, t.b.y - t.c.y, t.c.x - t.b.x);
    lemma_meet_overlaps_on_every_axis(s, t, t.c.y - t.a.y, t.a.x - t.c.x);
}

/// Projection of a world point onto an axis.
fn project(v: Vec2, nx: i128, ny: i128) -> (r: i128)
    requires
        within(v, WORLD_LIMIT as int),
        -AXIS_LIMIT <= nx <= AXIS_LIMIT,
        -AXIS_LIMIT <= ny <= AXIS_LIMIT,
    ensures
        r == dot(v, nx as int, ny as int),
{
    let (x, y) = (v.x as i128, v.y as i128);
    assert(-WORLD_LIMIT * AXIS_LIMIT <= x * nx <= WORLD_LIMIT * AXIS_LIMIT) by (nonlinear_arith)
        requires
            -WORLD_LIMIT <= x <= WORLD_LIMIT,
            -AXIS_LIMIT <= nx <= AXIS_LIMIT,
    ;
    assert(-WORLD_LIMIT * AXIS_LIMIT <= y * ny <= WORLD_LIMIT * AXIS_LIMIT) by (nonlinear_arith)
        requires
            -WORLD_LIMIT <= y <= WORLD_LIMIT,
            -AXIS_LIMIT <= ny <= AXIS_LIMIT,
    ;
    x * nx + y * ny
}

fn min_of3(a: i128, b: i128, c: i128) -> (r: i128)
    ensures
        r == min3(a as int, b as int, c as int),
{
    if a <= b && a <= c {
        a
    } else if b <= c {
        b
    } else {
        c
    }
}

fn max_of3(a: i128, b: i128, c: i128) -> (r: i128)
    ensures
        r == max3(a as int, b as int, c as int),
{
    if a >= b && a >= c {
        a
    } else if b >= c {
        b
    } else {
        c
    }
}

/// Whether the projections of `s` and `t` onto the axis `(nx, ny)` overlap.
pub fn overlaps_on_axis(s: &Triangle, t: &Triangle, nx: i128, ny: i128) -> (r: bool)
    requires
        triangle_in_world(*s),
        triangle_in_world(*t),
        -AXIS_LIMIT <= nx <= AXIS_LIMIT,
        -AXIS_LIMIT <= ny <= AXIS_LIMIT,
    ensures
        r == overlap_on(*s, *t, nx as int, ny as int),
{
    let slo = min_of3(project(s.a, nx, ny), project(s.b, nx, ny), project(s.c, nx, ny));
    let shi = max_of3(project(s.a, nx, ny), project(s.b, nx, ny), project(s.c, nx, ny));
    let tlo = min_of3(project(t.a, nx, ny), project(t.b, nx, ny), project(t.c, nx, ny));
    let thi = max_of3(project(t.a, nx, ny), project(t.b, nx, ny), project(t.c, nx, ny));
    slo <= thi && tlo <= shi
}

/// Broad phase: whether the bounding boxes of `s` and `t` overlap.
pub fn boxes_overlap_exec(s: &Triangle, t: &Triangle) -> (r: bool)
    requires
        triangle_in_world(*s),
        triangle_in_world(*t),
    ensures
        r == boxes_overlap(*s, *t),
{
    overlaps_on_axis(s, t, 1, 0) && overlaps_on_axis(s, t, 0, 1)
}

fn overlaps_on_edge(s: &Triangle, t: &Triangle, p: Vec2, q: Vec2) -> (r: bool)
    requires
        triangle_in_world(*s),
        triangle_in_world(*t),
        within(p, WORLD_LIMIT as int),
        within(q, WORLD_LIMIT as int),
    ensures
        r == overlap_on_edge(*s, *t, p, q),
{
    let nx = p.y as i128 - q.y as i128;
    let ny = q.x as i128 - p.x as i128;
    overlaps_on_axis(s, t, nx, ny)
}

/// Narrow phase: the separating-axis test over the six edge normals.
pub fn triangles_intersect(s: &Triangle, t: &Triangle) -> (r: bool)
    requires
        triangle_in_world(*s),
        triangle_in_world(*t),
    ensures
        r == no_separating_edge(*s, *t),
        triangles_meet(*s, *t) ==> r,
{
    proof {
        if triangles_meet(*s, *t) {
            lemma_narrow_phase_sound(*s, *t);
        }
    }
    overlaps_on_edge(s, t, s.a, s.b) && overlaps_on_edge(s, t, s.b, s.c) && overlaps_on_edge(
        s,
        t,
        s.c,
        s.a,
    ) && overlaps_on_edge(s, t, t.a, t.b) && overlaps_on_edge(s, t, t.b, t.c) && overlaps_on_edge(
        s,
        t,
        t.c,
        t.a,
    )
}

} // verus!
