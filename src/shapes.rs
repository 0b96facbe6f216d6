use crate::body::{Body, WrappingBehavior};
use crate::chance::random_between;
use crate::entity::{verts_ok, Bounding, Entity, EntityKind, Polygon};
use crate::body::{clamp_sum, clamped_sum};
use crate::fixed::{turn, turned, within, Vec2, LIMIT, QUARTER_TURN, TRIG_ONE, TURN, UNIT};
use crate::geometry::Triangle;
use std::sync::Arc;
use vstd::prelude::*;

verus! {

/// Ticks a fresh bullet lives.
pub const BULLET_TTL: u64 = 120;

/// Ticks a fresh piece of debris lives.
pub const DEBRIS_TTL: u64 = 30;

/// The point `(x, y)` given in whole playfield units.
pub open spec fn units(x: int, y: int) -> Vec2 {
    Vec2 { x: (x * UNIT) as i64, y: (y * UNIT) as i64 }
}

/// Outline of a bullet: a 2 by 6 rectangle centred on the origin.
pub open spec fn bullet_outline() -> Seq<Vec2> {
    seq![units(1, 3), units(1, -3), units(-1, -3), units(-1, 3)]
}

/// Hull of a bullet: the rectangle cut along its diagonal into two triangles.
pub open spec fn bullet_hull() -> Seq<Triangle> {
    seq![
        Triangle { a: units(1, 3), b: units(1, -3), c: units(-1, -3) },
        Triangle { a: units(1, 3), b: units(-1, -3), c: units(-1, 3) },
    ]
}

/// Outline of a ship, nose to the north.
pub open spec fn ship_outline() -> Seq<Vec2> {
    seq![units(0, -20), units(10, 10), units(0, 0), units(-10, 10)]
}

/// The vertex `k` of `n` placed at `radius` from the origin, at `k / n` of a turn.
pub open spec fn polar_vertex(k: int, n: int, radius: int) -> Vec2 {
    turned(Vec2 { x: 0, y: radius as i64 }, (k * TURN) / n)
}

/// The polygon whose `k`-th vertex lies at distance `radii[k]`, evenly spread
/// around a turn.
pub open spec fn polar_outline(radii: Seq<i64>) -> Seq<Vec2> {
    Seq::new(radii.len(), |k: int| polar_vertex(k, radii.len() as int, radii[k] as int))
}

/// `verts` is an outline of `n` evenly spread vertices whose distances from
/// the origin lie in `[lo, hi]`.
pub open spec fn is_rock_outline(verts: Seq<Vec2>, n: int, lo: int, hi: int) -> bool {
    exists|radii: Seq<i64>|
        #![trigger polar_outline(radii)]
        radii.len() == n && (forall|k: int| 0 <= k < n ==> lo <= #[trigger] radii[k] <= hi)
            && verts == polar_outline(radii)
}

/// The outline shown and the hull used for collisions of `e` are both the
/// polygon `verts`.
pub open spec fn has_cyclic_shape(e: Entity, verts: Seq<Vec2>) -> bool {
    &&& e.sprite_verts matches Some(p) && p.verts@ == verts
    &&& e.bounding matches Some(Bounding::CyclicTriangles { verts: v }) && v@ == verts
}

/// Number of vertices, and least and greatest radius in units, of an asteroid of `size`.
pub open spec fn asteroid_form(size: int) -> (int, int, int) {
    if size == 1 {
        (6, 20, 28)
    } else if size == 2 {
        (8, 30, 40)
    } else {
        (14, 39, 50)
    }
}

/// Forward direction for angle `a`: north turned by `a`, one unit long.
pub open spec fn heading(a: int) -> Vec2 {
    turned(Vec2 { x: 0, y: (-UNIT) as i64 }, a)
}

/// The body of a bullet fired by `firer`: twenty units ahead of it, four
/// units per tick faster along its heading, facing the same way.
pub open spec fn bullet_body(firer: Body) -> Body {
    let h = heading(firer.rotation as int);
    Body {
        position: crate::body::clamped_sum(
            firer.position,
            Vec2 { x: (h.x * 20) as i64, y: (h.y * 20) as i64 },
        ),
        velocity: crate::body::clamped_sum(
            firer.velocity,
            Vec2 { x: (h.x * 4) as i64, y: (h.y * 4) as i64 },
        ),
        rotation: firer.rotation,
        has_drag: false,
        accelerating: false,
        turning_left: false,
        turning_right: false,
    }
}

/// `e` is the bullet that `firer` fires.
pub open spec fn is_bullet_from(e: Entity, firer: Body) -> bool {
    &&& e.body == bullet_body(firer)
    &&& e.wrap == WrappingBehavior::Yes
    &&& e.kind == (EntityKind::Bullet { ttl: BULLET_TTL })
    &&& e.sprite_verts matches Some(p) && p.verts@ == bullet_outline()
    &&& e.bounding matches Some(Bounding::Triangles { triangles }) && triangles@ == bullet_hull()
}

fn at_units(x: i64, y: i64) -> (r: Vec2)
    requires
        -1000 <= x <= 1000,
        -1000 <= y <= 1000,
    ensures
        r == units(x as int, y as int),
        within(r, LIMIT as int),
{
    Vec2 { x: x * UNIT, y: y * UNIT }
}

/// The outline of a bullet.
pub fn bullet_verts() -> (r: Vec<Vec2>)
    ensures
        r@ == bullet_outline(),
        verts_ok(r@),
{
    let r = vec![at_units(1, 3), at_units(1, -3), at_units(-1, -3), at_units(-1, 3)];
    proof {
        assert(r@ =~= bullet_outline());
    }
    r
}

/// The hull of a bullet.
pub fn bullet_bounds() -> (r: Bounding)
    ensures
        r matches Bounding::Triangles { triangles } && triangles@ == bullet_hull(),
        crate::entity::bounding_ok(Some(r)),
{
    let t = vec![
        Triangle { a: at_units(1, 3), b: at_units(1, -3), c: at_units(-1, -3) },
        Triangle { a: at_units(1, 3), b: at_units(-1, -3), c: at_units(-1, 3) },
    ];
    proof {
        assert(t@ =~= bullet_hull());
    }
    Bounding::Triangles { triangles: Arc::new(t) }
}

/// The outline of a ship.
pub fn ship_verts() -> (r: Vec<Vec2>)
    ensures
        r@ == ship_outline(),
        verts_ok(r@),
{
    let r = vec![at_units(0, -20), at_units(10, 10), at_units(0, 0), at_units(-10, 10)];
    proof {
        assert(r@ =~= ship_outline());
    }
    r
}

/// The polygon whose `k`-th vertex lies at distance `radii[k]` from the
/// origin, at `k / n` of a turn clockwise from north.
pub fn polygon_from_radii(radii: &Vec<i64>) -> (r: Vec<Vec2>)
    requires
        3 <= radii@.len() <= TURN,
        forall|k: int| 0 <= k < radii@.len() ==> 0 <= #[trigger] radii@[k] <= LIMIT,
    ensures
        r@ == polar_outline(radii@),
        verts_ok(r@),
{
    let n = radii.len();
    let mut out: Vec<Vec2> = Vec::new();
    let mut k: usize = 0;
    while k < n
        invariant
            n == radii@.len(),
            3 <= n <= TURN,
            forall|j: int| 0 <= j < n ==> 0 <= #[trigger] radii@[j] <= LIMIT,
            k <= n,
            out@.len() == k,
            forall|j: int|
                0 <= j < k ==> out@[j] == polar_vertex(j, n as int, radii@[j] as int),
            verts_ok(out@),
        decreases n - k,
    {
        assert(k * TURN < n * TURN) by (nonlinear_arith)
            requires
                k < n,
        ;
        let angle = (k * (TURN as usize)) / n;
        assert(angle < TURN) by {
            vstd::arithmetic::div_mod::lemma_multiply_divide_lt(
                (k * TURN) as int,
                n as int,
                TURN as int,
            );
        }
        let v = turn(Vec2 { x: 0, y: radii[k] }, angle as u32);
        assert(within(v, LIMIT as int)) by {
            crate::fixed::lemma_trig_bounds(angle as int);
            let (c, s) = (crate::fixed::cosine(angle as int), crate::fixed::sine(angle as int));
            let rad = radii@[k as int] as int;
            assert(-LIMIT * crate::fixed::TRIG_ONE <= rad * s <= LIMIT * crate::fixed::TRIG_ONE)
                by (nonlinear_arith)
                requires
                    0 <= rad <= LIMIT,
                    -crate::fixed::TRIG_ONE <= s <= crate::fixed::TRIG_ONE,
            ;
            assert(-LIMIT * crate::fixed::TRIG_ONE <= rad * c <= LIMIT * crate::fixed::TRIG_ONE)
                by (nonlinear_arith)
                requires
                    0 <= rad <= LIMIT,
                    -crate::fixed::TRIG_ONE <= c <= crate::fixed::TRIG_ONE,
            ;
            crate::fixed::lemma_div_within(0 * c + rad * s, crate::fixed::TRIG_ONE as int, LIMIT as int);
            crate::fixed::lemma_div_within(rad * c - 0 * s, crate::fixed::TRIG_ONE as int, LIMIT as int);
        }
        out.push(v);
        k += 1;
    }
    proof {
        assert(out@ =~= polar_outline(radii@));
    }
    out
}

/// A random rock outline: `vert_count` vertices evenly spread around a turn,
/// each at a distance drawn from `[min_distance, max_distance]`.
pub fn asteroid_verts(vert_count: usize, min_distance: i64, max_distance: i64) -> (r: Vec<Vec2>)
    requires
        3 <= vert_count <= TURN,
        0 <= min_distance <= max_distance <= LIMIT,
    ensures
        is_rock_outline(r@, vert_count as int, min_distance as int, max_distance as int),
        verts_ok(r@),
{
    let mut radii: Vec<i64> = Vec::new();
    let mut k: usize = 0;
    while k < vert_count
        invariant
            k <= vert_count,
            0 <= min_distance <= max_distance <= LIMIT,
            radii@.len() == k,
            forall|j: int| 0 <= j < k ==> min_distance <= #[trigger] radii@[j] <= max_distance,
        decreases vert_count - k,
    {
        radii.push(random_between(min_distance, max_distance));
        k += 1;
    }
    let r = polygon_from_radii(&radii);
    proof {
        assert(r@ == polar_outline(radii@));
    }
    r
}

/// An entity whose outline and hull are both the polygon `verts`.
fn with_outline(body: Body, verts: Vec<Vec2>, kind: EntityKind) -> (r: Entity)
    ensures
        r.body == body,
        r.wrap == WrappingBehavior::Yes,
        r.kind == kind,
        has_cyclic_shape(r, verts@),
{
    let shared = Arc::new(verts);
    Entity {
        body,
        wrap: WrappingBehavior::Yes,
        sprite_verts: Some(Polygon { verts: shared.clone() }),
        bounding: Some(Bounding::CyclicTriangles { verts: shared }),
        kind,
    }
}

/// A piece of debris with a random nine-vertex outline two to five units
/// across, living `DEBRIS_TTL` ticks.
pub fn new_debris(body: Body) -> (r: Entity)
    requires
        body.wf(),
    ensures
        r.body == body,
        r.wrap == WrappingBehavior::Yes,
        r.kind == (EntityKind::Debris { ttl: DEBRIS_TTL }),
        exists|v: Seq<Vec2>|
            has_cyclic_shape(r, v) && #[trigger] is_rock_outline(v, 9, 2 * UNIT, 5 * UNIT),
        r.wf(),
{
    let verts = asteroid_verts(9, 2 * UNIT, 5 * UNIT);
    let ghost v = verts@;
    let r = with_outline(body, verts, EntityKind::Debris { ttl: DEBRIS_TTL });
    proof {
        assert(has_cyclic_shape(r, v) && is_rock_outline(v, 9, 2 * UNIT, 5 * UNIT));
    }
    r
}

/// An asteroid of `size` (1 to 3) with a random outline: 6, 8 or 14 vertices
/// at 20 to 28, 30 to 40 or 39 to 50 units.
pub fn new_asteroid(size: usize, body: Body) -> (r: Entity)
    requires
        1 <= size <= 3,
        body.wf(),
    ensures
        r.body == body,
        r.wrap == WrappingBehavior::Yes,
        r.kind == (EntityKind::Asteroid { size }),
        exists|v: Seq<Vec2>|
            has_cyclic_shape(r, v) && #[trigger] is_rock_outline(
                v,
                asteroid_form(size as int).0,
                asteroid_form(size as int).1 * UNIT,
                asteroid_form(size as int).2 * UNIT,
            ),
        r.wf(),
{
    let verts = if size == 1 {
        asteroid_verts(6, 20 * UNIT, 28 * UNIT)
    } else if size == 2 {
        asteroid_verts(8, 30 * UNIT, 40 * UNIT)
    } else {
        asteroid_verts(14, 39 * UNIT, 50 * UNIT)
    };
    let ghost v = verts@;
    let r = with_outline(body, verts, EntityKind::Asteroid { size });
    proof {
        let f = asteroid_form(size as int);
        assert(has_cyclic_shape(r, v) && is_rock_outline(v, f.0, f.1 * UNIT, f.2 * UNIT));
    }
    r
}

/// The bullet that an entity with body `firer` fires.
pub fn new_bullet(firer: &Body) -> (r: Entity)
    requires
        firer.wf(),
    ensures
        is_bullet_from(r, *firer),
        r.wf(),
{
    let h = turn(Vec2 { x: 0, y: -UNIT }, firer.rotation);
    assert(within(h, UNIT as int)) by {
        crate::fixed::lemma_trig_bounds(firer.rotation as int);
        let c = crate::fixed::cosine(firer.rotation as int);
        let s = crate::fixed::sine(firer.rotation as int);
        let hx = (0 * c + (-UNIT) * s) as int;
        let hy = ((-UNIT) * c - 0 * s) as int;
        assert(-((crate::fixed::TRIG_ONE as int) * UNIT) <= hx <= (crate::fixed::TRIG_ONE as int) * UNIT) by (nonlinear_arith)
            requires
                hx == (-UNIT) * s,
                -(crate::fixed::TRIG_ONE as int) <= s <= (crate::fixed::TRIG_ONE as int),
        ;
        assert(-((crate::fixed::TRIG_ONE as int) * UNIT) <= hy <= (crate::fixed::TRIG_ONE as int) * UNIT) by (nonlinear_arith)
            requires
                hy == (-UNIT) * c,
                -(crate::fixed::TRIG_ONE as int) <= c <= (crate::fixed::TRIG_ONE as int),
        ;
        crate::fixed::lemma_div_within(hx, (crate::fixed::TRIG_ONE as int), UNIT as int);
        crate::fixed::lemma_div_within(hy, (crate::fixed::TRIG_ONE as int), UNIT as int);
    }
    let body = Body {
        position: crate::body::clamp_sum(firer.position, Vec2 { x: h.x * 20, y: h.y * 20 }),
        velocity: crate::body::clamp_sum(firer.velocity, Vec2 { x: h.x * 4, y: h.y * 4 }),
        rotation: firer.rotation,
        has_drag: false,
        accelerating: false,
        turning_left: false,
        turning_right: false,
    };
    Entity {
        body,
        wrap: WrappingBehavior::Yes,
        sprite_verts: Some(Polygon { verts: Arc::new(bullet_verts()) }),
        bounding: Some(bullet_bounds()),
        kind: EntityKind::Bullet { ttl: BULLET_TTL },
    }
}

/// `e` is an asteroid as `new_asteroid(size, body)` makes it.
pub open spec fn is_new_asteroid(e: Entity, size: usize, body: Body) -> bool {
    &&& e.body == body
    &&& e.wrap == WrappingBehavior::Yes
    &&& e.kind == (EntityKind::Asteroid { size })
    &&& exists|v: Seq<Vec2>|
        has_cyclic_shape(e, v) && #[trigger] is_rock_outline(
            v,
            asteroid_form(size as int).0,
            asteroid_form(size as int).1 * UNIT,
            asteroid_form(size as int).2 * UNIT,
        )
}

/// `e` is debris as `new_debris(body)` makes it.
pub open spec fn is_new_debris(e: Entity, body: Body) -> bool {
    &&& e.body == body
    &&& e.wrap == WrappingBehavior::Yes
    &&& e.kind == (EntityKind::Debris { ttl: DEBRIS_TTL })
    &&& exists|v: Seq<Vec2>|
        has_cyclic_shape(e, v) && #[trigger] is_rock_outline(v, 9, 2 * UNIT, 5 * UNIT)
}

/// `e` is debris thrown from `parent` in some direction.
pub open spec fn is_thrown_debris(e: Entity, parent: Body) -> bool {
    exists|dir: int| 0 <= dir < TURN && #[trigger] is_new_debris(e, thrown_body(parent, dir))
}

/// The unit step perpendicular to a bullet's travel at angle `rot`.
pub open spec fn side_step(rot: int) -> Vec2 {
    turned(Vec2 { x: 0, y: UNIT }, (rot + QUARTER_TURN) % (TURN as int))
}

pub open spec fn negated(v: Vec2) -> Vec2 {
    Vec2 { x: -v.x as i64, y: -v.y as i64 }
}

/// The body of a split-off child: the parent's, pushed by `off` in both
/// position and velocity.
pub open spec fn child_body(parent: Body, off: Vec2) -> Body {
    Body {
        position: clamped_sum(parent.position, off),
        velocity: clamped_sum(parent.velocity, off),
        ..parent
    }
}

/// The body of a piece of debris thrown from `parent` towards angle `dir`
/// at four units per tick on top of the parent's velocity.
pub open spec fn thrown_body(parent: Body, dir: int) -> Body {
    Body {
        velocity: clamped_sum(parent.velocity, turned(Vec2 { x: 0, y: (4 * UNIT) as i64 }, dir)),
        ..parent
    }
}

/// Number of child asteroids from splitting an asteroid of `size`.
pub open spec fn child_count(size: int) -> int {
    if size > 1 {
        2
    } else {
        0
    }
}

/// Number of pieces of debris from breaking an asteroid of `size`.
pub open spec fn debris_count(size: int) -> int {
    size * 4 - 2
}

/// `r` is what an asteroid of `size` with body `parent` breaks into when a
/// bullet travelling at angle `rot` hits it: for a size above one, two
/// asteroids one size smaller pushed one unit to either side of the bullet's
/// path; then `size * 4 - 2` pieces of debris thrown in some direction.
#[verifier::opaque]
pub open spec fn is_split_of(r: Seq<Entity>, size: usize, parent: Body, rot: int) -> bool {
    let c = child_count(size as int);
    &&& r.len() == c + debris_count(size as int)
    &&& c == 2 ==> is_new_asteroid(r[0], (size - 1) as usize, child_body(parent, side_step(rot)))
    &&& c == 2 ==> is_new_asteroid(
        r[1],
        (size - 1) as usize,
        child_body(parent, negated(side_step(rot))),
    )
    &&& forall|m: int| c <= m < r.len() ==> is_thrown_debris(#[trigger] r[m], parent)
}

/// The body of debris thrown from `parent` towards angle `direction`.
pub fn debris_body(parent: &Body, direction: u32) -> (r: Body)
    requires
        parent.wf(),
        direction < TURN,
    ensures
        r == thrown_body(*parent, direction as int),
        r.wf(),
{
    let push = turn(Vec2 { x: 0, y: 4 * UNIT }, direction);
    Body { velocity: clamp_sum(parent.velocity, push), ..*parent }
}

/// Breaks an asteroid of `size` with body `parent`, hit by a bullet
/// travelling at angle `bullet_rotation`, into its children and debris.
pub fn split_asteroid(size: usize, parent: &Body, bullet_rotation: u32) -> (r: Vec<Entity>)
    requires
        1 <= size <= 3,
        parent.wf(),
        bullet_rotation < TURN,
    ensures
        is_split_of(r@, size, *parent, bullet_rotation as int),
        r@.len() == child_count(size as int) + debris_count(size as int),
        forall|i: int| 0 <= i < r@.len() ==> (#[trigger] r@[i]).wf(),
{
    let mut out: Vec<Entity> = Vec::new();
    if size > 1 {
        let side = turn(Vec2 { x: 0, y: UNIT }, (bullet_rotation + QUARTER_TURN) % TURN);
        let back = Vec2 { x: -side.x, y: -side.y };
        let left = Body {
            position: clamp_sum(parent.position, side),
            velocity: clamp_sum(parent.velocity, side),
            ..*parent
        };
        let right = Body {
            position: clamp_sum(parent.position, back),
            velocity: clamp_sum(parent.velocity, back),
            ..*parent
        };
        out.push(new_asteroid(size - 1, left));
        out.push(new_asteroid(size - 1, right));
    }
    let ghost c = child_count(size as int);
    let pieces = size * 4 - 2;
    let mut k: usize = 0;
    while k < pieces
        invariant
            1 <= size <= 3,
            parent.wf(),
            pieces == debris_count(size as int),
            c == child_count(size as int),
            k <= pieces,
            out@.len() == c + k,
            c == 2 ==> is_new_asteroid(
                out@[0],
                (size - 1) as usize,
                child_body(*parent, side_step(bullet_rotation as int)),
            ),
            c == 2 ==> is_new_asteroid(
                out@[1],
                (size - 1) as usize,
                child_body(*parent, negated(side_step(bullet_rotation as int))),
            ),
            forall|m: int| c <= m < out@.len() ==> is_thrown_debris(#[trigger] out@[m], *parent),
            forall|i: int| 0 <= i < out@.len() ==> (#[trigger] out@[i]).wf(),
        decreases pieces - k,
    {
        let direction = random_between(0, (TURN - 1) as i64) as u32;
        let body = debris_body(parent, direction);
        let piece = new_debris(body);
        let ghost old_out = out@;
        out.push(piece);
        proof {
            assert(is_new_debris(out@[c + k], thrown_body(*parent, direction as int)));
            assert forall|m: int| c <= m < out@.len() implies is_thrown_debris(
                #[trigger] out@[m],
                *parent,
            ) by {
                if m < c + k {
                    assert(out@[m] == old_out[m]);
                } else {
                    assert(is_new_debris(out@[m], thrown_body(*parent, direction as int)));
                }
            }
        }
        k += 1;
    }
    proof {
        reveal(is_split_of);
    }
    out
}

/// Split law: an asteroid of size `size` above one breaks into exactly two
/// asteroids of size `size - 1` and `size * 4 - 2` pieces of debris; one of
/// size one breaks into no asteroids and two pieces of debris.
pub proof fn lemma_split_law(r: Seq<Entity>, size: usize, parent: Body, rot: int)
    requires
        1 <= size <= 3,
        is_split_of(r, size, parent, rot),
    ensures
        size > 1 ==> r.len() == 2 + (size * 4 - 2),
        size > 1 ==> r[0].kind == (EntityKind::Asteroid { size: (size - 1) as usize }),
        size > 1 ==> r[1].kind == (EntityKind::Asteroid { size: (size - 1) as usize }),
        size == 1 ==> r.len() == 2,
        forall|m: int|
            child_count(size as int) <= m < r.len() ==> (#[trigger] r[m]).kind == (
            EntityKind::Debris { ttl: DEBRIS_TTL }),
{
    reveal(is_split_of);
    assert forall|m: int| child_count(size as int) <= m < r.len() implies (
    #[trigger] r[m]).kind == (EntityKind::Debris { ttl: DEBRIS_TTL }) by {
        assert(is_thrown_debris(r[m], parent));
    }
}

/// A player's ship at rest at `position`, facing north, with drag, wrapping,
/// and the given key codes bound to its actions.
pub fn new_player(
    position: Vec2,
    fire: Option<i32>,
    accelerate: Option<i32>,
    turn_left: Option<i32>,
    turn_right: Option<i32>,
) -> (r: Entity)
    requires
        within(position, LIMIT as int),
    ensures
        r.body == (Body { has_drag: true, ..Body::at_spec(position) }),
        r.wrap == WrappingBehavior::Yes,
        r.kind == (EntityKind::Player { fire, accelerate, turn_left, turn_right }),
        has_cyclic_shape(r, ship_outline()),
        r.wf(),
{
    let mut body = Body::at(position);
    body.has_drag = true;
    with_outline(body, ship_verts(), EntityKind::Player { fire, accelerate, turn_left, turn_right })
}

/// Every vertex of a rock outline lies at the drawn distance up to rounding:
/// its squared length is at most `hi^2 + 4 hi + 2` and at least
/// `lo^2 (1 - 2 / TRIG_ONE) - 4 lo` (all in fixed-point steps).
pub proof fn lemma_rock_vertex_distance(verts: Seq<Vec2>, n: int, lo: int, hi: int, k: int)
    requires
        is_rock_outline(verts, n, lo, hi),
        1 <= n,
        4 <= lo <= hi <= LIMIT,
        0 <= k < n,
    ensures
        crate::fixed::norm2(verts[k]) <= hi * hi + 4 * hi + 2,
        TRIG_ONE * crate::fixed::norm2(verts[k]) >= TRIG_ONE * lo * lo - 2 * lo * lo - 4 * lo
            * TRIG_ONE,
{
    let radii = choose|radii: Seq<i64>|
        #![trigger polar_outline(radii)]
        radii.len() == n && (forall|j: int| 0 <= j < n ==> lo <= #[trigger] radii[j] <= hi)
            && verts == polar_outline(radii);
    let r = radii[k] as int;
    assert(lo <= r <= hi);
    assert(k * TURN < n * TURN) by (nonlinear_arith)
        requires
            k < n,
    ;
    vstd::arithmetic::div_mod::lemma_multiply_divide_lt(k * TURN, n, TURN as int);
    vstd::arithmetic::div_mod::lemma_div_pos_is_pos(k * TURN, n);
    let a = (k * TURN) / n;
    let v = Vec2 { x: 0, y: r as i64 };
    crate::fixed::lemma_turn_length(v, a);
    assert(verts[k] == turned(v, a));
    let t = TRIG_ONE as int;
    assert(crate::fixed::norm2(v) == r * r);
    assert(crate::fixed::taxicab(v) == r);
    assert(r * r + 4 * r + 2 <= hi * hi + 4 * hi + 2) by (nonlinear_arith)
        requires
            0 <= r <= hi,
    ;
    assert(t * (r * r) - 2 * (r * r) - 4 * r * t >= t * lo * lo - 2 * lo * lo - 4 * lo * t)
        by (nonlinear_arith)
        requires
            4 <= lo <= r,
            t == 1000000,
    ;
    assert(t * crate::fixed::norm2(verts[k]) >= t * (r * r) - 2 * (r * r) - 4 * r * t);
}

} // verus!
