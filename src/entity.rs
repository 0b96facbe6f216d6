use crate::body::{Body, WrappingBehavior};
use crate::fixed::{turn, turned_x, turned_y, within, Vec2, LIMIT, TURN};
use crate::geometry::{
    boxes_overlap, boxes_overlap_exec, no_separating_edge, triangle_in_world, triangles_intersect,
    triangles_meet, Triangle,
};
use std::sync::Arc;
use vstd::prelude::*;

verus! {

/// Offsets from the entity's origin forming a closed polygon, in order. The
/// buffer is never changed once built, and may be shared with a hull.
#[derive(Debug)]
pub struct Polygon {
    pub verts: Arc<Vec<Vec2>>,
}

/// Collision hull of an entity, in local coordinates.
#[derive(Debug)]
pub enum Bounding {
    /// One triangle per pair of consecutive vertices of the cyclic list
    /// `verts`, each with its third corner at the origin.
    CyclicTriangles { verts: Arc<Vec<Vec2>> },
    /// Triangles listed one by one.
    Triangles { triangles: Arc<Vec<Triangle>> },
}

/// What an entity is, with the state that only that kind carries.
#[derive(Clone, Copy, Debug, PartialEq, Eq)]
pub enum EntityKind {
    Asteroid {
        /// Decremented by 1 each time the asteroid splits, until it is gone.
        size: usize,
    },
    Bullet {
        /// Time to live, in ticks.
        ttl: u64,
    },
    Debris {
        /// Time to live, in ticks.
        ttl: u64,
    },
    /// Key codes bound to each action.
    Player {
        fire: Option<i32>,
        accelerate: Option<i32>,
        turn_left: Option<i32>,
        turn_right: Option<i32>,
    },
}

/// One simulated object.
#[derive(Debug)]
pub struct Entity {
    pub body: Body,
    /// Whether moving this entity wraps around the screen.
    pub wrap: WrappingBehavior,
    pub sprite_verts: Option<Polygon>,
    pub bounding: Option<Bounding>,
    pub kind: EntityKind,
}

/// Every vertex of `s` lies within the coordinate range.
pub open spec fn verts_ok(s: Seq<Vec2>) -> bool {
    forall|i: int| 0 <= i < s.len() ==> within(#[trigger] s[i], LIMIT as int)
}

pub open spec fn local_triangle_ok(t: Triangle) -> bool {
    within(t.a, LIMIT as int) && within(t.b, LIMIT as int) && within(t.c, LIMIT as int)
}

pub open spec fn bounding_ok(b: Option<Bounding>) -> bool {
    match b {
        None => true,
        Some(Bounding::CyclicTriangles { verts }) => verts_ok(verts@),
        Some(Bounding::Triangles { triangles }) => forall|i: int|
            0 <= i < triangles@.len() ==> local_triangle_ok(#[trigger] triangles@[i]),
    }
}

pub open spec fn sprite_ok(p: Option<Polygon>) -> bool {
    match p {
        None => true,
        Some(p) => verts_ok(p.verts@),
    }
}

pub open spec fn kind_ok(k: EntityKind) -> bool {
    match k {
        EntityKind::Asteroid { size } => 1 <= size <= 3,
        _ => true,
    }
}

impl Entity {
    /// Body in range, shapes in range, asteroid size in `1..=3`.
    pub open spec fn wf(&self) -> bool {
        &&& self.body.wf()
        &&& sprite_ok(self.sprite_verts)
        &&& bounding_ok(self.bounding)
        &&& kind_ok(self.kind)
    }
}

/// Local offset `p` turned by angle `rot` and moved to `pos`.
pub open spec fn placed(p: Vec2, pos: Vec2, rot: int) -> Vec2 {
    Vec2 { x: (pos.x + turned_x(p, rot)) as i64, y: (pos.y + turned_y(p, rot)) as i64 }
}

/// The fan triangle of the `i`-th pair of consecutive vertices of `verts`.
pub open spec fn fan_triangle(verts: Seq<Vec2>, i: int, pos: Vec2, rot: int) -> Triangle {
    Triangle {
        a: pos,
        b: placed(verts[i], pos, rot),
        c: placed(verts[(i + 1) % verts.len() as int], pos, rot),
    }
}

/// A local triangle turned by `rot` and moved to `pos`.
pub open spec fn placed_triangle(t: Triangle, pos: Vec2, rot: int) -> Triangle {
    Triangle { a: placed(t.a, pos, rot), b: placed(t.b, pos, rot), c: placed(t.c, pos, rot) }
}

/// The world-space triangles of an entity's hull at its current pose.
pub open spec fn world_triangles(e: Entity) -> Seq<Triangle> {
    hull_at(e.bounding, e.body)
}

/// The world-space triangles of `bounding` placed at the pose of `body`.
pub open spec fn hull_at(bounding: Option<Bounding>, body: Body) -> Seq<Triangle> {
    let pos = body.position;
    let rot = body.rotation as int;
    match bounding {
        None => Seq::empty(),
        Some(Bounding::CyclicTriangles { verts }) => Seq::new(
            verts@.len(),
            |i: int| fan_triangle(verts@, i, pos, rot),
        ),
        Some(Bounding::Triangles { triangles }) => Seq::new(
            triangles@.len(),
            |i: int| placed_triangle(triangles@[i], pos, rot),
        ),
    }
}

/// Whether entities of these kinds react to touching each other.
pub open spec fn kinds_collide(a: EntityKind, b: EntityKind) -> bool {
    match (a, b) {
        (EntityKind::Debris { .. }, _) | (_, EntityKind::Debris { .. }) => false,
        (EntityKind::Asteroid { .. }, EntityKind::Asteroid { .. }) => false,
        (EntityKind::Bullet { .. }, EntityKind::Bullet { .. }) => false,
        _ => true,
    }
}

/// Whether the hulls of `a` and `b` touch: some pair of their world triangles
/// passes both the bounding-box test and the separating-axis test.
pub open spec fn hulls_touch(a: Entity, b: Entity) -> bool {
    exists|i: int, j: int|
        0 <= i < world_triangles(a).len() && 0 <= j < world_triangles(b).len() && boxes_overlap(
            #[trigger] world_triangles(a)[i],
            #[trigger] world_triangles(b)[j],
        ) && no_separating_edge(world_triangles(a)[i], world_triangles(b)[j])
}

/// Collidability is symmetric in the two kinds.
pub proof fn lemma_kinds_collide_symmetric(a: EntityKind, b: EntityKind)
    ensures
        kinds_collide(a, b) == kinds_collide(b, a),
{
}

fn place(p: Vec2, pos: Vec2, rot: u32) -> (r: Vec2)
    requires
        within(p, LIMIT as int),
        within(pos, LIMIT as int),
        rot < TURN,
    ensures
        r == placed(p, pos, rot as int),
        within(r, crate::geometry::WORLD_LIMIT as int),
{
    let q = turn(p, rot);
    Vec2 { x: pos.x + q.x, y: pos.y + q.y }
}

impl Entity {
    /// The world-space triangles of this entity's hull: for a cyclic hull one
    /// fan triangle per consecutive vertex pair, anchored at the position; for
    /// an explicit hull each listed triangle turned and moved.
    pub fn bounding_triangles(&self) -> (r: Vec<Triangle>)
        requires
            self.wf(),
        ensures
            r@ == world_triangles(*self),
            forall|i: int| 0 <= i < r@.len() ==> triangle_in_world(#[trigger] r@[i]),
    {
        let pos = self.body.position;
        let rot = self.body.rotation;
        let mut out: Vec<Triangle> = Vec::new();
        match &self.bounding {
            None => {},
            Some(Bounding::CyclicTriangles { verts }) => {
                let n = verts.len();
                let mut i: usize = 0;
                while i < n
                    invariant
                        n == verts@.len(),
                        i <= n,
                        verts_ok(verts@),
                        self.body.wf(),
                        pos == self.body.position,
                        rot == self.body.rotation,
                        out@.len() == i,
                        forall|k: int|
                            0 <= k < i ==> out@[k] == fan_triangle(verts@, k, pos, rot as int),
                        forall|k: int| 0 <= k < i ==> triangle_in_world(#[trigger] out@[k]),
                    decreases n - i,
                {
                    let j: usize = if i + 1 == n {
                        0
                    } else {
                        i + 1
                    };
                    assert(j as int == (i + 1) % n as int) by {
                        if i + 1 == n {
                            vstd::arithmetic::div_mod::lemma_mod_self_0(n as int);
                        } else {
                            vstd::arithmetic::div_mod::lemma_small_mod((i + 1) as nat, n as nat);
                        }
                    }
                    let t = Triangle {
                        a: pos,
                        b: place(verts[i], pos, rot),
                        c: place(verts[j], pos, rot),
                    };
                    out.push(t);
                    i += 1;
                }
            },
            Some(Bounding::Triangles { triangles }) => {
                let n = triangles.len();
                let mut i: usize = 0;
                while i < n
                    invariant
                        n == triangles@.len(),
                        i <= n,
                        forall|k: int|
                            0 <= k < n ==> local_triangle_ok(#[trigger] triangles@[k]),
                        self.body.wf(),
                        pos == self.body.position,
                        rot == self.body.rotation,
                        out@.len() == i,
                        forall|k: int|
                            0 <= k < i ==> out@[k] == placed_triangle(
                                triangles@[k],
                                pos,
                                rot as int,
                            ),
                        forall|k: int| 0 <= k < i ==> triangle_in_world(#[trigger] out@[k]),
                    decreases n - i,
                {
                    let lt = triangles[i];
                    let t = Triangle {
                        a: place(lt.a, pos, rot),
                        b: place(lt.b, pos, rot),
                        c: place(lt.c, pos, rot),
                    };
                    out.push(t);
                    i += 1;
                }
            },
        }
        proof {
            assert(out@ =~= world_triangles(*self));
        }
        out
    }

    /// Returns true if `self` and `other` may collide, i.e. if they do anything
    /// when they overlap.
    pub fn collides_with(&self, other: &Self) -> (r: bool)
        ensures
            r == kinds_collide(self.kind, other.kind),
            r == kinds_collide(other.kind, self.kind),
    {
        match (self.kind, other.kind) {
            (EntityKind::Debris { .. }, _) | (_, EntityKind::Debris { .. }) => false,
            (EntityKind::Asteroid { .. }, EntityKind::Asteroid { .. }) => false,
            (EntityKind::Bullet { .. }, EntityKind::Bullet { .. }) => false,
            _ => true,
        }
    }

    /// Whether the hulls of `self` and `other` touch: a cheap bounding-box test
    /// on each pair of world triangles, then the exact separating-axis test on
    /// the pairs that pass it.
    pub fn collision(&self, other: &Self) -> (r: bool)
        requires
            self.wf(),
            other.wf(),
        ensures
            r == hulls_touch(*self, *other),
            (exists|i: int, j: int|
                0 <= i < world_triangles(*self).len() && 0 <= j < world_triangles(*other).len()
                    && triangles_meet(
                    #[trigger] world_triangles(*self)[i],
                    #[trigger] world_triangles(*other)[j],
                )) ==> r,
    {
        let mine = self.bounding_triangles();
        let theirs = other.bounding_triangles();
        let ghost ws = world_triangles(*self);
        let ghost wo = world_triangles(*other);
        let mut i: usize = 0;
        while i < mine.len()
            invariant
                ws == world_triangles(*self),
                wo == world_triangles(*other),
                mine@ == ws,
                theirs@ == wo,
                i <= mine@.len(),
                forall|k: int| 0 <= k < mine@.len() ==> triangle_in_world(#[trigger] mine@[k]),
                forall|k: int| 0 <= k < theirs@.len() ==> triangle_in_world(#[trigger] theirs@[k]),
                forall|a: int, b: int|
                    0 <= a < i && 0 <= b < wo.len() ==> !(boxes_overlap(
                        #[trigger] ws[a],
                        #[trigger] wo[b],
                    ) && no_separating_edge(ws[a], wo[b])),
            decreases mine@.len() - i,
        {
            let s = &mine[i];
            let mut j: usize = 0;
            while j < theirs.len()
                invariant
                    ws == world_triangles(*self),
                    wo == world_triangles(*other),
                    mine@ == ws,
                    theirs@ == wo,
                    i < mine@.len(),
                    *s == ws[i as int],
                    j <= theirs@.len(),
                    triangle_in_world(*s),
                    forall|k: int|
                        0 <= k < theirs@.len() ==> triangle_in_world(#[trigger] theirs@[k]),
                    forall|b: int|
                        0 <= b < j ==> !(boxes_overlap(ws[i as int], #[trigger] wo[b])
                            && no_separating_edge(ws[i as int], wo[b])),
                decreases theirs@.len() - j,
            {
                let t = &theirs[j];
                if boxes_overlap_exec(s, t) && triangles_intersect(s, t) {
                    proof {
                        assert(hulls_touch(*self, *other)) by {
                            assert(boxes_overlap(
                                world_triangles(*self)[i as int],
                                world_triangles(*other)[j as int],
                            ));
                        }
                    }
                    return true;
                }
                j += 1;
            }
            i += 1;
        }
        proof {
            assert forall|a: int, b: int|
                0 <= a < ws.len() && 0 <= b < wo.len() && triangles_meet(
                    #[trigger] ws[a],
                    #[trigger] wo[b],
                ) implies false by {
                crate::geometry::lemma_broad_phase_sound(ws[a], wo[b]);
                crate::geometry::lemma_narrow_phase_sound(ws[a], wo[b]);
            }
        }
        false
    }
}

/// A discrete input event, as far as entities read it.
#[derive(Clone, Copy, Debug, PartialEq, Eq)]
pub enum InputEvent {
    KeyDown { keycode: Option<i32>, repeat: bool },
    KeyUp { keycode: Option<i32> },
    Other,
}

/// What the owner of an entity should do with it after a step.
#[derive(Clone, Copy, Debug, PartialEq, Eq)]
pub enum StepResult {
    Keep,
    RemoveEntity,
}

/// `p` lies within the screen rectangle `[0, bounds.x] x [0, bounds.y]`.
pub open spec fn in_screen(p: Vec2, bounds: Vec2) -> bool {
    0 <= p.x <= bounds.x && 0 <= p.y <= bounds.y
}

/// The whole extent of `e` (its position and every corner of its hull) lies on screen.
pub open spec fn on_screen(e: Entity, bounds: Vec2) -> bool {
    on_screen_at(e.bounding, e.body, bounds)
}

/// The whole extent of `bounding` placed at `body` lies on screen.
pub open spec fn on_screen_at(bounding: Option<Bounding>, body: Body, bounds: Vec2) -> bool {
    &&& in_screen(body.position, bounds)
    &&& forall|i: int|
        0 <= i < hull_at(bounding, body).len() ==> {
            let t = #[trigger] hull_at(bounding, body)[i];
            in_screen(t.a, bounds) && in_screen(t.b, bounds) && in_screen(t.c, bounds)
        }
}

/// The kind after one tick's countdown, or `None` when a countdown runs out.
pub open spec fn countdown(k: EntityKind) -> Option<EntityKind> {
    match k {
        EntityKind::Bullet { ttl } => if ttl == 0 {
            None
        } else {
            Some(EntityKind::Bullet { ttl: (ttl - 1) as u64 })
        },
        EntityKind::Debris { ttl } => if ttl == 0 {
            None
        } else {
            Some(EntityKind::Debris { ttl: (ttl - 1) as u64 })
        },
        _ => Some(k),
    }
}

/// The kind after `n` ticks' countdowns, or `None` if one ran out.
pub open spec fn countdown_n(k: EntityKind, n: nat) -> Option<EntityKind>
    decreases n,
{
    if n == 0 {
        Some(k)
    } else {
        match countdown_n(k, (n - 1) as nat) {
            None => None,
            Some(j) => countdown(j),
        }
    }
}

/// An entity created with a time to live of `ttl` survives exactly `ttl`
/// steps: it is present through tick `ttl - 1` and removed at tick `ttl`.
pub proof fn lemma_ttl_law(ttl: u64, n: nat)
    ensures
        countdown_n(EntityKind::Bullet { ttl }, n) == if n <= ttl {
            Some(EntityKind::Bullet { ttl: (ttl - n) as u64 })
        } else {
            None::<EntityKind>
        },
        countdown_n(EntityKind::Debris { ttl }, n) == if n <= ttl {
            Some(EntityKind::Debris { ttl: (ttl - n) as u64 })
        } else {
            None::<EntityKind>
        },
    decreases n,
{
    if n > 0 {
        lemma_ttl_law(ttl, (n - 1) as nat);
    }
}

/// The body after an input event: a key press or release bound to an intent
/// sets or clears that intent (accelerate first, then left, then right).
pub open spec fn body_after_event(kind: EntityKind, body: Body, ev: InputEvent) -> Body {
    match kind {
        EntityKind::Player { fire, accelerate, turn_left, turn_right } => match ev {
            InputEvent::KeyDown { keycode: Some(k), repeat: false } => if accelerate == Some(k) {
                Body { accelerating: true, ..body }
            } else if turn_left == Some(k) {
                Body { turning_left: true, ..body }
            } else if turn_right == Some(k) {
                Body { turning_right: true, ..body }
            } else {
                body
            },
            InputEvent::KeyUp { keycode: Some(k) } => if accelerate == Some(k) {
                Body { accelerating: false, ..body }
            } else if turn_left == Some(k) {
                Body { turning_left: false, ..body }
            } else if turn_right == Some(k) {
                Body { turning_right: false, ..body }
            } else {
                body
            },
            _ => body,
        },
        _ => body,
    }
}

/// The event makes an entity of `kind` fire: a fresh press of its fire key,
/// which is bound to no other action.
pub open spec fn fires(kind: EntityKind, ev: InputEvent) -> bool {
    match kind {
        EntityKind::Player { fire, accelerate, turn_left, turn_right } => match ev {
            InputEvent::KeyDown { keycode: Some(k), repeat: false } => accelerate != Some(k)
                && turn_left != Some(k) && turn_right != Some(k) && fire == Some(k),
            _ => false,
        },
        _ => false,
    }
}

fn key_matches(binding: Option<i32>, k: i32) -> (r: bool)
    ensures
        r == (binding == Some(k)),
{
    match binding {
        Some(b) => b == k,
        None => false,
    }
}

impl Entity {
    /// Reacts to an input event. Only players react: a fresh press of a bound
    /// key sets its intent or, for the fire key, returns one new bullet; a
    /// release clears the intent. Everything else is ignored.
    pub fn handle_event(&mut self, event: &InputEvent) -> (r: Vec<Entity>)
        requires
            old(self).wf(),
        ensures
            final(self).body == body_after_event(old(self).kind, old(self).body, *event),
            final(self).kind == old(self).kind,
            final(self).wrap == old(self).wrap,
            final(self).sprite_verts == old(self).sprite_verts,
            final(self).bounding == old(self).bounding,
            final(self).wf(),
            r@.len() == if fires(old(self).kind, *event) {
                1int
            } else {
                0
            },
            fires(old(self).kind, *event) ==> crate::shapes::is_bullet_from(r@[0], old(self).body),
            forall|i: int| 0 <= i < r@.len() ==> (#[trigger] r@[i]).wf(),
    {
        let mut new_entities: Vec<Entity> = Vec::new();
        match self.kind {
            EntityKind::Player { fire, accelerate, turn_left, turn_right } => match *event {
                InputEvent::KeyDown { keycode: Some(k), repeat: false } => {
                    if key_matches(accelerate, k) {
                        self.body.accelerating = true;
                    } else if key_matches(turn_left, k) {
                        self.body.turning_left = true;
                    } else if key_matches(turn_right, k) {
                        self.body.turning_right = true;
                    } else if key_matches(fire, k) {
                        new_entities.push(crate::shapes::new_bullet(&self.body));
                    }
                },
                InputEvent::KeyUp { keycode: Some(k) } => {
                    if key_matches(accelerate, k) {
                        self.body.accelerating = false;
                    } else if key_matches(turn_left, k) {
                        self.body.turning_left = false;
                    } else if key_matches(turn_right, k) {
                        self.body.turning_right = false;
                    }
                },
                _ => {},
            },
            _ => {},
        }
        new_entities
    }

    /// Whether the position and every hull corner lie on screen.
    pub fn is_on_screen(&self, bounds: Vec2) -> (r: bool)
        requires
            self.wf(),
        ensures
            r == on_screen(*self, bounds),
    {
        let tris = self.bounding_triangles();
        if !(0 <= self.body.position.x && self.body.position.x <= bounds.x
            && 0 <= self.body.position.y && self.body.position.y <= bounds.y) {
            return false;
        }
        let mut i: usize = 0;
        while i < tris.len()
            invariant
                tris@ == world_triangles(*self),
                i <= tris@.len(),
                forall|k: int|
                    0 <= k < i ==> {
                        let t = #[trigger] tris@[k];
                        in_screen(t.a, bounds) && in_screen(t.b, bounds) && in_screen(t.c, bounds)
                    },
            decreases tris@.len() - i,
        {
            let t = tris[i];
            if !(in_screen_exec(t.a, bounds) && in_screen_exec(t.b, bounds) && in_screen_exec(
                t.c,
                bounds,
            )) {
                proof {
                    assert(!in_screen(world_triangles(*self)[i as int].a, bounds) || !in_screen(
                        world_triangles(*self)[i as int].b,
                        bounds,
                    ) || !in_screen(world_triangles(*self)[i as int].c, bounds));
                }
                return false;
            }
            i += 1;
        }
        true
    }

    /// Advances the entity by one tick: moves its body (wrapping when its
    /// wrapping is `Yes`), switches `OnceOnScreen` to `Yes` once wholly on
    /// screen, and counts down a bullet's or debris' time to live, asking for
    /// removal when it would go below zero.
    pub fn step(&mut self, bounds: Vec2) -> (r: StepResult)
        requires
            old(self).wf(),
            crate::body::bounds_ok(bounds),
        ensures
            final(self).body == crate::body::stepped(
                old(self).body,
                bounds,
                old(self).wrap == WrappingBehavior::Yes,
            ),
            final(self).sprite_verts == old(self).sprite_verts,
            final(self).bounding == old(self).bounding,
            final(self).wrap == if old(self).wrap == WrappingBehavior::OnceOnScreen
                && on_screen_at(old(self).bounding, final(self).body, bounds) {
                WrappingBehavior::Yes
            } else {
                old(self).wrap
            },
            old(self).wrap == WrappingBehavior::Yes ==> final(self).wrap == WrappingBehavior::Yes,
            final(self).wrap == WrappingBehavior::OnceOnScreen ==> old(self).wrap
                == WrappingBehavior::OnceOnScreen,
            final(self).body.rotation < TURN,
            old(self).wrap == WrappingBehavior::Yes ==> 0 <= final(self).body.position.x < bounds.x
                && 0 <= final(self).body.position.y < bounds.y,
            old(self).wrap == WrappingBehavior::Yes ==> crate::body::shifted_by_screens(
                crate::body::clamped_sum(old(self).body.position, final(self).body.velocity),
                final(self).body.position,
                bounds,
            ),
            match countdown(old(self).kind) {
                None => r == StepResult::RemoveEntity && final(self).kind == old(self).kind,
                Some(k) => r == StepResult::Keep && final(self).kind == k,
            },
            final(self).wf(),
    {
        let wrapping = match self.wrap {
            WrappingBehavior::Yes => true,
            _ => false,
        };
        self.body.step(bounds, wrapping);
        match self.wrap {
            WrappingBehavior::OnceOnScreen => {
                if self.is_on_screen(bounds) {
                    self.wrap = WrappingBehavior::Yes;
                }
            },
            _ => {},
        }
        match self.kind {
            EntityKind::Bullet { ttl } => {
                if ttl == 0 {
                    return StepResult::RemoveEntity;
                }
                self.kind = EntityKind::Bullet { ttl: ttl - 1 };
            },
            EntityKind::Debris { ttl } => {
                if ttl == 0 {
                    return StepResult::RemoveEntity;
                }
                self.kind = EntityKind::Debris { ttl: ttl - 1 };
            },
            _ => {},
        }
        StepResult::Keep
    }
}

fn in_screen_exec(p: Vec2, bounds: Vec2) -> (r: bool)
    ensures
        r == in_screen(p, bounds),
{
    0 <= p.x && p.x <= bounds.x && 0 <= p.y && p.y <= bounds.y
}

} // verus!
