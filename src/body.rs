use crate::fixed::{turn, turned, within, Vec2, LIMIT, TURN, UNIT};
use vstd::arithmetic::div_mod::lemma_mod_bound;
use vstd::prelude::*;

verus! {

/// Ticks per second of the simulation clock.
pub const FPS: u32 = 60;

/// Angle steps turned per tick: a third of a turn per second, `TURN / (FPS * 3)`.
pub const TURN_RATE: u32 = 14;

/// Speed gained per tick of thrust: a tenth of a unit, `UNIT / 10`.
pub const THRUST: i64 = 100000;

/// Kinematic state of one entity.
#[derive(Clone, Copy, Debug, PartialEq, Eq)]
pub struct Body {
    pub position: Vec2,
    pub velocity: Vec2,
    /// In angle steps, clockwise from north.
    pub rotation: u32,
    pub has_drag: bool,
    pub accelerating: bool,
    pub turning_left: bool,
    pub turning_right: bool,
}

/// How an entity's position relates to the edges of the screen.
#[derive(Clone, Copy, Debug, PartialEq, Eq)]
pub enum WrappingBehavior {
    Yes,
    No,
    /// Becomes `Yes` once the entity is entirely on screen; until then behaves as `No`.
    OnceOnScreen,
}

/// Screen bounds usable for wrapping: both extents positive and in range.
pub open spec fn bounds_ok(bounds: Vec2) -> bool {
    0 < bounds.x <= LIMIT && 0 < bounds.y <= LIMIT
}

impl Body {
    /// Position and velocity in range, rotation normalised.
    pub open spec fn wf(self) -> bool {
        within(self.position, LIMIT as int) && within(self.velocity, LIMIT as int)
            && self.rotation < TURN
    }

    /// A body at rest at `position`, facing north, with no intents set.
    pub open spec fn at_spec(position: Vec2) -> Body {
        Body {
            position,
            velocity: Vec2 { x: 0, y: 0 },
            rotation: 0,
            has_drag: false,
            accelerating: false,
            turning_left: false,
            turning_right: false,
        }
    }

    /// A body at rest at `position`, facing north, with no intents set.
    pub fn at(position: Vec2) -> (r: Body)
        ensures
            r == Body::at_spec(position),
    {
        Body {
            position,
            velocity: Vec2 { x: 0, y: 0 },
            rotation: 0,
            has_drag: false,
            accelerating: false,
            turning_left: false,
            turning_right: false,
        }
    }
}

/// `x` limited to `[-LIMIT, LIMIT]`.
pub open spec fn clamp(x: int) -> int {
    if x > LIMIT {
        LIMIT as int
    } else if x < -LIMIT {
        -LIMIT
    } else {
        x
    }
}

pub open spec fn clamped_sum(u: Vec2, v: Vec2) -> Vec2 {
    Vec2 { x: clamp(u.x + v.x) as i64, y: clamp(u.y + v.y) as i64 }
}

/// The thrust applied in one tick when facing angle `a`.
pub open spec fn thrust_at(a: int) -> Vec2 {
    turned(Vec2 { x: 0, y: (-THRUST) as i64 }, a)
}

/// Velocity after the thrust of this tick.
pub open spec fn thrusted(b: Body) -> Vec2 {
    if b.accelerating {
        clamped_sum(b.velocity, thrust_at(b.rotation as int))
    } else {
        b.velocity
    }
}

/// Rotation after the turning of this tick.
pub open spec fn turned_rotation(b: Body) -> u32 {
    if b.turning_right && !b.turning_left {
        ((b.rotation + TURN - TURN_RATE) % (TURN as int)) as u32
    } else if b.turning_left && !b.turning_right {
        ((b.rotation + TURN_RATE) % (TURN as int)) as u32
    } else {
        b.rotation
    }
}

/// `x` scaled by the drag factor 99/100, rounded towards zero so that both
/// signs decay alike.
pub open spec fn damped(x: int) -> int {
    if x >= 0 {
        (x * 99) / 100
    } else {
        -((-x * 99) / 100)
    }
}

/// `v` scaled by the drag factor 99/100 on each axis.
pub open spec fn dragged(v: Vec2) -> Vec2 {
    Vec2 { x: damped(v.x as int) as i64, y: damped(v.y as int) as i64 }
}

/// Velocity after thrust and drag.
pub open spec fn new_velocity(b: Body) -> Vec2 {
    if b.has_drag {
        dragged(thrusted(b))
    } else {
        thrusted(b)
    }
}

/// `p` reduced into `[0, bounds)` on each axis.
pub open spec fn wrapped(p: Vec2, bounds: Vec2) -> Vec2 {
    Vec2 { x: (p.x % bounds.x) as i64, y: (p.y % bounds.y) as i64 }
}

/// `q` is `p` moved by whole screen widths and heights.
pub open spec fn shifted_by_screens(p: Vec2, q: Vec2, bounds: Vec2) -> bool {
    exists|i: int, j: int|
        #![trigger i * bounds.x, j * bounds.y]
        q.x == p.x + i * bounds.x && q.y == p.y + j * bounds.y
}

/// The body after one tick of motion, wrapping its position when `wrap` holds.
pub open spec fn stepped(b: Body, bounds: Vec2, wrap: bool) -> Body {
    let v = new_velocity(b);
    let p = clamped_sum(b.position, v);
    Body {
        position: if wrap {
            wrapped(p, bounds)
        } else {
            p
        },
        velocity: v,
        rotation: turned_rotation(b),
        ..b
    }
}

pub(crate) fn clamp_sum(u: Vec2, v: Vec2) -> (r: Vec2)
    requires
        within(u, 2 * LIMIT),
        within(v, 2 * LIMIT),
    ensures
        r == clamped_sum(u, v),
        within(r, LIMIT as int),
{
    let x = u.x + v.x;
    let y = u.y + v.y;
    Vec2 {
        x: if x > LIMIT {
            LIMIT
        } else if x < -LIMIT {
            -LIMIT
        } else {
            x
        },
        y: if y > LIMIT {
            LIMIT
        } else if y < -LIMIT {
            -LIMIT
        } else {
            y
        },
    }
}

fn damp(x: i64) -> (r: i64)
    requires
        -LIMIT <= x <= LIMIT,
    ensures
        r == damped(x as int),
        -LIMIT <= r <= LIMIT,
        x >= 0 ==> 0 <= r <= x,
        x < 0 ==> x <= r <= 0,
{
    let m: u64 = if x >= 0 {
        x as u64
    } else {
        (-x) as u64
    };
    let q: u64 = m * 99 / 100;
    if x >= 0 {
        q as i64
    } else {
        -(q as i64)
    }
}

fn drag(v: Vec2) -> (r: Vec2)
    requires
        within(v, LIMIT as int),
    ensures
        r == dragged(v),
        within(r, LIMIT as int),
{
    Vec2 { x: damp(v.x), y: damp(v.y) }
}

fn euclid_rem(x: i64, m: i64) -> (r: i64)
    requires
        m > 0,
    ensures
        r == x % m,
        0 <= r < m,
{
    proof {
        lemma_mod_bound(x as int, m as int);
    }
    match x.checked_rem_euclid(m) {
        Some(r) => r,
        None => 0,
    }
}

impl Body {
    /// Advances the body by one tick: thrust along the current heading, turn,
    /// drag, move by the new velocity, then wrap into the screen when `wrap` holds.
    pub fn step(&mut self, bounds: Vec2, wrap: bool)
        requires
            old(self).wf(),
            bounds_ok(bounds),
        ensures
            *final(self) == stepped(*old(self), bounds, wrap),
            final(self).wf(),
            final(self).rotation < TURN,
            wrap ==> 0 <= final(self).position.x < bounds.x && 0 <= final(self).position.y
                < bounds.y,
            wrap ==> shifted_by_screens(
                clamped_sum(old(self).position, final(self).velocity),
                final(self).position,
                bounds,
            ),
    {
        if self.accelerating {
            let thrust = turn(Vec2 { x: 0, y: -THRUST }, self.rotation);
            self.velocity = clamp_sum(self.velocity, thrust);
        }
        if self.turning_right && !self.turning_left {
            self.rotation = (self.rotation + TURN - TURN_RATE) % TURN;
        } else if self.turning_left && !self.turning_right {
            self.rotation = (self.rotation + TURN_RATE) % TURN;
        }
        if self.has_drag {
            self.velocity = drag(self.velocity);
        }
        self.position = clamp_sum(self.position, self.velocity);
        let ghost moved = self.position;
        if wrap {
            proof {
                vstd::arithmetic::div_mod::lemma_fundamental_div_mod(moved.x as int, bounds.x as int);
                vstd::arithmetic::div_mod::lemma_fundamental_div_mod(moved.y as int, bounds.y as int);
                let i = -(moved.x / bounds.x);
                let j = -(moved.y / bounds.y);
                assert(moved.x % bounds.x == moved.x + i * bounds.x) by (nonlinear_arith)
                    requires
                        moved.x == bounds.x * (moved.x / bounds.x) + moved.x % bounds.x,
                        i == -(moved.x / bounds.x),
                ;
                assert(moved.y % bounds.y == moved.y + j * bounds.y) by (nonlinear_arith)
                    requires
                        moved.y == bounds.y * (moved.y / bounds.y) + moved.y % bounds.y,
                        j == -(moved.y / bounds.y),
                ;
                assert(shifted_by_screens(moved, wrapped(moved, bounds), bounds));
            }
            self.position = Vec2 {
                x: euclid_rem(self.position.x, bounds.x),
                y: euclid_rem(self.position.y, bounds.y),
            };
        }
    }
}

} // verus!
