use asteroids::body::{Body, WrappingBehavior};
use asteroids::entity::{Entity, EntityKind, Polygon, StepResult};
use asteroids::fixed::{Vec2, TURN, UNIT};
use asteroids::geometry::{boxes_overlap_exec, triangles_intersect, Triangle};
use asteroids::shapes::{new_asteroid, new_debris, new_player, split_asteroid};
use std::sync::Arc;

fn screen() -> Vec2 {
    Vec2 { x: 640 * UNIT, y: 480 * UNIT }
}

struct Lcg(u64);

impl Lcg {
    fn next(&mut self) -> u64 {
        self.0 = self.0.wrapping_mul(6364136223846793005).wrapping_add(1442695040888963407);
        self.0 >> 33
    }
    fn range(&mut self, lo: i64, hi: i64) -> i64 {
        lo + (self.next() % ((hi - lo + 1) as u64)) as i64
    }
}

#[test]
fn rotation_stays_normalised() {
    let mut rng = Lcg(1);
    let mut ship = new_player(Vec2 { x: 10 * UNIT, y: 10 * UNIT }, None, None, None, None);
    for _ in 0..2000 {
        ship.body.turning_left = rng.next() % 2 == 0;
        ship.body.turning_right = rng.next() % 3 == 0;
        ship.body.accelerating = rng.next() % 2 == 0;
        ship.step(screen());
        assert!(ship.body.rotation < TURN);
    }
}

#[test]
fn wrapped_position_stays_on_screen() {
    let mut rock = new_asteroid(1, Body::at(Vec2 { x: 0, y: 0 }));
    rock.body.velocity = Vec2 { x: -1700 * UNIT - 3, y: 2500 * UNIT + 11 };
    for _ in 0..50 {
        rock.step(screen());
        let p = rock.body.position;
        assert!(0 <= p.x && p.x < screen().x, "x = {}", p.x);
        assert!(0 <= p.y && p.y < screen().y, "y = {}", p.y);
    }
}

#[test]
fn once_on_screen_becomes_yes_and_stays() {
    let mut rock = new_asteroid(1, Body::at(Vec2 { x: -100 * UNIT, y: 200 * UNIT }));
    rock.wrap = WrappingBehavior::OnceOnScreen;
    rock.body.velocity = Vec2 { x: 5 * UNIT, y: 0 };
    let mut seen_yes = false;
    for _ in 0..400 {
        rock.step(screen());
        if seen_yes {
            assert_eq!(rock.wrap, WrappingBehavior::Yes);
        } else if rock.wrap == WrappingBehavior::Yes {
            seen_yes = true;
        } else {
            assert_eq!(rock.wrap, WrappingBehavior::OnceOnScreen);
        }
    }
    assert!(seen_yes);
}

#[test]
fn no_wrap_never_changes() {
    let mut rock = new_asteroid(1, Body::at(Vec2 { x: 100 * UNIT, y: 100 * UNIT }));
    rock.wrap = WrappingBehavior::No;
    rock.body.velocity = Vec2 { x: 50 * UNIT, y: 0 };
    for _ in 0..40 {
        rock.step(screen());
        assert_eq!(rock.wrap, WrappingBehavior::No);
    }
    assert_eq!(rock.body.position.x, 2100 * UNIT);
}

#[test]
fn split_counts_follow_size() {
    let parent = Body::at(Vec2 { x: 50 * UNIT, y: 50 * UNIT });
    for size in 1..=3usize {
        let pieces = split_asteroid(size, &parent, 0);
        let children = pieces
            .iter()
            .filter(|e| e.kind == EntityKind::Asteroid { size: size - 1 })
            .count();
        let debris = pieces.iter().filter(|e| e.kind == EntityKind::Debris { ttl: 30 }).count();
        assert_eq!(children, if size > 1 { 2 } else { 0 });
        assert_eq!(debris, size * 4 - 2);
        assert_eq!(pieces.len(), children + debris);
    }
}

#[test]
fn split_children_are_pushed_sideways() {
    let parent = Body::at(Vec2 { x: 50 * UNIT, y: 50 * UNIT });
    let pieces = split_asteroid(2, &parent, 0);
    // A bullet travelling north: the children go one unit east and west.
    assert_eq!(pieces[0].body.position, Vec2 { x: 51 * UNIT, y: 50 * UNIT });
    assert_eq!(pieces[0].body.velocity, Vec2 { x: UNIT, y: 0 });
    assert_eq!(pieces[1].body.position, Vec2 { x: 49 * UNIT, y: 50 * UNIT });
    assert_eq!(pieces[1].body.velocity, Vec2 { x: -UNIT, y: 0 });
}

#[test]
fn debris_lives_exactly_its_ttl() {
    let mut bit = new_debris(Body::at(Vec2 { x: 10 * UNIT, y: 10 * UNIT }));
    for _ in 0..30 {
        assert_eq!(bit.step(screen()), StepResult::Keep);
    }
    assert_eq!(bit.kind, EntityKind::Debris { ttl: 0 });
    assert_eq!(bit.step(screen()), StepResult::RemoveEntity);
}

fn kinds() -> Vec<EntityKind> {
    vec![
        EntityKind::Asteroid { size: 2 },
        EntityKind::Bullet { ttl: 3 },
        EntityKind::Debris { ttl: 3 },
        EntityKind::Player { fire: None, accelerate: None, turn_left: None, turn_right: None },
    ]
}

fn bare(kind: EntityKind) -> Entity {
    Entity {
        body: Body::at(Vec2 { x: 0, y: 0 }),
        wrap: WrappingBehavior::Yes,
        sprite_verts: None,
        bounding: None,
        kind,
    }
}

#[test]
fn collidability_is_symmetric() {
    for a in kinds() {
        for b in kinds() {
            let (x, y) = (bare(a), bare(b));
            assert_eq!(x.collides_with(&y), y.collides_with(&x));
        }
    }
    let k = kinds();
    assert!(bare(k[0]).collides_with(&bare(k[1])));
    assert!(bare(k[0]).collides_with(&bare(k[3])));
    assert!(bare(k[1]).collides_with(&bare(k[3])));
    assert!(bare(k[3]).collides_with(&bare(k[3])));
    assert!(!bare(k[0]).collides_with(&bare(k[0])));
    assert!(!bare(k[1]).collides_with(&bare(k[1])));
    assert!(!bare(k[2]).collides_with(&bare(k[3])));
}

fn random_triangle(rng: &mut Lcg) -> Triangle {
    let mut p = || Vec2 { x: rng.range(-50, 50) * UNIT / 10, y: rng.range(-50, 50) * UNIT / 10 };
    Triangle { a: p(), b: p(), c: p() }
}

#[test]
fn intersecting_triangles_have_overlapping_boxes() {
    let mut rng = Lcg(42);
    let mut hits = 0;
    for _ in 0..5000 {
        let s = random_triangle(&mut rng);
        let t = random_triangle(&mut rng);
        if triangles_intersect(&s, &t) {
            hits += 1;
            assert!(boxes_overlap_exec(&s, &t));
        }
    }
    assert!(hits > 0);
}

#[test]
fn separated_triangles_do_not_intersect() {
    let s = Triangle {
        a: Vec2 { x: 0, y: 0 },
        b: Vec2 { x: 10, y: 0 },
        c: Vec2 { x: 0, y: 10 },
    };
    // Boxes overlap but the hypotenuse separates them.
    let t = Triangle {
        a: Vec2 { x: 9, y: 9 },
        b: Vec2 { x: 12, y: 9 },
        c: Vec2 { x: 9, y: 12 },
    };
    assert!(boxes_overlap_exec(&s, &t));
    assert!(!triangles_intersect(&s, &t));
    let u = Triangle {
        a: Vec2 { x: 4, y: 4 },
        b: Vec2 { x: 20, y: 4 },
        c: Vec2 { x: 4, y: 20 },
    };
    assert!(triangles_intersect(&s, &u));
}

#[test]
fn entities_without_hulls_never_collide() {
    let mut a = bare(EntityKind::Bullet { ttl: 1 });
    let b = new_asteroid(3, Body::at(Vec2 { x: 0, y: 0 }));
    assert!(!a.collision(&b));
    a.bounding = Some(asteroids::shapes::bullet_bounds());
    a.sprite_verts = Some(Polygon { verts: Arc::new(asteroids::shapes::bullet_verts()) });
    assert!(a.collision(&b));
    assert!(b.collision(&a));
    let far = Entity { body: Body::at(Vec2 { x: 300 * UNIT, y: 0 }), ..a };
    assert!(!far.collision(&b));
}
