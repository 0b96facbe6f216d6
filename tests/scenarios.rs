use asteroids::body::{Body, WrappingBehavior};
use asteroids::entity::{EntityKind, InputEvent};
use asteroids::fixed::{Vec2, UNIT};
use asteroids::shapes::{new_asteroid, new_bullet, new_player};
use asteroids::world::World;

fn screen() -> Vec2 {
    Vec2 { x: 800 * UNIT, y: 600 * UNIT }
}

fn at(x: i64, y: i64) -> Vec2 {
    Vec2 { x: x * UNIT, y: y * UNIT }
}

fn count(world: &World, pred: fn(&EntityKind) -> bool) -> usize {
    world.entities.iter().filter(|e| pred(&e.kind)).count()
}

#[test]
fn thrust_with_drag_matches_closed_form() {
    let mut player = new_player(at(100, 100), None, Some(1), None, None);
    player.body.accelerating = true;
    assert!(player.body.has_drag);
    for _ in 0..60 {
        player.step(screen());
    }
    // v_n = (v_{n-1} + 0.1) * 0.99 along the heading (north, negative y).
    let mut expected = 0.0f64;
    for _ in 0..60 {
        expected = (expected + 0.1) * 0.99;
    }
    let vy = player.body.velocity.y as f64 / UNIT as f64;
    let vx = player.body.velocity.x as f64 / UNIT as f64;
    // Each tick rounds the damped velocity by less than one fixed-point step.
    assert!((vy + expected).abs() < 60.0 / UNIT as f64, "vy = {}, expected {}", vy, -expected);
    assert!(vx.abs() < 1e-9);
    assert_eq!(player.body.rotation, 0);
}

#[test]
fn bullet_lives_exactly_its_ttl() {
    let player = new_player(at(400, 300), Some(7), None, None, None);
    let mut world = World::new(vec![player]);
    let fire = vec![InputEvent::KeyDown { keycode: Some(7), repeat: false }];
    let none: Vec<InputEvent> = vec![];
    let is_bullet = |k: &EntityKind| matches!(k, EntityKind::Bullet { .. });
    world.tick(&fire, screen());
    assert_eq!(count(&world, is_bullet), 1);
    for tick in 1..=119 {
        world.tick(&none, screen());
        assert_eq!(count(&world, is_bullet), 1, "bullet missing at tick {}", tick);
    }
    world.tick(&none, screen());
    assert_eq!(count(&world, is_bullet), 0);
}

#[test]
fn bullet_splits_large_asteroid() {
    let rock = new_asteroid(3, Body::at(at(400, 300)));
    let shooter = Body::at(at(400, 320));
    let shot = new_bullet(&shooter);
    assert_eq!(shot.body.position, at(400, 300));
    let mut world = World::new(vec![rock, shot]);
    let contacts = world.tick(&vec![], screen());
    assert!(contacts.is_empty());
    let big = count(&world, |k| matches!(k, EntityKind::Asteroid { size: 3 }));
    let medium = count(&world, |k| matches!(k, EntityKind::Asteroid { size: 2 }));
    let debris = count(&world, |k| matches!(k, EntityKind::Debris { .. }));
    let bullets = count(&world, |k| matches!(k, EntityKind::Bullet { .. }));
    assert_eq!(big, 0);
    assert_eq!(medium, 2);
    assert_eq!(debris, 10);
    assert_eq!(bullets, 0);
    assert_eq!(world.entities.len(), 12);
    assert!(world.entities.iter().all(|e| e.wrap == WrappingBehavior::Yes));
}

#[test]
fn smallest_asteroid_leaves_only_debris() {
    let rock = new_asteroid(1, Body::at(at(200, 200)));
    let shot = new_bullet(&Body::at(at(200, 220)));
    let mut world = World::new(vec![shot, rock]);
    world.tick(&vec![], screen());
    let asteroids = count(&world, |k| matches!(k, EntityKind::Asteroid { .. }));
    let debris = count(&world, |k| matches!(k, EntityKind::Debris { .. }));
    assert_eq!(asteroids, 0);
    assert_eq!(debris, 2);
    assert_eq!(world.entities.len(), 2);
}

#[test]
fn player_contacts_are_reported_not_resolved() {
    let a = new_player(at(300, 300), None, None, None, None);
    let b = new_player(at(305, 300), None, None, None, None);
    let mut world = World::new(vec![a, b]);
    let contacts = world.tick(&vec![], screen());
    assert_eq!(contacts.len(), 1);
    assert_eq!(world.entities.len(), 2);
    assert!(matches!(contacts[0].first, EntityKind::Player { .. }));
    assert!(matches!(contacts[0].second, EntityKind::Player { .. }));
}

#[test]
fn far_apart_entities_do_not_collide() {
    let rock = new_asteroid(2, Body::at(at(100, 100)));
    let shot = new_bullet(&Body::at(at(600, 500)));
    let mut world = World::new(vec![rock, shot]);
    world.tick(&vec![], screen());
    assert_eq!(world.entities.len(), 2);
}

#[test]
fn new_bullets_do_not_see_the_same_batch() {
    let player = new_player(at(400, 300), Some(7), None, None, None);
    let mut world = World::new(vec![player]);
    let events = vec![
        InputEvent::KeyDown { keycode: Some(7), repeat: false },
        InputEvent::KeyDown { keycode: Some(7), repeat: false },
        InputEvent::KeyDown { keycode: Some(7), repeat: true },
    ];
    world.dispatch_events(&events);
    assert_eq!(world.entities.len(), 3);
    assert!(matches!(world.entities[1].kind, EntityKind::Bullet { ttl: 120 }));
    assert!(matches!(world.entities[2].kind, EntityKind::Bullet { ttl: 120 }));
}
