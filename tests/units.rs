use asteroids::body::{Body, WrappingBehavior};
use asteroids::entity::{EntityKind, InputEvent};
use asteroids::entity::Bounding;
use asteroids::fixed::{
    cos_of, sin_of, trig_of, turn, Vec2, HALF_TURN, QUARTER_TURN, TRIG_ONE, TURN, UNIT,
};
use asteroids::geometry::{triangles_intersect, Triangle};
use asteroids::render::{wrap_copies, Segment};
use asteroids::shapes::{
    asteroid_verts, bullet_bounds, new_asteroid, new_player, polygon_from_radii,
};
use asteroids::{rotation_matrix, shade, AsPoint, Rgba};

#[test]
fn sine_and_cosine_at_quarter_turns() {
    assert_eq!(sin_of(0), 0);
    assert_eq!(sin_of(QUARTER_TURN), TRIG_ONE);
    assert_eq!(sin_of(HALF_TURN), 0);
    assert_eq!(sin_of(3 * QUARTER_TURN), -TRIG_ONE);
    assert_eq!(cos_of(0), TRIG_ONE);
    assert_eq!(cos_of(HALF_TURN), -TRIG_ONE);
    // One twelfth of a turn: sine of 30 degrees is one half.
    assert_eq!(sin_of(210), 500000);
}

#[test]
fn rotation_matrix_columns() {
    let m = rotation_matrix(QUARTER_TURN);
    assert_eq!(m.x_axis, Vec2 { x: 0, y: -TRIG_ONE });
    assert_eq!(m.y_axis, Vec2 { x: TRIG_ONE, y: 0 });
    let id = rotation_matrix(0);
    assert_eq!(id.x_axis, Vec2 { x: TRIG_ONE, y: 0 });
    assert_eq!(id.y_axis, Vec2 { x: 0, y: TRIG_ONE });
}

#[test]
fn turning_north_by_a_quarter_points_west() {
    let north = Vec2 { x: 0, y: -UNIT };
    assert_eq!(turn(north, 0), north);
    assert_eq!(turn(north, QUARTER_TURN), Vec2 { x: -UNIT, y: 0 });
    assert_eq!(turn(north, HALF_TURN), Vec2 { x: 0, y: UNIT });
}

#[test]
fn shade_scales_and_saturates() {
    let c = Rgba { r: 100, g: 200, b: 50, a: 7 };
    assert_eq!(shade(c, 500), Rgba { r: 50, g: 100, b: 25, a: 7 });
    assert_eq!(shade(c, 2000), Rgba { r: 200, g: 255, b: 100, a: 7 });
    assert_eq!(shade(c, 0), Rgba { r: 0, g: 0, b: 0, a: 7 });
}

#[test]
fn as_point_truncates_towards_zero() {
    assert_eq!(Vec2 { x: 1_500_000, y: -2_500_000 }.as_point(), (1, -2));
    assert_eq!(Vec2 { x: -999_999, y: 0 }.as_point(), (0, 0));
    assert_eq!(Vec2 { x: i64::MAX, y: i64::MIN }.as_point(), (i32::MAX, i32::MIN));
}

#[test]
fn turning_intents_change_rotation() {
    let mut b = Body::at(Vec2 { x: 0, y: 0 });
    b.turning_left = true;
    b.step(Vec2 { x: 10 * UNIT, y: 10 * UNIT }, true);
    assert_eq!(b.rotation, 14);
    b.turning_left = false;
    b.turning_right = true;
    b.step(Vec2 { x: 10 * UNIT, y: 10 * UNIT }, true);
    b.step(Vec2 { x: 10 * UNIT, y: 10 * UNIT }, true);
    assert_eq!(b.rotation, 2520 - 14);
    b.turning_left = true;
    b.step(Vec2 { x: 10 * UNIT, y: 10 * UNIT }, true);
    assert_eq!(b.rotation, 2520 - 14);
}

#[test]
fn key_presses_set_and_clear_intents() {
    let mut p = new_player(Vec2 { x: 100 * UNIT, y: 100 * UNIT }, Some(1), Some(2), Some(3), Some(4));
    assert!(p.handle_event(&InputEvent::KeyDown { keycode: Some(2), repeat: false }).is_empty());
    assert!(p.body.accelerating);
    p.handle_event(&InputEvent::KeyDown { keycode: Some(3), repeat: false });
    p.handle_event(&InputEvent::KeyDown { keycode: Some(4), repeat: false });
    assert!(p.body.turning_left && p.body.turning_right);
    p.handle_event(&InputEvent::KeyUp { keycode: Some(2) });
    assert!(!p.body.accelerating);
    p.handle_event(&InputEvent::KeyUp { keycode: Some(9) });
    assert!(p.body.turning_left);
    let repeat = p.handle_event(&InputEvent::KeyDown { keycode: Some(1), repeat: true });
    assert!(repeat.is_empty());
    assert!(p.handle_event(&InputEvent::Other).is_empty());
}

#[test]
fn firing_spawns_one_bullet_ahead() {
    let mut p = new_player(Vec2 { x: 100 * UNIT, y: 100 * UNIT }, Some(1), None, None, None);
    p.body.velocity = Vec2 { x: UNIT, y: 0 };
    let shots = p.handle_event(&InputEvent::KeyDown { keycode: Some(1), repeat: false });
    assert_eq!(shots.len(), 1);
    let b = &shots[0];
    assert_eq!(b.kind, EntityKind::Bullet { ttl: 120 });
    assert_eq!(b.body.position, Vec2 { x: 100 * UNIT, y: 80 * UNIT });
    assert_eq!(b.body.velocity, Vec2 { x: UNIT, y: -4 * UNIT });
    assert_eq!(b.wrap, WrappingBehavior::Yes);
    assert!(!b.body.has_drag);
}

#[test]
fn other_kinds_ignore_events() {
    let mut rock = new_asteroid(2, Body::at(Vec2 { x: 0, y: 0 }));
    let before = rock.body;
    assert!(rock.handle_event(&InputEvent::KeyDown { keycode: Some(1), repeat: false }).is_empty());
    assert_eq!(rock.body, before);
}

#[test]
fn polygon_from_radii_places_vertices_around_a_turn() {
    let verts = polygon_from_radii(&vec![UNIT, 2 * UNIT, 3 * UNIT, 4 * UNIT]);
    assert_eq!(verts[0], Vec2 { x: 0, y: UNIT });
    assert_eq!(verts[1], Vec2 { x: 2 * UNIT, y: 0 });
    assert_eq!(verts[2], Vec2 { x: 0, y: -3 * UNIT });
    assert_eq!(verts[3], Vec2 { x: -4 * UNIT, y: 0 });
}

#[test]
fn rock_outlines_draw_radii_in_range() {
    let mut firsts = vec![];
    for _ in 0..20 {
        let verts = asteroid_verts(14, 39 * UNIT, 50 * UNIT);
        assert_eq!(verts.len(), 14);
        assert_eq!(verts[0].x, 0);
        assert!(39 * UNIT <= verts[0].y && verts[0].y <= 50 * UNIT);
        firsts.push(verts[0].y);
    }
    assert!(firsts.iter().any(|&y| y != firsts[0]));
}

#[test]
fn wrap_copies_cover_crossed_edges() {
    let bounds = Vec2 { x: 100, y: 50 };
    let inside = wrap_copies(Vec2 { x: 10, y: 10 }, Vec2 { x: 20, y: 20 }, bounds);
    assert_eq!(inside, vec![Vec2 { x: 0, y: 0 }]);
    let left = wrap_copies(Vec2 { x: -5, y: 10 }, Vec2 { x: 5, y: 10 }, bounds);
    assert_eq!(left, vec![Vec2 { x: 0, y: 0 }, Vec2 { x: 100, y: 0 }]);
    let corner = wrap_copies(Vec2 { x: 95, y: 45 }, Vec2 { x: 105, y: 55 }, bounds);
    assert_eq!(
        corner,
        vec![
            Vec2 { x: 0, y: 0 },
            Vec2 { x: -100, y: 0 },
            Vec2 { x: 0, y: -50 },
            Vec2 { x: -100, y: -50 },
        ]
    );
}

#[test]
fn outline_segments_close_the_loop() {
    let ship = new_player(Vec2 { x: 100 * UNIT, y: 100 * UNIT }, None, None, None, None);
    let segs = ship.outline_segments();
    assert_eq!(segs.len(), 4);
    assert_eq!(
        segs[0],
        Segment {
            from: Vec2 { x: 100 * UNIT, y: 80 * UNIT },
            to: Vec2 { x: 110 * UNIT, y: 110 * UNIT },
        }
    );
    assert_eq!(segs[3].to, segs[0].from);
}

#[test]
fn hull_triangles_fan_from_the_centre() {
    let ship = new_player(Vec2 { x: 100 * UNIT, y: 100 * UNIT }, None, None, None, None);
    let tris = ship.bounding_triangles();
    assert_eq!(tris.len(), 4);
    assert!(tris.iter().all(|t| t.a == Vec2 { x: 100 * UNIT, y: 100 * UNIT }));
    assert_eq!(tris[3].c, Vec2 { x: 100 * UNIT, y: 80 * UNIT });
}

#[test]
fn trig_is_within_a_step_of_the_true_values() {
    for a in 0..TURN {
        let t = a as f64 * std::f64::consts::TAU / TURN as f64;
        let (s, c) = trig_of(a);
        assert!((s as f64 / TRIG_ONE as f64 - t.sin()).abs() <= 2e-6, "sin at {}", a);
        assert!((c as f64 / TRIG_ONE as f64 - t.cos()).abs() <= 2e-6, "cos at {}", a);
        let sum = s * s + c * c;
        assert!(TRIG_ONE * TRIG_ONE - 2 * TRIG_ONE <= sum && sum <= TRIG_ONE * TRIG_ONE);
    }
    assert_eq!(trig_of(315), (707106, 707107));
}

#[test]
fn turning_keeps_length() {
    let v = Vec2 { x: 30 * UNIT, y: 0 };
    for a in (0..TURN).step_by(7) {
        let w = turn(v, a);
        let len = ((w.x as f64).powi(2) + (w.y as f64).powi(2)).sqrt() / UNIT as f64;
        assert!((len - 30.0).abs() < 1e-4, "length {} at {}", len, a);
    }
}

#[test]
fn drag_decays_both_signs_alike() {
    let mut b = Body::at(Vec2 { x: 0, y: 0 });
    b.has_drag = true;
    b.velocity = Vec2 { x: 50, y: -50 };
    b.step(Vec2 { x: 10 * UNIT, y: 10 * UNIT }, false);
    assert_eq!(b.velocity, Vec2 { x: 49, y: -49 });
    b.velocity = Vec2 { x: -1000, y: 1000 };
    b.step(Vec2 { x: 10 * UNIT, y: 10 * UNIT }, false);
    assert_eq!(b.velocity, Vec2 { x: -990, y: 990 });
}

#[test]
fn bullet_hull_covers_its_whole_rectangle() {
    let hull = match bullet_bounds() {
        Bounding::Triangles { triangles } => triangles,
        _ => panic!("bullet hull is a list of triangles"),
    };
    let inside = |x: i64, y: i64| {
        let p = Vec2 { x, y };
        let dot = Triangle { a: p, b: p, c: p };
        hull.iter().any(|t| triangles_intersect(t, &dot))
    };
    for &(x, y) in &[(0, 25), (0, -25), (5, 0), (-5, 0), (0, 0), (9, 29), (-9, 29), (9, -29)] {
        assert!(inside(x * UNIT / 10, y * UNIT / 10), "({}, {}) tenths", x, y);
    }
    assert!(!inside(0, 31 * UNIT / 10));
    assert!(!inside(11 * UNIT / 10, 0));
}
