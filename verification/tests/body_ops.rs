use verlet::body::{Vec2, VerletObject};
use verlet::UNIT;

#[test]
fn new_body_is_at_rest() {
    let b = VerletObject::new(Vec2::new(3 * UNIT, 4 * UNIT), UNIT, (1, 2, 3));
    assert_eq!(b.position_current.x, 3 * UNIT);
    assert_eq!(b.position_old.x, 3 * UNIT);
    assert_eq!(b.position_old.y, 4 * UNIT);
    assert_eq!(b.acceleration.x, 0);
    assert_eq!(b.acceleration.y, 0);
    assert_eq!(b.inertia, UNIT);
    assert_eq!(b.move_acc, 0);
    assert_eq!(b.color, (1, 2, 3));
    let v = b.velocity();
    assert_eq!((v.x, v.y), (0, 0));
}

#[test]
fn accelerate_accumulates() {
    let mut b = VerletObject::new(Vec2::new(0, 0), UNIT, (0, 0, 0));
    b.accelerate(Vec2::new(10, -3));
    b.accelerate(Vec2::new(1, 1));
    assert_eq!(b.acceleration.x, 11);
    assert_eq!(b.acceleration.y, -2);
}

#[test]
fn move_self_shifts_position_and_accumulates() {
    let mut b = VerletObject::new(Vec2::new(100, 200), UNIT, (0, 0, 0));
    b.move_self(Vec2::new(3, -4));
    assert_eq!(b.position_current.x, 103);
    assert_eq!(b.position_current.y, 196);
    // the previous position is untouched, so the implicit velocity changed
    assert_eq!(b.position_old.x, 100);
    assert_eq!(b.position_old.y, 200);
    assert_eq!(b.move_acc, 7);
    let v = b.velocity();
    assert_eq!((v.x, v.y), (3, -4));
}

#[test]
fn set_velocity_recedes_previous_position() {
    let mut b = VerletObject::new(Vec2::new(0, 0), UNIT, (0, 0, 0));
    b.set_velocity(Vec2::new(600, -120), 60);
    assert_eq!(b.position_old.x, -10);
    assert_eq!(b.position_old.y, 2);
    let v = b.velocity();
    assert_eq!((v.x, v.y), (10, -2));
}

#[test]
fn update_position_plain_exact() {
    // v = 0, a = (0, 1000 world units/s^2): one step moves by a / 3600,
    // truncated.
    let mut b = VerletObject::new(Vec2::new(500 * UNIT, 100 * UNIT), 10 * UNIT, (0, 0, 0));
    b.accelerate(Vec2::new(0, 1000 * UNIT));
    b.update_position(60, 0, false);
    assert_eq!(b.position_current.y, 100 * UNIT + 1000 * UNIT / 3600);
    assert_eq!(b.position_old.y, 100 * UNIT);
    assert_eq!(b.acceleration.y, 0);
}

#[test]
fn update_position_anti_pressure_at_rest_matches_plain() {
    // with zero velocity and zero accumulated shove, the effective inertia
    // is one and the damping term vanishes: both models agree.
    let mut plain = VerletObject::new(Vec2::new(0, 0), UNIT, (0, 0, 0));
    let mut anti = plain;
    plain.accelerate(Vec2::new(7200, 3600));
    anti.accelerate(Vec2::new(7200, 3600));
    plain.update_position(60, 0, false);
    anti.update_position(60, 35, true);
    assert_eq!(plain.position_current.x, anti.position_current.x);
    assert_eq!(plain.position_current.y, anti.position_current.y);
    assert_eq!(plain.position_current.x, 2);
    assert_eq!(plain.position_current.y, 1);
}

#[test]
fn update_position_halves_move_acc() {
    let mut b = VerletObject::new(Vec2::new(0, 0), UNIT, (0, 0, 0));
    b.move_self(Vec2::new(9, 0));
    assert_eq!(b.move_acc, 9);
    b.update_position(60, 35, true);
    assert_eq!(b.move_acc, 4);
    assert!(b.inertia > UNIT);
}
