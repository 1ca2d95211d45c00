use verlet::body::{Vec2, VerletObject};
use verlet::solver::Solver;
use verlet::UNIT;

fn world(cell: i64, gravity_y: i64, anti_pressure: bool) -> Solver {
    let mut s = Solver::new(cell, 1000 * UNIT, 1000 * UNIT);
    s.gravity = Vec2::new(0, gravity_y);
    s.anti_pressure = anti_pressure;
    s
}

#[test]
fn free_fall_accelerates_downward() {
    // one body at (500, 100), at rest, g = (0, 1000), dt = 1/60, 60 steps:
    // y grows every step and lands near 100 + 1000 / 2 within 5%.
    let mut s = world(20 * UNIT, 1000 * UNIT, false);
    let mut bodies = vec![VerletObject::new(
        Vec2::new(500 * UNIT, 100 * UNIT),
        10 * UNIT,
        (255, 255, 255),
    )];
    let mut last_y = bodies[0].position_current.y;
    for _ in 0..60 {
        s.update(&mut bodies);
        assert!(bodies[0].position_current.y > last_y);
        last_y = bodies[0].position_current.y;
    }
    assert!(last_y > 570 * UNIT, "fell too little: {last_y}");
    assert!(last_y < 630 * UNIT, "fell too far: {last_y}");
}

#[test]
fn pair_collision_pushes_apart() {
    // overlapping pair on one axis, no gravity: one update separates the
    // centers to the sum of the radii, symmetrically, without touching y.
    let mut s = world(20 * UNIT, 0, false);
    let mut bodies = vec![
        VerletObject::new(Vec2::new(500 * UNIT, 500 * UNIT), 10 * UNIT, (0, 0, 0)),
        VerletObject::new(Vec2::new(515 * UNIT, 500 * UNIT), 10 * UNIT, (0, 0, 0)),
    ];
    s.update(&mut bodies);
    let a = &bodies[0];
    let b = &bodies[1];
    assert!(a.position_current.x < 500 * UNIT);
    assert!(b.position_current.x > 515 * UNIT);
    assert_eq!(a.position_current.y, 500 * UNIT);
    assert_eq!(b.position_current.y, 500 * UNIT);
    let axis = b.position_current.x - a.position_current.x;
    assert!((axis - 20 * UNIT).abs() < UNIT / 20, "axis: {axis}");
}

#[test]
fn wall_clamp_is_exact() {
    // a body halfway through the left wall is put back exactly at x = r by
    // the constraint pass.
    let s = world(20 * UNIT, 0, false);
    let mut bodies = vec![VerletObject::new(
        Vec2::new(5 * UNIT, 500 * UNIT),
        10 * UNIT,
        (0, 0, 0),
    )];
    s.apply_constraint(&mut bodies);
    assert_eq!(bodies[0].position_current.x, 10 * UNIT);
    assert_eq!(bodies[0].position_current.y, 500 * UNIT);
    assert_eq!(bodies[0].move_acc, 5 * UNIT);
}

#[test]
fn constraint_twice_equals_once() {
    let s = world(20 * UNIT, 0, false);
    let mut bodies = vec![VerletObject::new(
        Vec2::new(-50 * UNIT, 990 * UNIT),
        10 * UNIT,
        (0, 0, 0),
    )];
    bodies[0].move_self(Vec2::new(0, 1000 * UNIT));
    s.apply_constraint(&mut bodies);
    let once = bodies[0];
    s.apply_constraint(&mut bodies);
    let twice = bodies[0];
    assert_eq!(once.position_current, twice.position_current);
    assert_eq!(once.position_old, twice.position_old);
    assert_eq!(once.acceleration, twice.acceleration);
    assert_eq!(once.move_acc, twice.move_acc);
    assert_eq!(once.inertia, twice.inertia);
    assert_eq!(once.position_current.x, 10 * UNIT);
    assert_eq!(once.position_current.y, 990 * UNIT);
}

#[test]
fn grid_rebuild_counts_every_body_once() {
    // a thousand bodies at distinct in-bounds positions: the cell lengths
    // sum to a thousand; a clear brings the sum to zero.
    let mut s = world(10 * UNIT, 0, false);
    let mut bodies = Vec::new();
    for i in 0..1000i64 {
        let x = (i % 100) * 10 * UNIT + 5 * UNIT;
        let y = (i / 100) * 10 * UNIT + 5 * UNIT;
        bodies.push(VerletObject::new(Vec2::new(x, y), 5 * UNIT, (0, 0, 0)));
    }
    s.rebuild_grid(&bodies);
    let g = &s.uniform_grid_simple;
    let mut total = 0;
    for y in 0..g.get_height() {
        for x in 0..g.get_width() {
            total += g.get(x, y).len();
        }
    }
    assert_eq!(total, 1000);
    verlet::grid::clear_uniform_grid_simple(&mut s.uniform_grid_simple);
    let g = &s.uniform_grid_simple;
    let mut total = 0;
    for y in 0..g.get_height() {
        for x in 0..g.get_width() {
            total += g.get(x, y).len();
        }
    }
    assert_eq!(total, 0);
}

#[test]
fn one_worker_and_eight_workers_agree() {
    // the narrow phase only ever resolves pairs within one cell, and a cell
    // only moves the bodies it lists, so the worker count cannot change the
    // outcome: the runs agree exactly.
    let mut s1 = world(10 * UNIT, 200 * UNIT, true);
    let mut s8 = world(10 * UNIT, 200 * UNIT, true);
    s1.thread_count = 1;
    s8.thread_count = 8;
    let mut lattice = Vec::new();
    for i in 0..500i64 {
        let x = 100 * UNIT + (i % 25) * 12 * UNIT;
        let y = 100 * UNIT + (i / 25) * 12 * UNIT;
        lattice.push(VerletObject::new(Vec2::new(x, y), 5 * UNIT, (0, 0, 0)));
    }
    let mut b1 = lattice.clone();
    let mut b8 = lattice;
    for _ in 0..120 {
        s1.update(&mut b1);
        s8.update(&mut b8);
    }
    for (a, b) in b1.iter().zip(b8.iter()) {
        assert_eq!(a.position_current, b.position_current);
        assert_eq!(a.position_old, b.position_old);
    }
}

#[test]
fn stack_comes_to_rest() {
    // a falling column piles up on the floor; once settled, the top body
    // moves less than one world unit per step.
    let mut s = world(10 * UNIT, 200 * UNIT, true);
    let mut bodies = Vec::new();
    for k in 0..50i64 {
        let x = 500 * UNIT + (k % 3) * UNIT / 10;
        let y = 980 * UNIT - k * 11 * UNIT;
        bodies.push(VerletObject::new(Vec2::new(x, y), 5 * UNIT, (0, 0, 0)));
    }
    for _ in 0..600 {
        s.update(&mut bodies);
    }
    let top = bodies
        .iter()
        .enumerate()
        .min_by_key(|(_, b)| b.position_current.y)
        .map(|(i, _)| i)
        .unwrap();
    let before = bodies[top].position_current.y;
    s.update(&mut bodies);
    let after = bodies[top].position_current.y;
    assert!((after - before).abs() < UNIT, "top still moving: {}", after - before);
}

#[test]
fn distant_pair_is_untouched() {
    // bodies further apart than the sum of their radii are not moved by
    // pair resolution, and a frame moves them only by velocity plus the
    // acceleration term.
    let s = world(20 * UNIT, 0, false);
    let mut bodies = vec![
        VerletObject::new(Vec2::new(100 * UNIT, 100 * UNIT), 10 * UNIT, (0, 0, 0)),
        VerletObject::new(Vec2::new(200 * UNIT, 100 * UNIT), 10 * UNIT, (0, 0, 0)),
    ];
    let before = (bodies[0], bodies[1]);
    s.solve_object_to_object_collision(0, 1, &mut bodies);
    assert_eq!(bodies[0].position_current, before.0.position_current);
    assert_eq!(bodies[1].position_current, before.1.position_current);
    assert_eq!(bodies[0].position_old, before.0.position_old);
    assert_eq!(bodies[1].position_old, before.1.position_old);
}

#[test]
fn overlap_resolution_is_bounded_by_radii() {
    let s = world(20 * UNIT, 0, false);
    let mut bodies = vec![
        VerletObject::new(Vec2::new(500 * UNIT, 500 * UNIT), 10 * UNIT, (0, 0, 0)),
        VerletObject::new(Vec2::new(503 * UNIT, 504 * UNIT), 10 * UNIT, (0, 0, 0)),
    ];
    let before = (bodies[0], bodies[1]);
    s.solve_object_to_object_collision(0, 1, &mut bodies);
    let rsum = 20 * UNIT;
    assert!((bodies[0].position_current.x - before.0.position_current.x).abs() <= rsum);
    assert!((bodies[0].position_current.y - before.0.position_current.y).abs() <= rsum);
    assert!((bodies[1].position_current.x - before.1.position_current.x).abs() <= rsum);
    assert!((bodies[1].position_current.y - before.1.position_current.y).abs() <= rsum);
    // and the pair did separate along the axis
    let dx = bodies[1].position_current.x - bodies[0].position_current.x;
    let dy = bodies[1].position_current.y - bodies[0].position_current.y;
    assert!(dx > 3 * UNIT && dy > 4 * UNIT);
}

#[test]
fn coincident_pair_is_skipped() {
    // centers closer than the coincidence floor: the pair is left alone
    // rather than divided by a vanishing distance.
    let s = world(20 * UNIT, 0, false);
    let mut bodies = vec![
        VerletObject::new(Vec2::new(500 * UNIT, 500 * UNIT), 10 * UNIT, (0, 0, 0)),
        VerletObject::new(Vec2::new(500 * UNIT + 1000, 500 * UNIT), 10 * UNIT, (0, 0, 0)),
    ];
    let before = (bodies[0], bodies[1]);
    s.solve_object_to_object_collision(0, 1, &mut bodies);
    assert_eq!(bodies[0].position_current, before.0.position_current);
    assert_eq!(bodies[1].position_current, before.1.position_current);
}

#[test]
fn set_object_velocity_uses_frame_rate() {
    let s = world(20 * UNIT, 0, false);
    let mut b = VerletObject::new(Vec2::new(100 * UNIT, 100 * UNIT), 10 * UNIT, (0, 0, 0));
    s.set_object_velocity(&mut b, Vec2::new(600 * UNIT, 0));
    // 600 units per second at 60 steps per second: 10 units per step
    let v = b.velocity();
    assert_eq!(v.x, 10 * UNIT);
    assert_eq!(v.y, 0);
}

#[test]
fn update_reports_elapsed_time() {
    let mut s = world(20 * UNIT, 200 * UNIT, true);
    let mut bodies = vec![VerletObject::new(
        Vec2::new(500 * UNIT, 100 * UNIT),
        10 * UNIT,
        (0, 0, 0),
    )];
    s.update(&mut bodies);
    assert!(s.timer.elapsed_ms() >= 0);
}

#[test]
fn sub_steps_divide_the_frame() {
    // eight sub-steps at dt/8 cover the same frame: a free-falling body
    // lands near the single-step position.
    let mut coarse = world(20 * UNIT, 1000 * UNIT, false);
    let mut fine = world(20 * UNIT, 1000 * UNIT, false);
    fine.sub_steps = 8;
    let start = VerletObject::new(Vec2::new(500 * UNIT, 100 * UNIT), 10 * UNIT, (0, 0, 0));
    let mut b1 = vec![start];
    let mut b8 = vec![start];
    for _ in 0..60 {
        coarse.update(&mut b1);
        fine.update(&mut b8);
    }
    let y1 = b1[0].position_current.y;
    let y8 = b8[0].position_current.y;
    assert!((y1 - y8).abs() < 20 * UNIT, "coarse {y1} fine {y8}");
    assert!(y8 > 500 * UNIT && y8 < 700 * UNIT);
}

#[test]
fn more_workers_than_columns_still_resolves() {
    // a slab width of zero puts every column into the last worker's second
    // pass; collisions are still resolved exactly once.
    let mut s = world(20 * UNIT, 0, false);
    s.thread_count = 64;
    let mut few = world(20 * UNIT, 0, false);
    few.thread_count = 1;
    let start = vec![
        VerletObject::new(Vec2::new(500 * UNIT, 500 * UNIT), 10 * UNIT, (0, 0, 0)),
        VerletObject::new(Vec2::new(515 * UNIT, 500 * UNIT), 10 * UNIT, (0, 0, 0)),
    ];
    let mut many_bodies = start.clone();
    let mut few_bodies = start;
    s.update(&mut many_bodies);
    few.update(&mut few_bodies);
    assert!(many_bodies[0].position_current.x < 500 * UNIT);
    assert!(many_bodies[1].position_current.x > 515 * UNIT);
    assert_eq!(
        many_bodies[0].position_current,
        few_bodies[0].position_current
    );
    assert_eq!(
        many_bodies[1].position_current,
        few_bodies[1].position_current
    );
}
