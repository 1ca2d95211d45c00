//! The physics core. A frame is: gravity, wall constraint, broad phase,
//! narrow phase over a two-pass column schedule, wall constraint again, and
//! one Verlet step — each phase an exact function of its inputs.

use vstd::prelude::*;
use vstd::math::abs;
use crate::body::{Vec2, VerletObject, body_ok, vec_in_band, vel, accelerate_spec, move_self_spec, set_velocity_spec, integrate_spec};
use crate::grid::{UniformGridSimple, contents, cleared, insert_spec, point_in_grid};
use crate::num::{tdiv, sqrt_f, div_i64, div_i128, isqrt_u64, lemma_tdiv_bounds, lemma_tdiv_magnitude, lemma_mul_bound, lemma_sqrt_f, COORD_LIMIT};
use crate::{UNIT, RADIUS_LIMIT, INERTIA_LIMIT, DT_INV_LIMIT, DAMPING_LIMIT};

verus! {

/// Largest world side length (a million world units).
pub const WORLD_LIMIT: i64 = 1_000_000_000_000;

/// Squared-distance floor under which a pair is considered coincident and
/// skipped: a hundredth of a square world unit.
pub const EPS_SQ: i64 = 10_000_000_000;

/// The simulation world and its configuration. Bodies are owned by the
/// caller; the grid is owned here and rebuilt every step.
pub struct Solver {
    pub gravity: Vec2,
    pub sub_steps: u32,
    pub dt_inv: i64,
    pub uniform_grid_simple: UniformGridSimple,
    pub world_width: i64,
    pub world_height: i64,
    pub cell_size: i64,
    pub thread_count: usize,
    pub anti_pressure: bool,
    pub damping: i64,
    pub cohesion_num: i64,
    pub cohesion_den: i64,
    pub timer: stopwatch::Stopwatch,
}

impl Solver {
    /// The configuration is inside its bands and the grid matches the world.
    pub open spec fn wf(&self) -> bool {
        &&& self.uniform_grid_simple.wf()
        &&& self.uniform_grid_simple.spec_width() == tdiv(
            self.world_width as int,
            self.cell_size as int,
        )
        &&& self.uniform_grid_simple.spec_height() == tdiv(
            self.world_height as int,
            self.cell_size as int,
        )
        &&& self.uniform_grid_simple@.len() == self.uniform_grid_simple.spec_width()
            * self.uniform_grid_simple.spec_height()
        &&& 1 <= self.cell_size
        &&& 0 <= self.world_width <= WORLD_LIMIT
        &&& 0 <= self.world_height <= WORLD_LIMIT
        &&& vec_in_band(self.gravity)
        &&& 1 <= self.sub_steps
        &&& 1 <= self.dt_inv
        &&& self.dt_inv * self.sub_steps <= DT_INV_LIMIT
        &&& 0 <= self.damping <= DAMPING_LIMIT
        &&& 0 <= self.cohesion_num <= self.cohesion_den
        &&& 1 <= self.cohesion_den <= 1000
        &&& 1 <= self.thread_count
    }

    /// The per-sub-step rate: `dt_inv * sub_steps` steps per second.
    pub open spec fn spec_step_dt_inv(&self) -> int {
        self.dt_inv * self.sub_steps
    }

    /// A world of `world_width` by `world_height` units, carved into grid
    /// cells of `cell_size`, with the reference configuration: gravity 200
    /// world units per second squared downward, 60 frames per second, one
    /// sub-step, eight workers, and the anti-pressure model on.
    pub fn new(cell_size: i64, world_width: i64, world_height: i64) -> (s: Solver)
        requires
            1 <= cell_size,
            0 <= world_width <= WORLD_LIMIT,
            0 <= world_height <= WORLD_LIMIT,
            tdiv(world_width as int, cell_size as int) <= usize::MAX,
            tdiv(world_height as int, cell_size as int) <= usize::MAX,
            tdiv(world_width as int, cell_size as int) * tdiv(
                world_height as int,
                cell_size as int,
            ) <= usize::MAX,
        ensures
            s.wf(),
            s.gravity == (Vec2 { x: 0i64, y: (200 * UNIT) as i64 }),
            s.sub_steps == 1u32,
            s.dt_inv == 60,
            s.world_width == world_width,
            s.world_height == world_height,
            s.cell_size == cell_size,
            s.thread_count == 8,
            s.anti_pressure,
            s.damping == 35,
            s.cohesion_num == 1,
            s.cohesion_den == 10,
            contents(&s.uniform_grid_simple) == cleared(contents(&s.uniform_grid_simple)),
    {
        let grid = crate::grid::new(cell_size, world_width, world_height);
        Solver {
            gravity: Vec2 { x: 0, y: 200 * UNIT },
            sub_steps: 1,
            dt_inv: 60,
            uniform_grid_simple: grid,
            world_width,
            world_height,
            cell_size,
            thread_count: 8,
            anti_pressure: true,
            damping: 35,
            cohesion_num: 1,
            cohesion_den: 10,
            timer: crate::timing::stopwatch_new(),
        }
    }

    /// Set a body's velocity to grow by `velocity`, measured per second at
    /// the frame rate, by receding its previous position.
    pub fn set_object_velocity(&self, object: &mut VerletObject, velocity: Vec2)
        requires
            self.wf(),
            body_ok(*old(object)),
            velocity.x > i64::MIN,
            velocity.y > i64::MIN,
        ensures
            *final(object) == set_velocity_spec(*old(object), velocity, self.dt_inv as int),
            body_ok(*final(object)),
    {
        object.set_velocity(velocity, self.dt_inv);
    }
}

/// A body's center is inside the world rectangle, at least its radius from
/// every wall.
pub open spec fn contained(b: VerletObject, world_width: int, world_height: int) -> bool {
    &&& b.radius <= b.position_current.x <= world_width - b.radius
    &&& b.radius <= b.position_current.y <= world_height - b.radius
}

/// The wall constraint on one body: each coordinate outside `[r, side - r]`
/// is translated back onto the nearest wall by `move_self`, reading both
/// coordinates from before the pass.
pub open spec fn clamp_body_spec(
    b: VerletObject,
    world_width: int,
    world_height: int,
) -> VerletObject {
    let px = b.position_current.x as int;
    let py = b.position_current.y as int;
    let r = b.radius as int;
    let bx = if px < r {
        move_self_spec(b, Vec2 { x: (r - px) as i64, y: 0 })
    } else if px > world_width - r {
        move_self_spec(b, Vec2 { x: (world_width - r - px) as i64, y: 0 })
    } else {
        b
    };
    if py < r {
        move_self_spec(bx, Vec2 { x: 0, y: (r - py) as i64 })
    } else if py > world_height - r {
        move_self_spec(bx, Vec2 { x: 0, y: (world_height - r - py) as i64 })
    } else {
        bx
    }
}

/// After the wall constraint a body that fits the world is contained:
/// its center lies in `[r, W - r]` by `[r, H - r]`.
pub proof fn lemma_constraint_contains(b: VerletObject, world_width: int, world_height: int)
    requires
        body_ok(b),
        2 * b.radius <= world_width <= WORLD_LIMIT,
        2 * b.radius <= world_height <= WORLD_LIMIT,
    ensures
        contained(clamp_body_spec(b, world_width, world_height), world_width, world_height),
        body_ok(clamp_body_spec(b, world_width, world_height)),
{
}

/// Applying the wall constraint twice is the same as applying it once: a
/// contained body is not touched, and the first pass contains it.
pub proof fn lemma_constraint_idempotent(b: VerletObject, world_width: int, world_height: int)
    requires
        body_ok(b),
        2 * b.radius <= world_width <= WORLD_LIMIT,
        2 * b.radius <= world_height <= WORLD_LIMIT,
    ensures
        clamp_body_spec(clamp_body_spec(b, world_width, world_height), world_width, world_height)
            == clamp_body_spec(b, world_width, world_height),
{
    lemma_constraint_contains(b, world_width, world_height);
}

impl Solver {
    /// Add the configured gravity to every body's acceleration.
    pub fn apply_gravity(&self, objects: &mut Vec<VerletObject>)
        requires
            self.wf(),
            forall|i: int| 0 <= i < old(objects)@.len() ==> body_ok(#[trigger] old(objects)@[i]),
        ensures
            final(objects)@.len() == old(objects)@.len(),
            forall|i: int|
                0 <= i < old(objects)@.len() ==> final(objects)@[i] == accelerate_spec(
                    #[trigger] old(objects)@[i],
                    self.gravity,
                ),
            forall|i: int| 0 <= i < final(objects)@.len() ==> body_ok(#[trigger] final(objects)@[i]),
    {
        let n = objects.len();
        let mut i: usize = 0;
        while i < n
            invariant
                objects@.len() == n == old(objects)@.len(),
                i <= n,
                self.wf(),
                forall|j: int| i <= j < n ==> #[trigger] objects@[j] == old(objects)@[j],
                forall|j: int| i <= j < n ==> body_ok(#[trigger] objects@[j]),
                forall|j: int|
                    0 <= j < i ==> #[trigger] objects@[j] == accelerate_spec(
                        old(objects)@[j],
                        self.gravity,
                    ),
                forall|j: int| 0 <= j < i ==> body_ok(#[trigger] objects@[j]),
            decreases n - i,
        {
            let g = self.gravity;
            let body = &mut objects[i];
            body.accelerate(g);
            i = i + 1;
        }
    }

    /// Clamp every body into the world rectangle.
    pub fn apply_constraint(&self, objects: &mut Vec<VerletObject>)
        requires
            self.wf(),
            forall|i: int| 0 <= i < old(objects)@.len() ==> body_ok(#[trigger] old(objects)@[i]),
        ensures
            final(objects)@.len() == old(objects)@.len(),
            forall|i: int|
                0 <= i < old(objects)@.len() ==> final(objects)@[i] == clamp_body_spec(
                    #[trigger] old(objects)@[i],
                    self.world_width as int,
                    self.world_height as int,
                ),
            forall|i: int| 0 <= i < final(objects)@.len() ==> body_ok(#[trigger] final(objects)@[i]),
            forall|i: int|
                0 <= i < final(objects)@.len() && 2 * old(objects)@[i].radius <= self.world_width
                    && 2 * old(objects)@[i].radius <= self.world_height ==> contained(
                    #[trigger] final(objects)@[i],
                    self.world_width as int,
                    self.world_height as int,
                ),
    {
        let n = objects.len();
        let mut i: usize = 0;
        while i < n
            invariant
                objects@.len() == n == old(objects)@.len(),
                i <= n,
                self.wf(),
                forall|j: int| i <= j < n ==> #[trigger] objects@[j] == old(objects)@[j],
                forall|j: int| i <= j < n ==> body_ok(#[trigger] objects@[j]),
                forall|j: int|
                    0 <= j < i ==> #[trigger] objects@[j] == clamp_body_spec(
                        old(objects)@[j],
                        self.world_width as int,
                        self.world_height as int,
                    ),
                forall|j: int| 0 <= j < i ==> body_ok(#[trigger] objects@[j]),
            decreases n - i,
        {
            let mut body = objects[i];
            let pos = body.position_current;
            let radius = body.radius;
            if pos.x < radius {
                body.move_self(Vec2 { x: radius - pos.x, y: 0 });
            } else if pos.x > self.world_width - radius {
                body.move_self(Vec2 { x: self.world_width - radius - pos.x, y: 0 });
            }
            if pos.y < radius {
                body.move_self(Vec2 { x: 0, y: radius - pos.y });
            } else if pos.y > self.world_height - radius {
                body.move_self(Vec2 { x: 0, y: self.world_height - radius - pos.y });
            }
            objects[i] = body;
            i = i + 1;
        }
        proof {
            assert forall|k: int|
                0 <= k < objects@.len() && 2 * old(objects)@[k].radius <= self.world_width && 2
                    * old(objects)@[k].radius <= self.world_height implies contained(
                #[trigger] objects@[k],
                self.world_width as int,
                self.world_height as int,
            ) by {
                lemma_constraint_contains(
                    old(objects)@[k],
                    self.world_width as int,
                    self.world_height as int,
                );
            }
        }
    }

    /// One Verlet step for every body, at the sub-step rate.
    pub fn update_position(&self, objects: &mut Vec<VerletObject>)
        requires
            self.wf(),
            forall|i: int| 0 <= i < old(objects)@.len() ==> body_ok(#[trigger] old(objects)@[i]),
        ensures
            final(objects)@.len() == old(objects)@.len(),
            forall|i: int|
                0 <= i < old(objects)@.len() ==> final(objects)@[i] == integrate_spec(
                    #[trigger] old(objects)@[i],
                    self.spec_step_dt_inv(),
                    self.damping as int,
                    self.anti_pressure,
                ),
            forall|i: int| 0 <= i < final(objects)@.len() ==> body_ok(#[trigger] final(objects)@[i]),
    {
        proof {
            assert(self.dt_inv as int * (self.sub_steps as int) >= 1) by (nonlinear_arith)
                requires
                    self.dt_inv as int >= 1,
                    self.sub_steps as int >= 1,
            ;
        }
        let step_dt_inv: i64 = self.dt_inv * (self.sub_steps as i64);
        let n = objects.len();
        let mut i: usize = 0;
        while i < n
            invariant
                objects@.len() == n == old(objects)@.len(),
                i <= n,
                self.wf(),
                step_dt_inv == self.spec_step_dt_inv(),
                1 <= step_dt_inv <= DT_INV_LIMIT,
                forall|j: int| i <= j < n ==> #[trigger] objects@[j] == old(objects)@[j],
                forall|j: int| i <= j < n ==> body_ok(#[trigger] objects@[j]),
                forall|j: int|
                    0 <= j < i ==> #[trigger] objects@[j] == integrate_spec(
                        old(objects)@[j],
                        self.spec_step_dt_inv(),
                        self.damping as int,
                        self.anti_pressure,
                    ),
                forall|j: int| 0 <= j < i ==> body_ok(#[trigger] objects@[j]),
            decreases n - i,
        {
            let damping = self.damping;
            let anti_pressure = self.anti_pressure;
            let body = &mut objects[i];
            body.update_position(step_dt_inv, damping, anti_pressure);
            i = i + 1;
        }
    }
}

} // verus!

// The narrow phase's pair resolution.
verus! {

/// What resolving one candidate pair computes. Bodies that do not overlap,
/// or whose centers are closer than the coincidence floor, are untouched.
/// Overlapping bodies are pushed apart along their axis, each by its share
/// of half the overlap (the heavier — higher inertia — body moves less), and
/// a `cohesion_num / cohesion_den` fraction of their relative velocity is
/// exchanged through their previous positions.
pub open spec fn resolve_pair_spec(
    a: VerletObject,
    b: VerletObject,
    cohesion_num: int,
    cohesion_den: int,
    dt_inv: int,
) -> (VerletObject, VerletObject) {
    let dx = a.position_current.x - b.position_current.x;
    let dy = a.position_current.y - b.position_current.y;
    let d2 = dx * dx + dy * dy;
    let rsum = a.radius + b.radius;
    if d2 < rsum * rsum && d2 > EPS_SQ {
        let dist = sqrt_f(d2);
        let delta = tdiv(rsum - dist, 2);
        let mtot = a.inertia + b.inertia;
        let den = mtot * dist;
        let ma_x = tdiv(dx * delta * b.inertia, den);
        let ma_y = tdiv(dy * delta * b.inertia, den);
        let mb_x = tdiv(-(dx * delta) * a.inertia, den);
        let mb_y = tdiv(-(dy * delta) * a.inertia, den);
        let a1 = move_self_spec(a, Vec2 { x: ma_x as i64, y: ma_y as i64 });
        let b1 = move_self_spec(b, Vec2 { x: mb_x as i64, y: mb_y as i64 });
        let dvx = vel(a1).x - vel(b1).x;
        let dvy = vel(a1).y - vel(b1).y;
        let a2 = set_velocity_spec(
            a1,
            Vec2 {
                x: tdiv(-(cohesion_num * dvx), cohesion_den) as i64,
                y: tdiv(-(cohesion_num * dvy), cohesion_den) as i64,
            },
            dt_inv,
        );
        let b2 = set_velocity_spec(
            b1,
            Vec2 {
                x: tdiv(cohesion_num * dvx, cohesion_den) as i64,
                y: tdiv(cohesion_num * dvy, cohesion_den) as i64,
            },
            dt_inv,
        );
        (a2, b2)
    } else {
        (a, b)
    }
}

impl Solver {
    /// Resolve the candidate pair `(object_a, object_b)` in place.
    pub fn solve_object_to_object_collision(
        &self,
        object_a: usize,
        object_b: usize,
        objects: &mut Vec<VerletObject>,
    )
        requires
            self.wf(),
            object_a < old(objects)@.len(),
            object_b < old(objects)@.len(),
            object_a != object_b,
            forall|i: int| 0 <= i < old(objects)@.len() ==> body_ok(#[trigger] old(objects)@[i]),
        ensures
            final(objects)@.len() == old(objects)@.len(),
            ({
                let r = resolve_pair_spec(
                    old(objects)@[object_a as int],
                    old(objects)@[object_b as int],
                    self.cohesion_num as int,
                    self.cohesion_den as int,
                    self.dt_inv as int,
                );
                final(objects)@ == old(objects)@.update(object_a as int, r.0).update(
                    object_b as int,
                    r.1,
                )
            }),
            forall|i: int| 0 <= i < final(objects)@.len() ==> body_ok(#[trigger] final(objects)@[i]),
    {
        let a = objects[object_a];
        let b = objects[object_b];
        let dx: i64 = a.position_current.x - b.position_current.x;
        let dy: i64 = a.position_current.y - b.position_current.y;
        proof {
            lemma_mul_bound(dx as int, dx as int, 2 * COORD_LIMIT, 2 * COORD_LIMIT);
            lemma_mul_bound(dy as int, dy as int, 2 * COORD_LIMIT, 2 * COORD_LIMIT);
            assert(dx as int * dx as int >= 0) by (nonlinear_arith);
            assert(dy as int * dy as int >= 0) by (nonlinear_arith);
        }
        let d2: i128 = (dx as i128) * (dx as i128) + (dy as i128) * (dy as i128);
        let rsum: i64 = a.radius + b.radius;
        proof {
            lemma_mul_bound(rsum as int, rsum as int, 2 * RADIUS_LIMIT as int,
                2 * RADIUS_LIMIT as int);
        }
        let rsum2: i128 = (rsum as i128) * (rsum as i128);
        if d2 < rsum2 && d2 > EPS_SQ as i128 {
            proof {
                lemma_sqrt_f(d2 as int);
                assert(sqrt_f(d2 as int) < rsum as int) by (nonlinear_arith)
                    requires
                        sqrt_f(d2 as int) >= 0,
                        rsum as int > 0,
                        sqrt_f(d2 as int) * sqrt_f(d2 as int) <= d2 as int,
                        (d2 as int) < (rsum as int) * (rsum as int),
                ;
            }
            let dist: i64 = isqrt_u64(d2 as u64) as i64;
            proof {
                assert(dist >= 1) by (nonlinear_arith)
                    requires
                        dist as int >= 0,
                        (d2 as int) < (dist as int + 1) * (dist as int + 1),
                        d2 as int > EPS_SQ as int,
                ;
                assert(-(dist as int) <= dx as int <= dist as int) by (nonlinear_arith)
                    requires
                        dx as int * dx as int <= d2 as int,
                        (d2 as int) < (dist as int + 1) * (dist as int + 1),
                        dist as int >= 0,
                ;
                assert(-(dist as int) <= dy as int <= dist as int) by (nonlinear_arith)
                    requires
                        dy as int * dy as int <= d2 as int,
                        (d2 as int) < (dist as int + 1) * (dist as int + 1),
                        dist as int >= 0,
                ;
                lemma_tdiv_bounds(rsum as int - dist as int, 2);
            }
            let delta: i64 = div_i64(rsum - dist, 2);
            let mtot: i64 = a.inertia + b.inertia;
            proof {
                lemma_mul_bound(mtot as int, dist as int, 2 * INERTIA_LIMIT as int,
                    2 * RADIUS_LIMIT as int);
                assert(mtot as int * dist as int > 0) by (nonlinear_arith)
                    requires
                        mtot as int > 0,
                        dist as int > 0,
                ;
            }
            let den: i128 = (mtot as i128) * (dist as i128);
            proof {
                lemma_mul_bound(dx as int, delta as int, 2 * RADIUS_LIMIT as int,
                    RADIUS_LIMIT as int);
                lemma_mul_bound(dy as int, delta as int, 2 * RADIUS_LIMIT as int,
                    RADIUS_LIMIT as int);
                lemma_mul_bound(dx as int * delta as int, b.inertia as int,
                    2 * RADIUS_LIMIT as int * RADIUS_LIMIT as int, INERTIA_LIMIT as int);
                lemma_mul_bound(dy as int * delta as int, b.inertia as int,
                    2 * RADIUS_LIMIT as int * RADIUS_LIMIT as int, INERTIA_LIMIT as int);
                lemma_mul_bound(dx as int * delta as int, a.inertia as int,
                    2 * RADIUS_LIMIT as int * RADIUS_LIMIT as int, INERTIA_LIMIT as int);
                lemma_mul_bound(dy as int * delta as int, a.inertia as int,
                    2 * RADIUS_LIMIT as int * RADIUS_LIMIT as int, INERTIA_LIMIT as int);
                // the push of each body stays within its share of the overlap
                assert(-((mtot as int * dist as int) * (delta as int)) <= dx as int * delta
                    as int * (b.inertia as int) <= (mtot as int * dist as int) * (delta as int))
                    by (nonlinear_arith)
                    requires
                        -(dist as int) <= dx as int <= dist as int,
                        0 <= b.inertia as int <= mtot as int,
                        0 <= delta as int,
                        0 < dist as int,
                        0 < mtot as int,
                ;
                assert(-((mtot as int * dist as int) * (delta as int)) <= dy as int * delta
                    as int * (b.inertia as int) <= (mtot as int * dist as int) * (delta as int))
                    by (nonlinear_arith)
                    requires
                        -(dist as int) <= dy as int <= dist as int,
                        0 <= b.inertia as int <= mtot as int,
                        0 <= delta as int,
                        0 < dist as int,
                        0 < mtot as int,
                ;
                assert(-((mtot as int * dist as int) * (delta as int)) <= dx as int * delta
                    as int * (a.inertia as int) <= (mtot as int * dist as int) * (delta as int))
                    by (nonlinear_arith)
                    requires
                        -(dist as int) <= dx as int <= dist as int,
                        0 <= a.inertia as int <= mtot as int,
                        0 <= delta as int,
                        0 < dist as int,
                        0 < mtot as int,
                ;
                assert(-((mtot as int * dist as int) * (delta as int)) <= dy as int * delta
                    as int * (a.inertia as int) <= (mtot as int * dist as int) * (delta as int))
                    by (nonlinear_arith)
                    requires
                        -(dist as int) <= dy as int <= dist as int,
                        0 <= a.inertia as int <= mtot as int,
                        0 <= delta as int,
                        0 < dist as int,
                        0 < mtot as int,
                ;
                assert(-(dx as int * delta as int) * a.inertia as int == -(dx as int * delta
                    as int * a.inertia as int)) by (nonlinear_arith);
                assert(-(dy as int * delta as int) * a.inertia as int == -(dy as int * delta
                    as int * a.inertia as int)) by (nonlinear_arith);
                lemma_tdiv_magnitude(dx as int * delta as int * b.inertia as int, den as int,
                    delta as int);
                lemma_tdiv_magnitude(dy as int * delta as int * b.inertia as int, den as int,
                    delta as int);
                lemma_tdiv_magnitude(-(dx as int * delta as int) * a.inertia as int, den as int,
                    delta as int);
                lemma_tdiv_magnitude(-(dy as int * delta as int) * a.inertia as int, den as int,
                    delta as int);
            }
            let ma_x: i64 = div_i128((dx as i128) * (delta as i128) * (b.inertia as i128), den)
                as i64;
            let ma_y: i64 = div_i128((dy as i128) * (delta as i128) * (b.inertia as i128), den)
                as i64;
            let mb_x: i64 = div_i128(-((dx as i128) * (delta as i128)) * (a.inertia as i128), den)
                as i64;
            let mb_y: i64 = div_i128(-((dy as i128) * (delta as i128)) * (a.inertia as i128), den)
                as i64;
            let mut na = a;
            let mut nb = b;
            na.move_self(Vec2 { x: ma_x, y: ma_y });
            nb.move_self(Vec2 { x: mb_x, y: mb_y });
            let va = na.velocity();
            let vb = nb.velocity();
            let dvx: i64 = va.x - vb.x;
            let dvy: i64 = va.y - vb.y;
            proof {
                lemma_mul_bound(self.cohesion_num as int, dvx as int, 1000, 4 * COORD_LIMIT);
                lemma_mul_bound(self.cohesion_num as int, dvy as int, 1000, 4 * COORD_LIMIT);
                lemma_tdiv_bounds(-(self.cohesion_num as int * dvx as int),
                    self.cohesion_den as int);
                lemma_tdiv_bounds(-(self.cohesion_num as int * dvy as int),
                    self.cohesion_den as int);
                lemma_tdiv_bounds(self.cohesion_num as int * dvx as int, self.cohesion_den as int);
                lemma_tdiv_bounds(self.cohesion_num as int * dvy as int, self.cohesion_den as int);
            }
            let pax: i64 = div_i64(-(self.cohesion_num * dvx), self.cohesion_den);
            let pay: i64 = div_i64(-(self.cohesion_num * dvy), self.cohesion_den);
            let pbx: i64 = div_i64(self.cohesion_num * dvx, self.cohesion_den);
            let pby: i64 = div_i64(self.cohesion_num * dvy, self.cohesion_den);
            na.set_velocity(Vec2 { x: pax, y: pay }, self.dt_inv);
            nb.set_velocity(Vec2 { x: pbx, y: pby }, self.dt_inv);
            objects[object_a] = na;
            objects[object_b] = nb;
        } else {
            proof {
                let r = resolve_pair_spec(
                    old(objects)@[object_a as int],
                    old(objects)@[object_b as int],
                    self.cohesion_num as int,
                    self.cohesion_den as int,
                    self.dt_inv as int,
                );
                assert(objects@ =~= old(objects)@.update(object_a as int, r.0).update(
                    object_b as int, r.1));
            }
        }
    }
}

} // verus!

// The broad phase: rebuilding the grid from the bodies.
verus! {

/// The world point of a body's center.
pub open spec fn body_point(b: VerletObject) -> (i64, i64) {
    (b.position_current.x, b.position_current.y)
}

/// Grid contents after inserting the first `n` bodies, in index order, into
/// `c0`.
pub open spec fn build_spec(
    c0: Seq<Seq<usize>>,
    bodies: Seq<VerletObject>,
    n: int,
    cell_size: i64,
    w: int,
    h: int,
) -> Seq<Seq<usize>>
    decreases n,
{
    if n <= 0 {
        c0
    } else {
        insert_spec(
            build_spec(c0, bodies, n - 1, cell_size, w, h),
            body_point(bodies[n - 1]),
            (n - 1) as usize,
            cell_size,
            w,
            h,
        )
    }
}

/// Number of the first `n` bodies whose center lies inside the grid.
pub open spec fn count_in_grid(
    bodies: Seq<VerletObject>,
    n: int,
    cell_size: i64,
    w: int,
    h: int,
) -> int
    decreases n,
{
    if n <= 0 {
        0
    } else {
        count_in_grid(bodies, n - 1, cell_size, w, h) + if point_in_grid(
            body_point(bodies[n - 1]),
            cell_size,
            w,
            h,
        ) {
            1int
        } else {
            0int
        }
    }
}

/// The flat cell index of an in-grid point addresses a `w` by `h` grid.
proof fn lemma_cell_index_in_range(point: (i64, i64), cell_size: i64, w: int, h: int)
    requires
        cell_size >= 1,
        point_in_grid(point, cell_size, w, h),
        0 <= w,
    ensures
        0 <= crate::grid::cell_x(point, cell_size) + crate::grid::cell_y(point, cell_size) * w
            < w * h,
{
    let cx = crate::grid::cell_x(point, cell_size);
    let cy = crate::grid::cell_y(point, cell_size);
    lemma_tdiv_bounds(point.0 as int, cell_size as int);
    lemma_tdiv_bounds(point.1 as int, cell_size as int);
    assert(0 <= cx + cy * w < w * h) by (nonlinear_arith)
        requires
            0 <= cx < w,
            0 <= cy < h,
    ;
}

/// Building the grid keeps one cell per grid slot.
proof fn lemma_build_len(
    c0: Seq<Seq<usize>>,
    bodies: Seq<VerletObject>,
    n: int,
    cell_size: i64,
    w: int,
    h: int,
)
    requires
        c0.len() == w * h,
        cell_size >= 1,
        0 <= w,
    ensures
        build_spec(c0, bodies, n, cell_size, w, h).len() == w * h,
    decreases n,
{
    if n > 0 {
        lemma_build_len(c0, bodies, n - 1, cell_size, w, h);
        if point_in_grid(body_point(bodies[n - 1]), cell_size, w, h) {
            lemma_cell_index_in_range(body_point(bodies[n - 1]), cell_size, w, h);
        }
    }
}

/// The grid partition property: building over the first `n` bodies stores
/// exactly the in-grid ones among them, each once.
pub proof fn lemma_build_count(
    c0: Seq<Seq<usize>>,
    bodies: Seq<VerletObject>,
    n: int,
    cell_size: i64,
    w: int,
    h: int,
)
    requires
        c0.len() == w * h,
        cell_size >= 1,
        0 <= w,
        0 <= n,
    ensures
        crate::grid::total_count(build_spec(c0, bodies, n, cell_size, w, h))
            == crate::grid::total_count(c0) + count_in_grid(bodies, n, cell_size, w, h),
    decreases n,
{
    if n > 0 {
        lemma_build_count(c0, bodies, n - 1, cell_size, w, h);
        lemma_build_len(c0, bodies, n - 1, cell_size, w, h);
        let prev = build_spec(c0, bodies, n - 1, cell_size, w, h);
        let point = body_point(bodies[n - 1]);
        if point_in_grid(point, cell_size, w, h) {
            lemma_cell_index_in_range(point, cell_size, w, h);
            let k = crate::grid::cell_x(point, cell_size) + crate::grid::cell_y(point, cell_size)
                * w;
            crate::grid::lemma_total_count_push(prev, k, (n - 1) as usize);
        }
    }
}

/// Every index the built grid stores names one of the first `n` bodies.
pub proof fn lemma_build_bounded(
    c0: Seq<Seq<usize>>,
    bodies: Seq<VerletObject>,
    n: int,
    cell_size: i64,
    w: int,
    h: int,
    m: int,
)
    requires
        c0.len() == w * h,
        cell_size >= 1,
        0 <= w,
        0 <= n <= m,
        crate::grid::cells_bounded(c0, m),
    ensures
        crate::grid::cells_bounded(build_spec(c0, bodies, n, cell_size, w, h), m),
    decreases n,
{
    if n > 0 {
        lemma_build_bounded(c0, bodies, n - 1, cell_size, w, h, m);
        lemma_build_len(c0, bodies, n - 1, cell_size, w, h);
        let prev = build_spec(c0, bodies, n - 1, cell_size, w, h);
        let point = body_point(bodies[n - 1]);
        if point_in_grid(point, cell_size, w, h) {
            lemma_cell_index_in_range(point, cell_size, w, h);
            let k = crate::grid::cell_x(point, cell_size) + crate::grid::cell_y(point, cell_size)
                * w;
            let cur = prev.update(k, prev[k].push((n - 1) as usize));
            assert forall|kk: int, j: int|
                0 <= kk < cur.len() && 0 <= j < cur[kk].len() implies (#[trigger] cur[kk][j])
                < m by {
                if kk == k && j == cur[kk].len() - 1 {
                } else {
                    assert(cur[kk][j] == prev[kk][j]);
                }
            }
        }
    }
}

/// When every body's center lies inside the grid, building from an empty
/// grid stores each body exactly once: the cell lengths sum to the number
/// of bodies.
pub proof fn lemma_grid_partition(
    c0: Seq<Seq<usize>>,
    bodies: Seq<VerletObject>,
    cell_size: i64,
    w: int,
    h: int,
)
    requires
        c0.len() == w * h,
        cell_size >= 1,
        0 <= w,
        forall|k: int| 0 <= k < c0.len() ==> (#[trigger] c0[k]).len() == 0,
        forall|i: int|
            0 <= i < bodies.len() ==> point_in_grid(
                body_point(#[trigger] bodies[i]),
                cell_size,
                w,
                h,
            ),
    ensures
        crate::grid::total_count(
            build_spec(c0, bodies, bodies.len() as int, cell_size, w, h),
        ) == bodies.len(),
{
    crate::grid::lemma_total_count_all_empty(c0);
    lemma_build_count(c0, bodies, bodies.len() as int, cell_size, w, h);
    assert forall|n: int| 0 <= n <= bodies.len() implies count_in_grid(bodies, n, cell_size, w, h)
        == n by {
        lemma_count_in_grid_full(bodies, n, cell_size, w, h);
    }
}

/// Counting in-grid bodies over a prefix where all are in-grid counts the
/// prefix.
proof fn lemma_count_in_grid_full(
    bodies: Seq<VerletObject>,
    n: int,
    cell_size: i64,
    w: int,
    h: int,
)
    requires
        0 <= n <= bodies.len(),
        forall|i: int|
            0 <= i < bodies.len() ==> point_in_grid(
                body_point(#[trigger] bodies[i]),
                cell_size,
                w,
                h,
            ),
    ensures
        count_in_grid(bodies, n, cell_size, w, h) == n,
    decreases n,
{
    if n > 0 {
        lemma_count_in_grid_full(bodies, n - 1, cell_size, w, h);
    }
}

impl Solver {
    /// The solver's configuration, apart from the grid and the timer.
    pub open spec fn same_config(a: &Solver, b: &Solver) -> bool {
        &&& a.gravity == b.gravity
        &&& a.sub_steps == b.sub_steps
        &&& a.dt_inv == b.dt_inv
        &&& a.world_width == b.world_width
        &&& a.world_height == b.world_height
        &&& a.cell_size == b.cell_size
        &&& a.thread_count == b.thread_count
        &&& a.anti_pressure == b.anti_pressure
        &&& a.damping == b.damping
        &&& a.cohesion_num == b.cohesion_num
        &&& a.cohesion_den == b.cohesion_den
    }

    /// Clear the grid and insert every body's center under its index.
    pub fn rebuild_grid(&mut self, objects: &Vec<VerletObject>)
        requires
            old(self).wf(),
        ensures
            final(self).wf(),
            Solver::same_config(final(self), old(self)),
            final(self).timer == old(self).timer,
            final(self).uniform_grid_simple.spec_width()
                == old(self).uniform_grid_simple.spec_width(),
            final(self).uniform_grid_simple.spec_height()
                == old(self).uniform_grid_simple.spec_height(),
            contents(&final(self).uniform_grid_simple) == build_spec(
                cleared(contents(&old(self).uniform_grid_simple)),
                objects@,
                objects@.len() as int,
                old(self).cell_size,
                old(self).uniform_grid_simple.spec_width() as int,
                old(self).uniform_grid_simple.spec_height() as int,
            ),
    {
        let ghost w = self.uniform_grid_simple.spec_width() as int;
        let ghost h = self.uniform_grid_simple.spec_height() as int;
        crate::grid::clear_uniform_grid_simple(&mut self.uniform_grid_simple);
        let ghost c0 = contents(&self.uniform_grid_simple);
        let n = objects.len();
        let mut i: usize = 0;
        while i < n
            invariant
                self.wf(),
                Solver::same_config(self, old(self)),
                self.timer == old(self).timer,
                n == objects@.len(),
                i <= n,
                self.uniform_grid_simple.spec_width() == old(self).uniform_grid_simple.spec_width(),
                self.uniform_grid_simple.spec_height()
                    == old(self).uniform_grid_simple.spec_height(),
                c0 == cleared(contents(&old(self).uniform_grid_simple)),
                contents(&self.uniform_grid_simple) == build_spec(
                    c0,
                    objects@,
                    i as int,
                    self.cell_size,
                    w,
                    h,
                ),
                w == self.uniform_grid_simple.spec_width() as int,
                h == self.uniform_grid_simple.spec_height() as int,
            decreases n - i,
        {
            let body = &objects[i];
            let point = (body.position_current.x, body.position_current.y);
            crate::grid::insert(&mut self.uniform_grid_simple, point, i, self.cell_size);
            i = i + 1;
        }
    }
}

} // verus!

// The narrow phase: every cell of a column range, resolved pair by pair.
verus! {

/// Resolve one candidate pair by body index; an index pair that does not
/// name two distinct bodies changes nothing.
pub open spec fn apply_pair(
    bodies: Seq<VerletObject>,
    ai: int,
    bi: int,
    cohesion_num: int,
    cohesion_den: int,
    dt_inv: int,
) -> Seq<VerletObject> {
    if 0 <= ai < bodies.len() && 0 <= bi < bodies.len() && ai != bi {
        let r = resolve_pair_spec(bodies[ai], bodies[bi], cohesion_num, cohesion_den, dt_inv);
        bodies.update(ai, r.0).update(bi, r.1)
    } else {
        bodies
    }
}

/// Resolve the remaining pairs `(i, j)` of one cell, `i < j`, in order.
pub open spec fn do_pairs(
    bodies: Seq<VerletObject>,
    cell: Seq<usize>,
    i: int,
    j: int,
    cohesion_num: int,
    cohesion_den: int,
    dt_inv: int,
) -> Seq<VerletObject>
    decreases cell.len() - i, cell.len() - j,
{
    if i >= cell.len() {
        bodies
    } else if j >= cell.len() {
        do_pairs(bodies, cell, i + 1, i + 2, cohesion_num, cohesion_den, dt_inv)
    } else {
        do_pairs(
            apply_pair(
                bodies,
                cell[i] as int,
                cell[j] as int,
                cohesion_num,
                cohesion_den,
                dt_inv,
            ),
            cell,
            i,
            j + 1,
            cohesion_num,
            cohesion_den,
            dt_inv,
        )
    }
}

/// Resolve every pair of one cell.
pub open spec fn do_cell(
    bodies: Seq<VerletObject>,
    cell: Seq<usize>,
    cohesion_num: int,
    cohesion_den: int,
    dt_inv: int,
) -> Seq<VerletObject> {
    do_pairs(bodies, cell, 0, 1, cohesion_num, cohesion_den, dt_inv)
}

/// Resolve the cells of column `x` from row `y` down.
pub open spec fn do_rows(
    bodies: Seq<VerletObject>,
    c: Seq<Seq<usize>>,
    x: int,
    y: int,
    rows: int,
    w: int,
    cohesion_num: int,
    cohesion_den: int,
    dt_inv: int,
) -> Seq<VerletObject>
    decreases rows - y,
{
    if y >= rows {
        bodies
    } else {
        do_rows(
            do_cell(bodies, c[x + y * w], cohesion_num, cohesion_den, dt_inv),
            c,
            x,
            y + 1,
            rows,
            w,
            cohesion_num,
            cohesion_den,
            dt_inv,
        )
    }
}

/// Resolve the columns `x` up to `end`, left to right.
pub open spec fn do_cols(
    bodies: Seq<VerletObject>,
    c: Seq<Seq<usize>>,
    x: int,
    end: int,
    rows: int,
    w: int,
    cohesion_num: int,
    cohesion_den: int,
    dt_inv: int,
) -> Seq<VerletObject>
    decreases end - x,
{
    if x >= end {
        bodies
    } else {
        do_cols(
            do_rows(bodies, c, x, 0, rows, w, cohesion_num, cohesion_den, dt_inv),
            c,
            x + 1,
            end,
            rows,
            w,
            cohesion_num,
            cohesion_den,
            dt_inv,
        )
    }
}

impl Solver {
    /// Resolve every intra-cell pair of the columns `[start, end)`, columns
    /// left to right, rows top to bottom, pairs in index order.
    pub fn solve_columns(&self, objects: &mut Vec<VerletObject>, start: usize, end: usize)
        requires
            self.wf(),
            end <= self.uniform_grid_simple.spec_width(),
            crate::grid::cells_bounded(
                contents(&self.uniform_grid_simple),
                old(objects)@.len() as int,
            ),
            forall|i: int| 0 <= i < old(objects)@.len() ==> body_ok(#[trigger] old(objects)@[i]),
        ensures
            final(objects)@.len() == old(objects)@.len(),
            final(objects)@ == do_cols(
                old(objects)@,
                contents(&self.uniform_grid_simple),
                start as int,
                end as int,
                self.uniform_grid_simple.spec_height() as int,
                self.uniform_grid_simple.spec_width() as int,
                self.cohesion_num as int,
                self.cohesion_den as int,
                self.dt_inv as int,
            ),
            forall|i: int| 0 <= i < final(objects)@.len() ==> body_ok(#[trigger] final(objects)@[i]),
    {
        let ghost c = contents(&self.uniform_grid_simple);
        let ghost rows = self.uniform_grid_simple.spec_height() as int;
        let ghost w = self.uniform_grid_simple.spec_width() as int;
        let ghost cn = self.cohesion_num as int;
        let ghost cd = self.cohesion_den as int;
        let ghost dt = self.dt_inv as int;
        let ghost n = old(objects)@.len();
        let ghost goal = do_cols(old(objects)@, c, start as int, end as int, rows, w, cn, cd, dt);
        let height = self.uniform_grid_simple.get_height();
        let mut x = start;
        while x < end
            invariant
                self.wf(),
                x <= end || end <= start,
                end <= self.uniform_grid_simple.spec_width(),
                objects@.len() == n,
                c == contents(&self.uniform_grid_simple),
                rows == self.uniform_grid_simple.spec_height() as int,
                w == self.uniform_grid_simple.spec_width() as int,
                cn == self.cohesion_num as int,
                cd == self.cohesion_den as int,
                dt == self.dt_inv as int,
                height as int == rows,
                crate::grid::cells_bounded(c, n as int),
                forall|i: int| 0 <= i < objects@.len() ==> body_ok(#[trigger] objects@[i]),
                goal == do_cols(objects@, c, x as int, end as int, rows, w, cn, cd, dt),
            decreases end - x,
        {
            let mut y: usize = 0;
            while y < height
                invariant
                    self.wf(),
                    x < end,
                    end <= self.uniform_grid_simple.spec_width(),
                    y <= height,
                    objects@.len() == n,
                    c == contents(&self.uniform_grid_simple),
                    rows == self.uniform_grid_simple.spec_height() as int,
                    w == self.uniform_grid_simple.spec_width() as int,
                    cn == self.cohesion_num as int,
                    cd == self.cohesion_den as int,
                    dt == self.dt_inv as int,
                    height as int == rows,
                    crate::grid::cells_bounded(c, n as int),
                    forall|i: int| 0 <= i < objects@.len() ==> body_ok(#[trigger] objects@[i]),
                    goal == do_cols(
                        do_rows(objects@, c, x as int, y as int, rows, w, cn, cd, dt),
                        c,
                        x as int + 1,
                        end as int,
                        rows,
                        w,
                        cn,
                        cd,
                        dt,
                    ),
                decreases height - y,
            {
                proof {
                    self.uniform_grid_simple.lemma_flat_in_range(x as int, y as int);
                }
                let cell = self.uniform_grid_simple.get(x, y);
                let ghost cs = cell@;
                let cell_len = cell.len();
                let mut i: usize = 0;
                proof {
                    assert(cs == c[x as int + (y as int) * w]);
                }
                while i < cell_len
                    invariant
                        self.wf(),
                        x < end,
                        end <= self.uniform_grid_simple.spec_width(),
                        y < height,
                        i <= cell_len,
                        objects@.len() == n,
                        c == contents(&self.uniform_grid_simple),
                        rows == self.uniform_grid_simple.spec_height() as int,
                        w == self.uniform_grid_simple.spec_width() as int,
                        cn == self.cohesion_num as int,
                        cd == self.cohesion_den as int,
                        dt == self.dt_inv as int,
                        height as int == rows,
                        cs == c[x as int + (y as int) * w],
                        cell_len == cs.len(),
                        cell@ == cs,
                        crate::grid::cells_bounded(c, n as int),
                        forall|k: int| 0 <= k < objects@.len() ==> body_ok(#[trigger] objects@[k]),
                        goal == do_cols(
                            do_rows(
                                do_pairs(objects@, cs, i as int, i as int + 1, cn, cd, dt),
                                c,
                                x as int,
                                y as int + 1,
                                rows,
                                w,
                                cn,
                                cd,
                                dt,
                            ),
                            c,
                            x as int + 1,
                            end as int,
                            rows,
                            w,
                            cn,
                            cd,
                            dt,
                        ),
                    decreases cell_len - i,
                {
                    let mut j: usize = i + 1;
                    while j < cell_len
                        invariant
                            self.wf(),
                            x < end,
                            end <= self.uniform_grid_simple.spec_width(),
                            y < height,
                            i < cell_len,
                            i < j,
                            j <= cell_len,
                            objects@.len() == n,
                            c == contents(&self.uniform_grid_simple),
                            rows == self.uniform_grid_simple.spec_height() as int,
                            w == self.uniform_grid_simple.spec_width() as int,
                            cn == self.cohesion_num as int,
                            cd == self.cohesion_den as int,
                            dt == self.dt_inv as int,
                            height as int == rows,
                            cs == c[x as int + (y as int) * w],
                            cell_len == cs.len(),
                            cell@ == cs,
                            crate::grid::cells_bounded(c, n as int),
                            forall|k: int|
                                0 <= k < objects@.len() ==> body_ok(#[trigger] objects@[k]),
                            goal == do_cols(
                                do_rows(
                                    do_pairs(objects@, cs, i as int, j as int, cn, cd, dt),
                                    c,
                                    x as int,
                                    y as int + 1,
                                    rows,
                                    w,
                                    cn,
                                    cd,
                                    dt,
                                ),
                                c,
                                x as int + 1,
                                end as int,
                                rows,
                                w,
                                cn,
                                cd,
                                dt,
                            ),
                        decreases cell_len - j,
                    {
                        let ai = cell[i];
                        let bi = cell[j];
                        proof {
                            self.uniform_grid_simple.lemma_flat_in_range(x as int, y as int);
                            assert(c[x as int + (y as int) * w][i as int] < n);
                            assert(c[x as int + (y as int) * w][j as int] < n);
                        }
                        if ai != bi {
                            self.solve_object_to_object_collision(ai, bi, objects);
                        } else {
                            proof {
                                assert(apply_pair(objects@, ai as int, bi as int, cn, cd, dt)
                                    == objects@);
                            }
                        }
                        j = j + 1;
                    }
                    i = i + 1;
                }
                y = y + 1;
            }
            x = x + 1;
        }
    }
}

} // verus!

// The two-pass column schedule and the frame.
verus! {

/// Width of one worker's slab of columns.
pub open spec fn slab_width(threads: int, columns: int) -> int {
    columns / threads
}

/// First column of worker `k`'s first-pass range.
pub open spec fn pass_a_start(k: int, threads: int, columns: int) -> int {
    k * slab_width(threads, columns)
}

/// Past-the-end column of worker `k`'s first-pass range: the first half of
/// its slab.
pub open spec fn pass_a_end(k: int, threads: int, columns: int) -> int {
    k * slab_width(threads, columns) + slab_width(threads, columns) / 2
}

/// First column of worker `k`'s second-pass range: the rest of its slab.
pub open spec fn pass_b_start(k: int, threads: int, columns: int) -> int {
    k * slab_width(threads, columns) + slab_width(threads, columns) / 2
}

/// Past-the-end column of worker `k`'s second-pass range; the last worker
/// also picks up the columns left over by the division.
pub open spec fn pass_b_end(k: int, threads: int, columns: int) -> int {
    if k == threads - 1 {
        columns
    } else {
        (k + 1) * slab_width(threads, columns)
    }
}

/// Run the first pass for workers `k` up to `threads`.
pub open spec fn do_pass_a(
    bodies: Seq<VerletObject>,
    c: Seq<Seq<usize>>,
    k: int,
    threads: int,
    columns: int,
    rows: int,
    w: int,
    cohesion_num: int,
    cohesion_den: int,
    dt_inv: int,
) -> Seq<VerletObject>
    decreases threads - k,
{
    if k >= threads {
        bodies
    } else {
        do_pass_a(
            do_cols(
                bodies,
                c,
                pass_a_start(k, threads, columns),
                pass_a_end(k, threads, columns),
                rows,
                w,
                cohesion_num,
                cohesion_den,
                dt_inv,
            ),
            c,
            k + 1,
            threads,
            columns,
            rows,
            w,
            cohesion_num,
            cohesion_den,
            dt_inv,
        )
    }
}

/// Run the second pass for workers `k` up to `threads`.
pub open spec fn do_pass_b(
    bodies: Seq<VerletObject>,
    c: Seq<Seq<usize>>,
    k: int,
    threads: int,
    columns: int,
    rows: int,
    w: int,
    cohesion_num: int,
    cohesion_den: int,
    dt_inv: int,
) -> Seq<VerletObject>
    decreases threads - k,
{
    if k >= threads {
        bodies
    } else {
        do_pass_b(
            do_cols(
                bodies,
                c,
                pass_b_start(k, threads, columns),
                pass_b_end(k, threads, columns),
                rows,
                w,
                cohesion_num,
                cohesion_den,
                dt_inv,
            ),
            c,
            k + 1,
            threads,
            columns,
            rows,
            w,
            cohesion_num,
            cohesion_den,
            dt_inv,
        )
    }
}

/// The whole narrow phase: the first pass of every worker, then the second
/// pass of every worker, in worker order.
pub open spec fn do_narrow(
    bodies: Seq<VerletObject>,
    c: Seq<Seq<usize>>,
    threads: int,
    columns: int,
    rows: int,
    w: int,
    cohesion_num: int,
    cohesion_den: int,
    dt_inv: int,
) -> Seq<VerletObject> {
    do_pass_b(
        do_pass_a(bodies, c, 0, threads, columns, rows, w, cohesion_num, cohesion_den, dt_inv),
        c,
        0,
        threads,
        columns,
        rows,
        w,
        cohesion_num,
        cohesion_den,
        dt_inv,
    )
}

/// The schedule ranges stay inside the columns: for every worker both pass
/// ranges lie in `[0, columns]`, and each range's start is at most its end.
pub proof fn lemma_schedule_in_range(k: int, threads: int, columns: int)
    requires
        0 <= k < threads,
        0 <= columns,
    ensures
        0 <= pass_a_start(k, threads, columns) <= pass_a_end(k, threads, columns),
        pass_a_end(k, threads, columns) <= columns,
        pass_b_start(k, threads, columns) <= pass_b_end(k, threads, columns),
        pass_b_end(k, threads, columns) <= columns,
{
    let wid = slab_width(threads, columns);
    vstd::arithmetic::div_mod::lemma_div_pos_is_pos(columns, threads);
    vstd::arithmetic::div_mod::lemma_div_pos_is_pos(wid, 2);
    vstd::arithmetic::div_mod::lemma_div_is_ordered_by_denominator(wid, 1, 2);
    vstd::arithmetic::div_mod::lemma_fundamental_div_mod(columns, threads);
    vstd::arithmetic::div_mod::lemma_mod_division_less_than_divisor(columns, threads);
    assert(columns % threads >= 0);
    assert(threads * wid <= columns);
    assert(0 <= k * wid) by (nonlinear_arith)
        requires
            k >= 0,
            wid >= 0,
    ;
    assert((k + 1) * wid <= threads * wid) by (nonlinear_arith)
        requires
            k + 1 <= threads,
            wid >= 0,
    ;
    assert(k * wid + wid == (k + 1) * wid) by (nonlinear_arith);
}

impl Solver {
    /// Resolve every intra-cell pair once, running the two passes of the
    /// column schedule serially in worker order. A parallel driver that runs
    /// each worker's range on its own thread, pass by pass, computes the
    /// same result: within a pass, distinct workers' ranges touch disjoint
    /// columns, and a cell only ever moves the bodies listed in it.
    pub fn solve_collisions(&self, objects: &mut Vec<VerletObject>)
        requires
            self.wf(),
            crate::grid::cells_bounded(
                contents(&self.uniform_grid_simple),
                old(objects)@.len() as int,
            ),
            forall|i: int| 0 <= i < old(objects)@.len() ==> body_ok(#[trigger] old(objects)@[i]),
        ensures
            final(objects)@.len() == old(objects)@.len(),
            final(objects)@ == do_narrow(
                old(objects)@,
                contents(&self.uniform_grid_simple),
                self.thread_count as int,
                self.uniform_grid_simple.spec_width() as int,
                self.uniform_grid_simple.spec_height() as int,
                self.uniform_grid_simple.spec_width() as int,
                self.cohesion_num as int,
                self.cohesion_den as int,
                self.dt_inv as int,
            ),
            forall|i: int| 0 <= i < final(objects)@.len() ==> body_ok(#[trigger] final(objects)@[i]),
    {
        let ghost c = contents(&self.uniform_grid_simple);
        let ghost rows = self.uniform_grid_simple.spec_height() as int;
        let ghost n = old(objects)@.len();
        let ghost cn = self.cohesion_num as int;
        let ghost cd = self.cohesion_den as int;
        let ghost dt = self.dt_inv as int;
        let t: usize = self.thread_count;
        let columns: usize = self.uniform_grid_simple.get_width();
        let ghost ti = t as int;
        let ghost ci = columns as int;
        let ghost goal = do_narrow(old(objects)@, c, ti, ci, rows, ci, cn, cd, dt);
        let wid: usize = columns / t;
        let half: usize = wid / 2;
        let mut k: usize = 0;
        while k < t
            invariant
                self.wf(),
                k <= t,
                t == self.thread_count,
                ti == t as int,
                columns == self.uniform_grid_simple.spec_width(),
                ci == columns as int,
                rows == self.uniform_grid_simple.spec_height() as int,
                c == contents(&self.uniform_grid_simple),
                cn == self.cohesion_num as int,
                cd == self.cohesion_den as int,
                dt == self.dt_inv as int,
                wid as int == slab_width(ti, ci),
                half as int == slab_width(ti, ci) / 2,
                objects@.len() == n,
                crate::grid::cells_bounded(c, n as int),
                forall|i: int| 0 <= i < objects@.len() ==> body_ok(#[trigger] objects@[i]),
                goal == do_pass_b(
                    do_pass_a(objects@, c, k as int, ti, ci, rows, ci, cn, cd, dt),
                    c,
                    0,
                    ti,
                    ci,
                    rows,
                    ci,
                    cn,
                    cd,
                    dt,
                ),
            decreases t - k,
        {
            proof {
                lemma_schedule_in_range(k as int, ti, ci);
            }
            let start: usize = k * wid;
            let end: usize = start + half;
            self.solve_columns(objects, start, end);
            k = k + 1;
        }
        let mut k2: usize = 0;
        while k2 < t
            invariant
                self.wf(),
                k2 <= t,
                t == self.thread_count,
                ti == t as int,
                columns == self.uniform_grid_simple.spec_width(),
                ci == columns as int,
                rows == self.uniform_grid_simple.spec_height() as int,
                c == contents(&self.uniform_grid_simple),
                cn == self.cohesion_num as int,
                cd == self.cohesion_den as int,
                dt == self.dt_inv as int,
                wid as int == slab_width(ti, ci),
                half as int == slab_width(ti, ci) / 2,
                objects@.len() == n,
                crate::grid::cells_bounded(c, n as int),
                forall|i: int| 0 <= i < objects@.len() ==> body_ok(#[trigger] objects@[i]),
                goal == do_pass_b(objects@, c, k2 as int, ti, ci, rows, ci, cn, cd, dt),
            decreases t - k2,
        {
            proof {
                lemma_schedule_in_range(k2 as int, ti, ci);
            }
            let start: usize = k2 * wid + half;
            let end: usize = if k2 + 1 == t {
                columns
            } else {
                (k2 + 1) * wid
            };
            self.solve_columns(objects, start, end);
            k2 = k2 + 1;
        }
    }
}

} // verus!

// One frame, and a whole update of possibly several sub-steps.
verus! {

/// Gravity applied to every body.
pub open spec fn grav_all(bodies: Seq<VerletObject>, g: Vec2) -> Seq<VerletObject> {
    Seq::new(bodies.len(), |i: int| accelerate_spec(bodies[i], g))
}

/// The wall constraint applied to every body.
pub open spec fn clamp_all(
    bodies: Seq<VerletObject>,
    world_width: int,
    world_height: int,
) -> Seq<VerletObject> {
    Seq::new(bodies.len(), |i: int| clamp_body_spec(bodies[i], world_width, world_height))
}

/// One Verlet step applied to every body.
pub open spec fn integrate_all(
    bodies: Seq<VerletObject>,
    dt_inv: int,
    damping: int,
    anti_pressure: bool,
) -> Seq<VerletObject> {
    Seq::new(bodies.len(), |i: int| integrate_spec(bodies[i], dt_inv, damping, anti_pressure))
}

/// `n` empty grid cells.
pub open spec fn empty_cells(n: nat) -> Seq<Seq<usize>> {
    Seq::new(n, |i: int| Seq::<usize>::empty())
}

impl Solver {
    /// Number of grid columns.
    pub open spec fn grid_w(&self) -> int {
        tdiv(self.world_width as int, self.cell_size as int)
    }

    /// Number of grid rows.
    pub open spec fn grid_h(&self) -> int {
        tdiv(self.world_height as int, self.cell_size as int)
    }

    /// One sub-step of a frame: gravity, constraint, broad phase over the
    /// bodies as constrained, narrow phase over the freshly built grid,
    /// constraint again, then one Verlet step at the sub-step rate.
    pub open spec fn step_spec(&self, bodies: Seq<VerletObject>) -> Seq<VerletObject> {
        let after_gravity = grav_all(bodies, self.gravity);
        let constrained = clamp_all(
            after_gravity,
            self.world_width as int,
            self.world_height as int,
        );
        let built = build_spec(
            empty_cells((self.grid_w() * self.grid_h()) as nat),
            constrained,
            constrained.len() as int,
            self.cell_size,
            self.grid_w(),
            self.grid_h(),
        );
        let resolved = do_narrow(
            constrained,
            built,
            self.thread_count as int,
            self.grid_w(),
            self.grid_h(),
            self.grid_w(),
            self.cohesion_num as int,
            self.cohesion_den as int,
            self.dt_inv as int,
        );
        let constrained_again = clamp_all(
            resolved,
            self.world_width as int,
            self.world_height as int,
        );
        integrate_all(
            constrained_again,
            self.spec_step_dt_inv(),
            self.damping as int,
            self.anti_pressure,
        )
    }

    /// `n` sub-steps in a row.
    pub open spec fn steps_spec(&self, bodies: Seq<VerletObject>, n: int) -> Seq<VerletObject>
        decreases n,
    {
        if n <= 0 {
            bodies
        } else {
            self.steps_spec(self.step_spec(bodies), n - 1)
        }
    }

    /// One simulation frame: `sub_steps` sub-steps, timed on the solver's
    /// stopwatch.
    #[verifier::rlimit(60)]
    pub fn update(&mut self, objects: &mut Vec<VerletObject>)
        requires
            old(self).wf(),
            forall|i: int| 0 <= i < old(objects)@.len() ==> body_ok(#[trigger] old(objects)@[i]),
        ensures
            final(self).wf(),
            Solver::same_config(final(self), old(self)),
            final(objects)@.len() == old(objects)@.len(),
            final(objects)@ == old(self).steps_spec(
                old(objects)@,
                old(self).sub_steps as int,
            ),
            forall|i: int| 0 <= i < final(objects)@.len() ==> body_ok(#[trigger] final(objects)@[i]),
    {
        crate::timing::stopwatch_restart(&mut self.timer);
        let ghost n = old(objects)@.len();
        let sub: u32 = self.sub_steps;
        let mut s: u32 = 0;
        while s < sub
            invariant
                self.wf(),
                Solver::same_config(self, old(self)),
                s <= sub,
                sub == old(self).sub_steps,
                objects@.len() == n,
                forall|i: int| 0 <= i < objects@.len() ==> body_ok(#[trigger] objects@[i]),
                old(self).steps_spec(old(objects)@, sub as int) == old(self).steps_spec(
                    objects@,
                    sub as int - s as int,
                ),
            decreases sub - s,
        {
            let ghost prev = objects@;
            self.apply_gravity(objects);
            let ghost b1 = objects@;
            self.apply_constraint(objects);
            let ghost b2 = objects@;
            self.rebuild_grid(objects);
            proof {
                assert(b1 =~= grav_all(prev, self.gravity));
                assert(b2 =~= clamp_all(b1, self.world_width as int, self.world_height as int));
                let w = self.grid_w();
                let h = self.grid_h();
                let c0 = cleared(contents(&self.uniform_grid_simple));
                assert(c0 =~= empty_cells((w * h) as nat));
                lemma_build_bounded(
                    empty_cells((w * h) as nat),
                    b2,
                    b2.len() as int,
                    self.cell_size,
                    w,
                    h,
                    b2.len() as int,
                );
            }
            self.solve_collisions(objects);
            let ghost b3 = objects@;
            self.apply_constraint(objects);
            let ghost b4 = objects@;
            self.update_position(objects);
            proof {
                assert(b4 =~= clamp_all(b3, self.world_width as int, self.world_height as int));
                assert(objects@ =~= integrate_all(
                    b4,
                    self.spec_step_dt_inv(),
                    self.damping as int,
                    self.anti_pressure,
                ));
                assert(objects@ == old(self).step_spec(prev));
            }
            s = s + 1;
        }
        crate::timing::stopwatch_stop(&mut self.timer);
    }
}

} // verus!

// What the two-pass schedule promises: every column exactly once, and no
// two workers of one pass on adjacent columns.
verus! {

/// The columns `[a, b)`, in order.
pub open spec fn range_seq(a: int, b: int) -> Seq<int> {
    Seq::new(if b >= a { (b - a) as nat } else { 0 }, |i: int| a + i)
}

/// The first-pass columns of workers `k` up to `threads`, in worker order.
pub open spec fn sched_a_cols(k: int, threads: int, columns: int) -> Seq<int>
    decreases threads - k,
{
    if k >= threads {
        Seq::empty()
    } else {
        range_seq(pass_a_start(k, threads, columns), pass_a_end(k, threads, columns))
            + sched_a_cols(k + 1, threads, columns)
    }
}

/// The second-pass columns of workers `k` up to `threads`, in worker order.
pub open spec fn sched_b_cols(k: int, threads: int, columns: int) -> Seq<int>
    decreases threads - k,
{
    if k >= threads {
        Seq::empty()
    } else {
        range_seq(pass_b_start(k, threads, columns), pass_b_end(k, threads, columns))
            + sched_b_cols(k + 1, threads, columns)
    }
}

/// All columns the schedule visits: first pass, then second pass.
pub open spec fn schedule_cols(threads: int, columns: int) -> Seq<int> {
    sched_a_cols(0, threads, columns) + sched_b_cols(0, threads, columns)
}

/// Workers `k` and beyond together visit exactly the columns from `k`'s
/// slab to the end, each once.
proof fn lemma_sched_cover(k: int, threads: int, columns: int)
    requires
        0 <= k <= threads,
        1 <= threads,
        0 <= columns,
    ensures
        (sched_a_cols(k, threads, columns) + sched_b_cols(k, threads, columns)).to_multiset()
            == (if k >= threads {
            Seq::<int>::empty()
        } else {
            range_seq(k * slab_width(threads, columns), columns)
        }).to_multiset(),
    decreases threads - k,
{
    broadcast use vstd::multiset::group_multiset_axioms;

    let sa = sched_a_cols(k, threads, columns);
    let sb = sched_b_cols(k, threads, columns);
    if k >= threads {
        assert(sa + sb =~= Seq::<int>::empty());
    } else {
        lemma_sched_cover(k + 1, threads, columns);
        lemma_schedule_in_range(k, threads, columns);
        vstd::arithmetic::div_mod::lemma_fundamental_div_mod(columns, threads);
        vstd::arithmetic::div_mod::lemma_mod_division_less_than_divisor(columns, threads);
        assert(threads * slab_width(threads, columns) <= columns);
        let a_s = pass_a_start(k, threads, columns);
        let a_e = pass_a_end(k, threads, columns);
        let b_s = pass_b_start(k, threads, columns);
        let b_e = pass_b_end(k, threads, columns);
        let ra = range_seq(a_s, a_e);
        let rb = range_seq(b_s, b_e);
        let sa1 = sched_a_cols(k + 1, threads, columns);
        let sb1 = sched_b_cols(k + 1, threads, columns);
        vstd::seq_lib::lemma_multiset_commutative(ra, sa1);
        vstd::seq_lib::lemma_multiset_commutative(rb, sb1);
        vstd::seq_lib::lemma_multiset_commutative(ra + sa1, rb + sb1);
        vstd::seq_lib::lemma_multiset_commutative(ra, rb);
        vstd::seq_lib::lemma_multiset_commutative(sa1, sb1);
        assert(ra + rb =~= range_seq(a_s, b_e));
        let wid = slab_width(threads, columns);
        if k == threads - 1 {
            assert(sa1 + sb1 =~= Seq::<int>::empty());
            assert((sa + sb).to_multiset() == range_seq(a_s, b_e).to_multiset());
        } else {
            assert(b_e == (k + 1) * wid);
            vstd::seq_lib::lemma_multiset_commutative(
                range_seq(a_s, b_e),
                range_seq((k + 1) * wid, columns),
            );
            assert((k + 1) * wid <= columns) by (nonlinear_arith)
                requires
                    k + 1 <= threads,
                    wid >= 0,
                    threads * wid <= columns,
            ;
            assert(range_seq(a_s, b_e) + range_seq((k + 1) * wid, columns) =~= range_seq(
                a_s,
                columns,
            ));
        }
        assert(a_s == k * wid);
    }
}

/// The schedule's contract, first half: over the two passes, the schedule
/// visits every column of the grid exactly once — the columns it lists are
/// the columns `[0, columns)`, as a multiset.
pub proof fn lemma_schedule_partition(threads: int, columns: int)
    requires
        1 <= threads,
        0 <= columns,
    ensures
        schedule_cols(threads, columns).to_multiset() == range_seq(0, columns).to_multiset(),
{
    lemma_sched_cover(0, threads, columns);
}

/// The schedule's contract, second half, for the first pass: two distinct
/// workers' first-pass columns are never adjacent, so the cells they touch
/// share no border.
pub proof fn lemma_pass_a_separation(
    threads: int,
    columns: int,
    k1: int,
    k2: int,
    c1: int,
    c2: int,
)
    requires
        0 <= k1 < k2 < threads,
        1 <= slab_width(threads, columns),
        pass_a_start(k1, threads, columns) <= c1 < pass_a_end(k1, threads, columns),
        pass_a_start(k2, threads, columns) <= c2 < pass_a_end(k2, threads, columns),
    ensures
        c1 + 2 <= c2,
{
    let wid = slab_width(threads, columns);
    vstd::arithmetic::div_mod::lemma_div_is_ordered_by_denominator(wid, 1, 2);
    assert(wid / 2 <= wid);
    vstd::arithmetic::div_mod::lemma_fundamental_div_mod(wid, 2);
    vstd::arithmetic::div_mod::lemma_mod_division_less_than_divisor(wid, 2);
    assert(wid - wid / 2 >= 1);
    assert((k1 + 1) * wid <= k2 * wid) by (nonlinear_arith)
        requires
            k1 + 1 <= k2,
            wid >= 0,
    ;
    assert(k1 * wid + wid == (k1 + 1) * wid) by (nonlinear_arith);
}

/// The schedule's contract, second half, for the second pass: with slabs at
/// least two columns wide, two distinct workers' second-pass columns are
/// never adjacent either.
pub proof fn lemma_pass_b_separation(
    threads: int,
    columns: int,
    k1: int,
    k2: int,
    c1: int,
    c2: int,
)
    requires
        0 <= k1 < k2 < threads,
        2 <= slab_width(threads, columns),
        pass_b_start(k1, threads, columns) <= c1 < pass_b_end(k1, threads, columns),
        pass_b_start(k2, threads, columns) <= c2 < pass_b_end(k2, threads, columns),
    ensures
        c1 + 2 <= c2,
{
    let wid = slab_width(threads, columns);
    vstd::arithmetic::div_mod::lemma_fundamental_div_mod(wid, 2);
    vstd::arithmetic::div_mod::lemma_mod_division_less_than_divisor(wid, 2);
    assert(wid / 2 >= 1);
    assert(c1 < (k1 + 1) * wid);
    assert((k1 + 1) * wid <= k2 * wid) by (nonlinear_arith)
        requires
            k1 + 1 <= k2,
            wid >= 0,
    ;
}

} // verus!

// Displacement bounds: what one resolution or one integration step can do.
verus! {

/// Bodies whose centers are at least the sum of their radii apart are not
/// touched by pair resolution.
pub proof fn lemma_pair_untouched(
    a: VerletObject,
    b: VerletObject,
    cohesion_num: int,
    cohesion_den: int,
    dt_inv: int,
)
    requires
        ({
            let dx = a.position_current.x - b.position_current.x;
            let dy = a.position_current.y - b.position_current.y;
            dx * dx + dy * dy >= (a.radius + b.radius) * (a.radius + b.radius)
        }),
    ensures
        resolve_pair_spec(a, b, cohesion_num, cohesion_den, dt_inv) == (a, b),
{
}

/// One pair resolution displaces each body's center by at most the sum of
/// the two radii, in each coordinate.
pub proof fn lemma_pair_displacement(
    a: VerletObject,
    b: VerletObject,
    cohesion_num: int,
    cohesion_den: int,
    dt_inv: int,
)
    requires
        body_ok(a),
        body_ok(b),
    ensures
        ({
            let r = resolve_pair_spec(a, b, cohesion_num, cohesion_den, dt_inv);
            &&& abs(r.0.position_current.x - a.position_current.x) <= a.radius + b.radius
            &&& abs(r.0.position_current.y - a.position_current.y) <= a.radius + b.radius
            &&& abs(r.1.position_current.x - b.position_current.x) <= a.radius + b.radius
            &&& abs(r.1.position_current.y - b.position_current.y) <= a.radius + b.radius
        }),
{
    let dx = a.position_current.x - b.position_current.x;
    let dy = a.position_current.y - b.position_current.y;
    let d2 = dx * dx + dy * dy;
    let rsum = a.radius + b.radius;
    if d2 < rsum * rsum && d2 > EPS_SQ {
        assert(dx * dx >= 0) by (nonlinear_arith);
        assert(dy * dy >= 0) by (nonlinear_arith);
        lemma_sqrt_f(d2);
        let dist = sqrt_f(d2);
        assert(dist < rsum) by (nonlinear_arith)
            requires
                dist >= 0,
                rsum > 0,
                dist * dist <= d2,
                d2 < rsum * rsum,
        ;
        assert(dist >= 1) by (nonlinear_arith)
            requires
                dist >= 0,
                d2 < (dist + 1) * (dist + 1),
                d2 > EPS_SQ,
        ;
        assert(-dist <= dx <= dist) by (nonlinear_arith)
            requires
                dx * dx <= d2,
                d2 < (dist + 1) * (dist + 1),
                dist >= 0,
        ;
        assert(-dist <= dy <= dist) by (nonlinear_arith)
            requires
                dy * dy <= d2,
                d2 < (dist + 1) * (dist + 1),
                dist >= 0,
        ;
        lemma_tdiv_bounds(rsum - dist, 2);
        let delta = tdiv(rsum - dist, 2int);
        let mtot = a.inertia + b.inertia;
        let den = mtot * dist;
        assert(mtot * dist > 0) by (nonlinear_arith)
            requires
                mtot > 0,
                dist > 0,
        ;
        assert(-(den * delta) <= dx * delta * b.inertia <= den * delta) by (nonlinear_arith)
            requires
                -dist <= dx <= dist,
                0 <= b.inertia <= mtot,
                0 <= delta,
                0 < dist,
                0 < mtot,
                den == mtot * dist,
        ;
        assert(-(den * delta) <= dy * delta * b.inertia <= den * delta) by (nonlinear_arith)
            requires
                -dist <= dy <= dist,
                0 <= b.inertia <= mtot,
                0 <= delta,
                0 < dist,
                0 < mtot,
                den == mtot * dist,
        ;
        assert(-(den * delta) <= -(dx * delta) * a.inertia <= den * delta) by (nonlinear_arith)
            requires
                -dist <= dx <= dist,
                0 <= a.inertia <= mtot,
                0 <= delta,
                0 < dist,
                0 < mtot,
                den == mtot * dist,
        ;
        assert(-(den * delta) <= -(dy * delta) * a.inertia <= den * delta) by (nonlinear_arith)
            requires
                -dist <= dy <= dist,
                0 <= a.inertia <= mtot,
                0 <= delta,
                0 < dist,
                0 < mtot,
                den == mtot * dist,
        ;
        lemma_tdiv_magnitude(dx * delta * b.inertia, den, delta);
        lemma_tdiv_magnitude(dy * delta * b.inertia, den, delta);
        lemma_tdiv_magnitude(-(dx * delta) * a.inertia, den, delta);
        lemma_tdiv_magnitude(-(dy * delta) * a.inertia, den, delta);
    }
}

/// One plain Verlet step displaces a body by at most its velocity plus its
/// acceleration scaled by the squared time step, in each coordinate.
pub proof fn lemma_integration_displacement(b: VerletObject, dt_inv: int)
    requires
        body_ok(b),
        1 <= dt_inv,
    ensures
        ({
            let nb = crate::body::integrate_plain_spec(b, dt_inv);
            let vx = b.position_current.x - b.position_old.x;
            let vy = b.position_current.y - b.position_old.y;
            &&& abs(nb.position_current.x - b.position_current.x) <= abs(vx) + tdiv(
                abs(b.acceleration.x as int) as int,
                dt_inv * dt_inv,
            )
            &&& abs(nb.position_current.y - b.position_current.y) <= abs(vy) + tdiv(
                abs(b.acceleration.y as int) as int,
                dt_inv * dt_inv,
            )
        }),
{
    let dt2 = dt_inv * dt_inv;
    assert(dt_inv * dt_inv >= 1) by (nonlinear_arith)
        requires
            dt_inv >= 1,
    ;
    lemma_tdiv_bounds(b.acceleration.x as int, dt2);
    lemma_tdiv_bounds(-(b.acceleration.x as int), dt2);
    lemma_tdiv_bounds(b.acceleration.y as int, dt2);
    lemma_tdiv_bounds(-(b.acceleration.y as int), dt2);
    assert(tdiv(-(b.acceleration.x as int), dt2) == -tdiv(b.acceleration.x as int, dt2));
    assert(tdiv(-(b.acceleration.y as int), dt2) == -tdiv(b.acceleration.y as int, dt2));
}

} // verus!

// Where each body lands in the built grid.
verus! {

/// Flat index of the cell that contains `point`.
pub open spec fn cell_index(point: (i64, i64), cell_size: i64, w: int) -> int {
    crate::grid::cell_x(point, cell_size) + crate::grid::cell_y(point, cell_size) * w
}

/// After the broad-phase build, cell `k` holds index `v` exactly when `v`
/// names one of the inserted bodies, that body's center lies inside the
/// grid, and `k` is the cell of its center: every body is stored in exactly
/// one cell, and appears there exactly once.
pub proof fn lemma_build_membership(
    c0: Seq<Seq<usize>>,
    bodies: Seq<VerletObject>,
    n: int,
    cell_size: i64,
    w: int,
    h: int,
    k: int,
    v: usize,
)
    requires
        c0.len() == w * h,
        forall|kk: int| 0 <= kk < c0.len() ==> (#[trigger] c0[kk]).len() == 0,
        cell_size >= 1,
        0 <= w,
        0 <= n <= usize::MAX,
        0 <= k < w * h,
    ensures
        build_spec(c0, bodies, n, cell_size, w, h)[k].contains(v) <==> ({
            &&& (v as int) < n
            &&& point_in_grid(body_point(bodies[v as int]), cell_size, w, h)
            &&& k == cell_index(body_point(bodies[v as int]), cell_size, w)
        }),
    decreases n,
{
    broadcast use vstd::seq_lib::lemma_seq_contains_after_push;

    if n == 0 {
        assert(!c0[k].contains(v)) by {
            if c0[k].contains(v) {
                let i = choose|i: int| 0 <= i < c0[k].len() && c0[k][i] == v;
            }
        }
    } else {
        lemma_build_membership(c0, bodies, n - 1, cell_size, w, h, k, v);
        lemma_build_len(c0, bodies, n - 1, cell_size, w, h);
        let prev = build_spec(c0, bodies, n - 1, cell_size, w, h);
        let point = body_point(bodies[n - 1]);
        let cur = build_spec(c0, bodies, n, cell_size, w, h);
        if point_in_grid(point, cell_size, w, h) {
            lemma_cell_index_in_range(point, cell_size, w, h);
            let kk = cell_index(point, cell_size, w);
            if k == kk {
                assert(cur[k] == prev[k].push((n - 1) as usize));
                assert(cur[k].contains(v) <==> ((n - 1) as usize == v || prev[k].contains(v)));
            } else {
                assert(cur[k] == prev[k]);
            }
        } else {
            assert(cur == prev);
        }
    }
}

} // verus!

// What the narrow phase leaves alone: a column range moves only the bodies
// its cells list. Together with the schedule's separation this is why
// workers of one pass may share the body array without locks.
verus! {

/// Index `idx` is listed in some cell of column `x`.
pub open spec fn mentioned_in_column(
    c: Seq<Seq<usize>>,
    x: int,
    rows: int,
    w: int,
    idx: usize,
) -> bool {
    exists|y: int| 0 <= y < rows && #[trigger] c[x + y * w].contains(idx)
}

/// Index `idx` is listed in some cell of the columns `[start, end)`.
pub open spec fn mentioned_in_columns(
    c: Seq<Seq<usize>>,
    start: int,
    end: int,
    rows: int,
    w: int,
    idx: usize,
) -> bool {
    exists|x: int| start <= x < end && #[trigger] mentioned_in_column(c, x, rows, w, idx)
}

/// Pair resolution within one cell does not touch a body the cell does not
/// list.
proof fn lemma_do_pairs_frame(
    bodies: Seq<VerletObject>,
    cell: Seq<usize>,
    i: int,
    j: int,
    cohesion_num: int,
    cohesion_den: int,
    dt_inv: int,
    idx: usize,
)
    requires
        !cell.contains(idx),
        0 <= i,
        i < j,
    ensures
        do_pairs(bodies, cell, i, j, cohesion_num, cohesion_den, dt_inv).len() == bodies.len(),
        (idx as int) < bodies.len() ==> do_pairs(
            bodies,
            cell,
            i,
            j,
            cohesion_num,
            cohesion_den,
            dt_inv,
        )[idx as int] == bodies[idx as int],
    decreases cell.len() - i, cell.len() - j,
{
    if i >= cell.len() {
    } else if j >= cell.len() {
        lemma_do_pairs_frame(bodies, cell, i + 1, i + 2, cohesion_num, cohesion_den, dt_inv, idx);
    } else {
        let next = apply_pair(
            bodies,
            cell[i] as int,
            cell[j] as int,
            cohesion_num,
            cohesion_den,
            dt_inv,
        );
        assert(cell.contains(cell[i]));
        assert(cell.contains(cell[j]));
        lemma_do_pairs_frame(next, cell, i, j + 1, cohesion_num, cohesion_den, dt_inv, idx);
    }
}

/// Resolving a column's cells does not touch a body none of them lists.
proof fn lemma_do_rows_frame(
    bodies: Seq<VerletObject>,
    c: Seq<Seq<usize>>,
    x: int,
    y: int,
    rows: int,
    w: int,
    cohesion_num: int,
    cohesion_den: int,
    dt_inv: int,
    idx: usize,
)
    requires
        !mentioned_in_column(c, x, rows, w, idx),
        0 <= y,
    ensures
        do_rows(bodies, c, x, y, rows, w, cohesion_num, cohesion_den, dt_inv).len()
            == bodies.len(),
        (idx as int) < bodies.len() ==> do_rows(
            bodies,
            c,
            x,
            y,
            rows,
            w,
            cohesion_num,
            cohesion_den,
            dt_inv,
        )[idx as int] == bodies[idx as int],
    decreases rows - y,
{
    if y < rows {
        assert(!c[x + y * w].contains(idx));
        let next = do_cell(bodies, c[x + y * w], cohesion_num, cohesion_den, dt_inv);
        lemma_do_pairs_frame(bodies, c[x + y * w], 0, 1, cohesion_num, cohesion_den, dt_inv, idx);
        lemma_do_rows_frame(next, c, x, y + 1, rows, w, cohesion_num, cohesion_den, dt_inv, idx);
    }
}

/// The narrow phase over the columns `[start, end)` moves only bodies that
/// some cell of those columns lists; every other body comes out exactly as
/// it went in.
pub proof fn lemma_columns_frame(
    bodies: Seq<VerletObject>,
    c: Seq<Seq<usize>>,
    start: int,
    end: int,
    rows: int,
    w: int,
    cohesion_num: int,
    cohesion_den: int,
    dt_inv: int,
    idx: usize,
)
    requires
        !mentioned_in_columns(c, start, end, rows, w, idx),
        0 <= rows,
    ensures
        do_cols(bodies, c, start, end, rows, w, cohesion_num, cohesion_den, dt_inv).len()
            == bodies.len(),
        (idx as int) < bodies.len() ==> do_cols(
            bodies,
            c,
            start,
            end,
            rows,
            w,
            cohesion_num,
            cohesion_den,
            dt_inv,
        )[idx as int] == bodies[idx as int],
    decreases end - start,
{
    if start < end {
        assert(!mentioned_in_column(c, start, rows, w, idx));
        let next = do_rows(bodies, c, start, 0, rows, w, cohesion_num, cohesion_den, dt_inv);
        lemma_do_rows_frame(bodies, c, start, 0, rows, w, cohesion_num, cohesion_den, dt_inv, idx);
        lemma_columns_frame(
            next,
            c,
            start + 1,
            end,
            rows,
            w,
            cohesion_num,
            cohesion_den,
            dt_inv,
            idx,
        );
    }
}

} // verus!

// The narrow phase reads only the bodies a cell lists, so ranges that share
// no body commute, and the worker count cannot change the outcome.
verus! {

/// Pair resolution keeps the number of bodies.
proof fn lemma_do_pairs_len(
    bodies: Seq<VerletObject>,
    cell: Seq<usize>,
    i: int,
    j: int,
    cohesion_num: int,
    cohesion_den: int,
    dt_inv: int,
)
    ensures
        do_pairs(bodies, cell, i, j, cohesion_num, cohesion_den, dt_inv).len() == bodies.len(),
    decreases cell.len() - i, cell.len() - j,
{
    if i >= cell.len() {
    } else if j >= cell.len() {
        lemma_do_pairs_len(bodies, cell, i + 1, i + 2, cohesion_num, cohesion_den, dt_inv);
    } else {
        lemma_do_pairs_len(
            apply_pair(bodies, cell[i] as int, cell[j] as int, cohesion_num, cohesion_den, dt_inv),
            cell,
            i,
            j + 1,
            cohesion_num,
            cohesion_den,
            dt_inv,
        );
    }
}

/// A column keeps the number of bodies.
proof fn lemma_do_rows_len(
    bodies: Seq<VerletObject>,
    c: Seq<Seq<usize>>,
    x: int,
    y: int,
    rows: int,
    w: int,
    cohesion_num: int,
    cohesion_den: int,
    dt_inv: int,
)
    ensures
        do_rows(bodies, c, x, y, rows, w, cohesion_num, cohesion_den, dt_inv).len()
            == bodies.len(),
    decreases rows - y,
{
    if y < rows {
        lemma_do_pairs_len(bodies, c[x + y * w], 0, 1, cohesion_num, cohesion_den, dt_inv);
        lemma_do_rows_len(
            do_cell(bodies, c[x + y * w], cohesion_num, cohesion_den, dt_inv),
            c,
            x,
            y + 1,
            rows,
            w,
            cohesion_num,
            cohesion_den,
            dt_inv,
        );
    }
}

/// A column range keeps the number of bodies.
proof fn lemma_do_cols_len(
    bodies: Seq<VerletObject>,
    c: Seq<Seq<usize>>,
    start: int,
    end: int,
    rows: int,
    w: int,
    cohesion_num: int,
    cohesion_den: int,
    dt_inv: int,
)
    ensures
        do_cols(bodies, c, start, end, rows, w, cohesion_num, cohesion_den, dt_inv).len()
            == bodies.len(),
    decreases end - start,
{
    if start < end {
        lemma_do_rows_len(bodies, c, start, 0, rows, w, cohesion_num, cohesion_den, dt_inv);
        lemma_do_cols_len(
            do_rows(bodies, c, start, 0, rows, w, cohesion_num, cohesion_den, dt_inv),
            c,
            start + 1,
            end,
            rows,
            w,
            cohesion_num,
            cohesion_den,
            dt_inv,
        );
    }
}

/// Two body sequences that agree on a cell's members stay in agreement on
/// them through that cell's pair resolution.
proof fn lemma_do_pairs_cong(
    b1: Seq<VerletObject>,
    b2: Seq<VerletObject>,
    cell: Seq<usize>,
    i: int,
    j: int,
    cohesion_num: int,
    cohesion_den: int,
    dt_inv: int,
)
    requires
        b1.len() == b2.len(),
        0 <= i,
        i < j,
        forall|v: usize| cell.contains(v) && (v as int) < b1.len() ==> b1[v as int] == b2[v as int],
    ensures
        ({
            let r1 = do_pairs(b1, cell, i, j, cohesion_num, cohesion_den, dt_inv);
            let r2 = do_pairs(b2, cell, i, j, cohesion_num, cohesion_den, dt_inv);
            &&& r1.len() == b1.len()
            &&& r2.len() == b2.len()
            &&& forall|v: usize|
                cell.contains(v) && (v as int) < b1.len() ==> r1[v as int] == r2[v as int]
        }),
    decreases cell.len() - i, cell.len() - j,
{
    lemma_do_pairs_len(b1, cell, i, j, cohesion_num, cohesion_den, dt_inv);
    lemma_do_pairs_len(b2, cell, i, j, cohesion_num, cohesion_den, dt_inv);
    if i >= cell.len() {
    } else if j >= cell.len() {
        lemma_do_pairs_cong(b1, b2, cell, i + 1, i + 2, cohesion_num, cohesion_den, dt_inv);
    } else {
        let ai = cell[i] as int;
        let bi = cell[j] as int;
        assert(cell.contains(cell[i]));
        assert(cell.contains(cell[j]));
        let n1 = apply_pair(b1, ai, bi, cohesion_num, cohesion_den, dt_inv);
        let n2 = apply_pair(b2, ai, bi, cohesion_num, cohesion_den, dt_inv);
        assert forall|v: usize| cell.contains(v) && (v as int) < n1.len() implies n1[v as int]
            == n2[v as int] by {}
        lemma_do_pairs_cong(n1, n2, cell, i, j + 1, cohesion_num, cohesion_den, dt_inv);
    }
}

/// Two body sequences that agree on everything a column mentions stay in
/// agreement on it through that column.
proof fn lemma_do_rows_cong(
    b1: Seq<VerletObject>,
    b2: Seq<VerletObject>,
    c: Seq<Seq<usize>>,
    x: int,
    y: int,
    rows: int,
    w: int,
    cohesion_num: int,
    cohesion_den: int,
    dt_inv: int,
)
    requires
        b1.len() == b2.len(),
        0 <= y,
        forall|v: usize|
            mentioned_in_column(c, x, rows, w, v) && (v as int) < b1.len() ==> b1[v as int]
                == b2[v as int],
    ensures
        ({
            let r1 = do_rows(b1, c, x, y, rows, w, cohesion_num, cohesion_den, dt_inv);
            let r2 = do_rows(b2, c, x, y, rows, w, cohesion_num, cohesion_den, dt_inv);
            &&& r1.len() == b1.len()
            &&& r2.len() == b2.len()
            &&& forall|v: usize|
                mentioned_in_column(c, x, rows, w, v) && (v as int) < b1.len() ==> r1[v as int]
                    == r2[v as int]
            &&& forall|v: usize|
                !mentioned_in_column(c, x, rows, w, v) && (v as int) < b1.len() ==> (r1[v as int]
                    == b1[v as int] && r2[v as int] == b2[v as int])
        }),
    decreases rows - y,
{
    lemma_do_rows_len(b1, c, x, y, rows, w, cohesion_num, cohesion_den, dt_inv);
    lemma_do_rows_len(b2, c, x, y, rows, w, cohesion_num, cohesion_den, dt_inv);
    if y >= rows {
        assert forall|v: usize|
            !mentioned_in_column(c, x, rows, w, v) && (v as int) < b1.len() implies (do_rows(
            b1,
            c,
            x,
            y,
            rows,
            w,
            cohesion_num,
            cohesion_den,
            dt_inv,
        )[v as int] == b1[v as int] && do_rows(
            b2,
            c,
            x,
            y,
            rows,
            w,
            cohesion_num,
            cohesion_den,
            dt_inv,
        )[v as int] == b2[v as int]) by {}
    } else {
        let cell = c[x + y * w];
        let n1 = do_cell(b1, cell, cohesion_num, cohesion_den, dt_inv);
        let n2 = do_cell(b2, cell, cohesion_num, cohesion_den, dt_inv);
        assert forall|v: usize| cell.contains(v) && (v as int) < b1.len() implies b1[v as int]
            == b2[v as int] by {
            assert(mentioned_in_column(c, x, rows, w, v));
        }
        lemma_do_pairs_cong(b1, b2, cell, 0, 1, cohesion_num, cohesion_den, dt_inv);
        assert forall|v: usize|
            mentioned_in_column(c, x, rows, w, v) && (v as int) < b1.len() implies n1[v as int]
            == n2[v as int] by {
            if !cell.contains(v) {
                lemma_do_pairs_frame(b1, cell, 0, 1, cohesion_num, cohesion_den, dt_inv, v);
                lemma_do_pairs_frame(b2, cell, 0, 1, cohesion_num, cohesion_den, dt_inv, v);
            }
        }
        assert forall|v: usize|
            !mentioned_in_column(c, x, rows, w, v) && (v as int) < b1.len() implies (n1[v as int]
            == b1[v as int] && n2[v as int] == b2[v as int]) by {
            assert(!cell.contains(v));
            lemma_do_pairs_frame(b1, cell, 0, 1, cohesion_num, cohesion_den, dt_inv, v);
            lemma_do_pairs_frame(b2, cell, 0, 1, cohesion_num, cohesion_den, dt_inv, v);
        }
        lemma_do_rows_cong(n1, n2, c, x, y + 1, rows, w, cohesion_num, cohesion_den, dt_inv);
    }
}

} // verus!

// Commuting disjoint column ranges.
verus! {

/// Two body sequences that agree on everything a column range mentions stay
/// in agreement on it through the range, and neither run touches the rest.
proof fn lemma_do_cols_cong(
    b1: Seq<VerletObject>,
    b2: Seq<VerletObject>,
    c: Seq<Seq<usize>>,
    start: int,
    end: int,
    rows: int,
    w: int,
    cohesion_num: int,
    cohesion_den: int,
    dt_inv: int,
)
    requires
        b1.len() == b2.len(),
        0 <= rows,
        forall|v: usize|
            mentioned_in_columns(c, start, end, rows, w, v) && (v as int) < b1.len()
                ==> b1[v as int] == b2[v as int],
    ensures
        ({
            let r1 = do_cols(b1, c, start, end, rows, w, cohesion_num, cohesion_den, dt_inv);
            let r2 = do_cols(b2, c, start, end, rows, w, cohesion_num, cohesion_den, dt_inv);
            &&& r1.len() == b1.len()
            &&& r2.len() == b2.len()
            &&& forall|v: usize|
                mentioned_in_columns(c, start, end, rows, w, v) && (v as int) < b1.len()
                    ==> r1[v as int] == r2[v as int]
        }),
    decreases end - start,
{
    lemma_do_cols_len(b1, c, start, end, rows, w, cohesion_num, cohesion_den, dt_inv);
    lemma_do_cols_len(b2, c, start, end, rows, w, cohesion_num, cohesion_den, dt_inv);
    if start < end {
        let n1 = do_rows(b1, c, start, 0, rows, w, cohesion_num, cohesion_den, dt_inv);
        let n2 = do_rows(b2, c, start, 0, rows, w, cohesion_num, cohesion_den, dt_inv);
        assert forall|v: usize|
            mentioned_in_column(c, start, rows, w, v) && (v as int) < b1.len() implies b1[v as int]
            == b2[v as int] by {
            assert(mentioned_in_columns(c, start, end, rows, w, v));
        }
        lemma_do_rows_cong(b1, b2, c, start, 0, rows, w, cohesion_num, cohesion_den, dt_inv);
        assert forall|v: usize|
            mentioned_in_columns(c, start + 1, end, rows, w, v) && (v as int) < n1.len() implies
            n1[v as int] == n2[v as int] by {
            assert(mentioned_in_columns(c, start, end, rows, w, v)) by {
                let x = choose|x: int|
                    start + 1 <= x < end && #[trigger] mentioned_in_column(c, x, rows, w, v);
                assert(mentioned_in_column(c, x, rows, w, v));
            }
            if !mentioned_in_column(c, start, rows, w, v) {
            }
        }
        lemma_do_cols_cong(
            n1,
            n2,
            c,
            start + 1,
            end,
            rows,
            w,
            cohesion_num,
            cohesion_den,
            dt_inv,
        );
        assert forall|v: usize|
            mentioned_in_columns(c, start, end, rows, w, v) && (v as int) < b1.len() implies
            do_cols(b1, c, start, end, rows, w, cohesion_num, cohesion_den, dt_inv)[v as int]
            == do_cols(b2, c, start, end, rows, w, cohesion_num, cohesion_den, dt_inv)[v as int] by {
            if !mentioned_in_columns(c, start + 1, end, rows, w, v) {
                lemma_columns_frame(
                    n1,
                    c,
                    start + 1,
                    end,
                    rows,
                    w,
                    cohesion_num,
                    cohesion_den,
                    dt_inv,
                    v,
                );
                lemma_columns_frame(
                    n2,
                    c,
                    start + 1,
                    end,
                    rows,
                    w,
                    cohesion_num,
                    cohesion_den,
                    dt_inv,
                    v,
                );
            }
        }
    }
}

/// Splitting a column range at any point changes nothing: the columns are
/// still resolved left to right.
proof fn lemma_do_cols_split(
    bodies: Seq<VerletObject>,
    c: Seq<Seq<usize>>,
    start: int,
    mid: int,
    end: int,
    rows: int,
    w: int,
    cohesion_num: int,
    cohesion_den: int,
    dt_inv: int,
)
    requires
        start <= mid <= end,
    ensures
        do_cols(bodies, c, start, end, rows, w, cohesion_num, cohesion_den, dt_inv) == do_cols(
            do_cols(bodies, c, start, mid, rows, w, cohesion_num, cohesion_den, dt_inv),
            c,
            mid,
            end,
            rows,
            w,
            cohesion_num,
            cohesion_den,
            dt_inv,
        ),
    decreases mid - start,
{
    if start < mid {
        lemma_do_cols_split(
            do_rows(bodies, c, start, 0, rows, w, cohesion_num, cohesion_den, dt_inv),
            c,
            start + 1,
            mid,
            end,
            rows,
            w,
            cohesion_num,
            cohesion_den,
            dt_inv,
        );
    }
}

/// Column ranges that share no mentioned body commute.
proof fn lemma_do_cols_commute(
    bodies: Seq<VerletObject>,
    c: Seq<Seq<usize>>,
    s1: int,
    e1: int,
    s2: int,
    e2: int,
    rows: int,
    w: int,
    cohesion_num: int,
    cohesion_den: int,
    dt_inv: int,
)
    requires
        0 <= rows,
        bodies.len() <= usize::MAX,
        forall|v: usize|
            !(mentioned_in_columns(c, s1, e1, rows, w, v) && #[trigger] mentioned_in_columns(
                c,
                s2,
                e2,
                rows,
                w,
                v,
            )),
    ensures
        do_cols(
            do_cols(bodies, c, s1, e1, rows, w, cohesion_num, cohesion_den, dt_inv),
            c,
            s2,
            e2,
            rows,
            w,
            cohesion_num,
            cohesion_den,
            dt_inv,
        ) == do_cols(
            do_cols(bodies, c, s2, e2, rows, w, cohesion_num, cohesion_den, dt_inv),
            c,
            s1,
            e1,
            rows,
            w,
            cohesion_num,
            cohesion_den,
            dt_inv,
        ),
{
    let r1 = do_cols(bodies, c, s1, e1, rows, w, cohesion_num, cohesion_den, dt_inv);
    let r2 = do_cols(bodies, c, s2, e2, rows, w, cohesion_num, cohesion_den, dt_inv);
    let lhs = do_cols(r1, c, s2, e2, rows, w, cohesion_num, cohesion_den, dt_inv);
    let rhs = do_cols(r2, c, s1, e1, rows, w, cohesion_num, cohesion_den, dt_inv);
    lemma_do_cols_len(bodies, c, s1, e1, rows, w, cohesion_num, cohesion_den, dt_inv);
    lemma_do_cols_len(bodies, c, s2, e2, rows, w, cohesion_num, cohesion_den, dt_inv);
    lemma_do_cols_len(r1, c, s2, e2, rows, w, cohesion_num, cohesion_den, dt_inv);
    lemma_do_cols_len(r2, c, s1, e1, rows, w, cohesion_num, cohesion_den, dt_inv);
    // r1 agrees with the input on everything the second range mentions
    assert forall|v: usize|
        mentioned_in_columns(c, s2, e2, rows, w, v) && (v as int) < bodies.len() implies
        r1[v as int] == bodies[v as int] by {
        lemma_columns_frame(bodies, c, s1, e1, rows, w, cohesion_num, cohesion_den, dt_inv, v);
    }
    assert forall|v: usize|
        mentioned_in_columns(c, s1, e1, rows, w, v) && (v as int) < bodies.len() implies
        r2[v as int] == bodies[v as int] by {
        lemma_columns_frame(bodies, c, s2, e2, rows, w, cohesion_num, cohesion_den, dt_inv, v);
    }
    lemma_do_cols_cong(r1, bodies, c, s2, e2, rows, w, cohesion_num, cohesion_den, dt_inv);
    lemma_do_cols_cong(r2, bodies, c, s1, e1, rows, w, cohesion_num, cohesion_den, dt_inv);
    assert forall|v: int| 0 <= v < bodies.len() implies lhs[v] == rhs[v] by {
        let vu = v as usize;
        assert(vu as int == v);
        if mentioned_in_columns(c, s1, e1, rows, w, vu) {
            // untouched by the second range on the left; equal through the
            // first range on the right
            lemma_columns_frame(r1, c, s2, e2, rows, w, cohesion_num, cohesion_den, dt_inv, vu);
            assert(lhs[v] == r1[v]);
            assert(rhs[v] == r1[v]);
        } else if mentioned_in_columns(c, s2, e2, rows, w, vu) {
            lemma_columns_frame(r2, c, s1, e1, rows, w, cohesion_num, cohesion_den, dt_inv, vu);
            assert(rhs[v] == r2[v]);
            assert(lhs[v] == r2[v]);
        } else {
            lemma_columns_frame(bodies, c, s1, e1, rows, w, cohesion_num, cohesion_den, dt_inv, vu);
            lemma_columns_frame(bodies, c, s2, e2, rows, w, cohesion_num, cohesion_den, dt_inv, vu);
            lemma_columns_frame(r1, c, s2, e2, rows, w, cohesion_num, cohesion_den, dt_inv, vu);
            lemma_columns_frame(r2, c, s1, e1, rows, w, cohesion_num, cohesion_den, dt_inv, vu);
            assert(lhs[v] == bodies[v]);
            assert(rhs[v] == bodies[v]);
        }
    }
    assert(lhs =~= rhs);
}

} // verus!

// The worker count does not matter: the schedule equals one left-to-right
// sweep of the columns.
verus! {

/// Every body index is listed in the cells of at most one column.
pub open spec fn unique_column(c: Seq<Seq<usize>>, rows: int, w: int, columns: int) -> bool {
    forall|x1: int, x2: int, v: usize|
        0 <= x1 < columns && 0 <= x2 < columns && #[trigger] mentioned_in_column(c, x1, rows, w, v)
            && #[trigger] mentioned_in_column(c, x2, rows, w, v) ==> x1 == x2
}

/// A second-pass range that lies left of the remaining first-pass ranges
/// commutes across them.
proof fn lemma_pass_a_commute(
    bodies: Seq<VerletObject>,
    c: Seq<Seq<usize>>,
    k: int,
    threads: int,
    columns: int,
    rows: int,
    w: int,
    cohesion_num: int,
    cohesion_den: int,
    dt_inv: int,
    bs: int,
    be: int,
)
    requires
        1 <= threads,
        0 <= columns,
        0 <= rows,
        0 <= k <= threads,
        bodies.len() <= usize::MAX,
        unique_column(c, rows, w, columns),
        0 <= bs <= be,
        be <= k * slab_width(threads, columns),
        be <= columns,
    ensures
        do_cols(
            do_pass_a(bodies, c, k, threads, columns, rows, w, cohesion_num, cohesion_den, dt_inv),
            c,
            bs,
            be,
            rows,
            w,
            cohesion_num,
            cohesion_den,
            dt_inv,
        ) == do_pass_a(
            do_cols(bodies, c, bs, be, rows, w, cohesion_num, cohesion_den, dt_inv),
            c,
            k,
            threads,
            columns,
            rows,
            w,
            cohesion_num,
            cohesion_den,
            dt_inv,
        ),
    decreases threads - k,
{
    if k < threads {
        lemma_schedule_in_range(k, threads, columns);
        let a_s = pass_a_start(k, threads, columns);
        let a_e = pass_a_end(k, threads, columns);
        let y = do_cols(bodies, c, a_s, a_e, rows, w, cohesion_num, cohesion_den, dt_inv);
        lemma_do_cols_len(bodies, c, a_s, a_e, rows, w, cohesion_num, cohesion_den, dt_inv);
        assert(k * slab_width(threads, columns) <= (k + 1) * slab_width(threads, columns))
            by (nonlinear_arith)
            requires
                slab_width(threads, columns) >= 0,
        ;
        lemma_pass_a_commute(
            y,
            c,
            k + 1,
            threads,
            columns,
            rows,
            w,
            cohesion_num,
            cohesion_den,
            dt_inv,
            bs,
            be,
        );
        // the second-pass range lies strictly left of this worker's
        // first-pass range, so they mention disjoint bodies
        assert forall|v: usize|
            !(mentioned_in_columns(c, a_s, a_e, rows, w, v) && #[trigger] mentioned_in_columns(
                c,
                bs,
                be,
                rows,
                w,
                v,
            )) by {
            if mentioned_in_columns(c, a_s, a_e, rows, w, v) && mentioned_in_columns(
                c,
                bs,
                be,
                rows,
                w,
                v,
            ) {
                let x1 = choose|x: int|
                    a_s <= x < a_e && #[trigger] mentioned_in_column(c, x, rows, w, v);
                let x2 = choose|x: int|
                    bs <= x < be && #[trigger] mentioned_in_column(c, x, rows, w, v);
                assert(0 <= x1 < columns);
                assert(0 <= x2 < columns);
            }
        }
        lemma_do_cols_commute(
            bodies,
            c,
            a_s,
            a_e,
            bs,
            be,
            rows,
            w,
            cohesion_num,
            cohesion_den,
            dt_inv,
        );
    }
}

/// From worker `k` on, running the first passes and then the second passes
/// equals one left-to-right sweep from `k`'s slab to the last column.
proof fn lemma_schedule_sweeps(
    bodies: Seq<VerletObject>,
    c: Seq<Seq<usize>>,
    k: int,
    threads: int,
    columns: int,
    rows: int,
    w: int,
    cohesion_num: int,
    cohesion_den: int,
    dt_inv: int,
)
    requires
        1 <= threads,
        0 <= columns,
        0 <= rows,
        0 <= k < threads,
        bodies.len() <= usize::MAX,
        unique_column(c, rows, w, columns),
    ensures
        do_pass_b(
            do_pass_a(bodies, c, k, threads, columns, rows, w, cohesion_num, cohesion_den, dt_inv),
            c,
            k,
            threads,
            columns,
            rows,
            w,
            cohesion_num,
            cohesion_den,
            dt_inv,
        ) == do_cols(
            bodies,
            c,
            k * slab_width(threads, columns),
            columns,
            rows,
            w,
            cohesion_num,
            cohesion_den,
            dt_inv,
        ),
    decreases threads - k,
{
    lemma_schedule_in_range(k, threads, columns);
    let wid = slab_width(threads, columns);
    let a_s = pass_a_start(k, threads, columns);
    let a_e = pass_a_end(k, threads, columns);
    let b_e = pass_b_end(k, threads, columns);
    let y = do_cols(bodies, c, a_s, a_e, rows, w, cohesion_num, cohesion_den, dt_inv);
    lemma_do_cols_len(bodies, c, a_s, a_e, rows, w, cohesion_num, cohesion_den, dt_inv);
    vstd::arithmetic::div_mod::lemma_fundamental_div_mod(columns, threads);
    vstd::arithmetic::div_mod::lemma_mod_division_less_than_divisor(columns, threads);
    assert(threads * wid <= columns);
    let lhs = do_pass_b(
        do_pass_a(bodies, c, k, threads, columns, rows, w, cohesion_num, cohesion_den, dt_inv),
        c,
        k,
        threads,
        columns,
        rows,
        w,
        cohesion_num,
        cohesion_den,
        dt_inv,
    );
    if k == threads - 1 {
        assert(do_pass_a(bodies, c, k, threads, columns, rows, w, cohesion_num, cohesion_den,
            dt_inv) == y);
        assert(lhs == do_cols(y, c, a_e, columns, rows, w, cohesion_num, cohesion_den, dt_inv));
        lemma_do_cols_split(
            bodies,
            c,
            a_s,
            a_e,
            columns,
            rows,
            w,
            cohesion_num,
            cohesion_den,
            dt_inv,
        );
    } else {
        assert(b_e == (k + 1) * wid);
        assert((k + 1) * wid <= threads * wid) by (nonlinear_arith)
            requires
                k + 1 <= threads,
                wid >= 0,
        ;
        assert(do_pass_a(bodies, c, k, threads, columns, rows, w, cohesion_num, cohesion_den,
            dt_inv) == do_pass_a(y, c, k + 1, threads, columns, rows, w, cohesion_num,
            cohesion_den, dt_inv));
        assert(lhs == do_pass_b(
            do_cols(
                do_pass_a(y, c, k + 1, threads, columns, rows, w, cohesion_num, cohesion_den,
                    dt_inv),
                c,
                a_e,
                b_e,
                rows,
                w,
                cohesion_num,
                cohesion_den,
                dt_inv,
            ),
            c,
            k + 1,
            threads,
            columns,
            rows,
            w,
            cohesion_num,
            cohesion_den,
            dt_inv,
        ));
        lemma_pass_a_commute(
            y,
            c,
            k + 1,
            threads,
            columns,
            rows,
            w,
            cohesion_num,
            cohesion_den,
            dt_inv,
            a_e,
            b_e,
        );
        let z = do_cols(y, c, a_e, b_e, rows, w, cohesion_num, cohesion_den, dt_inv);
        assert(lhs == do_pass_b(
            do_pass_a(z, c, k + 1, threads, columns, rows, w, cohesion_num, cohesion_den, dt_inv),
            c,
            k + 1,
            threads,
            columns,
            rows,
            w,
            cohesion_num,
            cohesion_den,
            dt_inv,
        ));
        lemma_do_cols_split(bodies, c, a_s, a_e, b_e, rows, w, cohesion_num, cohesion_den, dt_inv);
        assert(z == do_cols(bodies, c, a_s, b_e, rows, w, cohesion_num, cohesion_den, dt_inv));
        lemma_do_cols_len(y, c, a_e, b_e, rows, w, cohesion_num, cohesion_den, dt_inv);
        lemma_schedule_sweeps(
            z,
            c,
            k + 1,
            threads,
            columns,
            rows,
            w,
            cohesion_num,
            cohesion_den,
            dt_inv,
        );
        assert(lhs == do_cols(z, c, (k + 1) * wid, columns, rows, w, cohesion_num, cohesion_den,
            dt_inv));
        lemma_do_cols_split(
            bodies,
            c,
            a_s,
            b_e,
            columns,
            rows,
            w,
            cohesion_num,
            cohesion_den,
            dt_inv,
        );
        assert(lhs == do_cols(bodies, c, a_s, columns, rows, w, cohesion_num, cohesion_den,
            dt_inv));
        assert(a_s == k * wid);
    }
}

/// The narrow phase computes one left-to-right sweep of all columns, for
/// every worker count: on a grid that lists each body in at most one column,
/// the worker count cannot change the outcome.
pub proof fn lemma_narrow_worker_count_irrelevant(
    bodies: Seq<VerletObject>,
    c: Seq<Seq<usize>>,
    t1: int,
    t2: int,
    columns: int,
    rows: int,
    w: int,
    cohesion_num: int,
    cohesion_den: int,
    dt_inv: int,
)
    requires
        1 <= t1,
        1 <= t2,
        0 <= columns,
        0 <= rows,
        bodies.len() <= usize::MAX,
        unique_column(c, rows, w, columns),
    ensures
        do_narrow(bodies, c, t1, columns, rows, w, cohesion_num, cohesion_den, dt_inv) == do_cols(
            bodies,
            c,
            0,
            columns,
            rows,
            w,
            cohesion_num,
            cohesion_den,
            dt_inv,
        ),
        do_narrow(bodies, c, t1, columns, rows, w, cohesion_num, cohesion_den, dt_inv)
            == do_narrow(bodies, c, t2, columns, rows, w, cohesion_num, cohesion_den, dt_inv),
{
    lemma_schedule_sweeps(bodies, c, 0, t1, columns, rows, w, cohesion_num, cohesion_den, dt_inv);
    lemma_schedule_sweeps(bodies, c, 0, t2, columns, rows, w, cohesion_num, cohesion_den, dt_inv);
}

} // verus!

// The built grid satisfies the uniqueness hypothesis, so a whole frame is
// independent of the worker count.
verus! {

/// The grid built by the broad phase lists each body in at most one column.
pub proof fn lemma_built_unique_column(
    c0: Seq<Seq<usize>>,
    bodies: Seq<VerletObject>,
    n: int,
    cell_size: i64,
    w: int,
    h: int,
)
    requires
        c0.len() == w * h,
        forall|kk: int| 0 <= kk < c0.len() ==> (#[trigger] c0[kk]).len() == 0,
        cell_size >= 1,
        0 <= w,
        0 <= h,
        0 <= n <= usize::MAX,
    ensures
        unique_column(build_spec(c0, bodies, n, cell_size, w, h), h, w, w),
{
    let c = build_spec(c0, bodies, n, cell_size, w, h);
    assert forall|x1: int, x2: int, v: usize|
        0 <= x1 < w && 0 <= x2 < w && #[trigger] mentioned_in_column(c, x1, h, w, v)
            && #[trigger] mentioned_in_column(c, x2, h, w, v) implies x1 == x2 by {
        let y1 = choose|y: int| 0 <= y < h && #[trigger] c[x1 + y * w].contains(v);
        let y2 = choose|y: int| 0 <= y < h && #[trigger] c[x2 + y * w].contains(v);
        assert(0 <= x1 + y1 * w < w * h) by (nonlinear_arith)
            requires
                0 <= x1 < w,
                0 <= y1 < h,
        ;
        assert(0 <= x2 + y2 * w < w * h) by (nonlinear_arith)
            requires
                0 <= x2 < w,
                0 <= y2 < h,
        ;
        lemma_build_membership(c0, bodies, n, cell_size, w, h, x1 + y1 * w, v);
        lemma_build_membership(c0, bodies, n, cell_size, w, h, x2 + y2 * w, v);
        assert(x1 + y1 * w == x2 + y2 * w);
        assert(x1 == x2) by (nonlinear_arith)
            requires
                x1 + y1 * w == x2 + y2 * w,
                0 <= x1 < w,
                0 <= x2 < w,
        ;
    }
}

/// The first pass keeps the number of bodies.
proof fn lemma_do_pass_a_len(
    bodies: Seq<VerletObject>,
    c: Seq<Seq<usize>>,
    k: int,
    threads: int,
    columns: int,
    rows: int,
    w: int,
    cohesion_num: int,
    cohesion_den: int,
    dt_inv: int,
)
    ensures
        do_pass_a(bodies, c, k, threads, columns, rows, w, cohesion_num, cohesion_den,
            dt_inv).len() == bodies.len(),
    decreases threads - k,
{
    if k < threads {
        lemma_do_cols_len(
            bodies,
            c,
            pass_a_start(k, threads, columns),
            pass_a_end(k, threads, columns),
            rows,
            w,
            cohesion_num,
            cohesion_den,
            dt_inv,
        );
        lemma_do_pass_a_len(
            do_cols(
                bodies,
                c,
                pass_a_start(k, threads, columns),
                pass_a_end(k, threads, columns),
                rows,
                w,
                cohesion_num,
                cohesion_den,
                dt_inv,
            ),
            c,
            k + 1,
            threads,
            columns,
            rows,
            w,
            cohesion_num,
            cohesion_den,
            dt_inv,
        );
    }
}

/// The second pass keeps the number of bodies.
proof fn lemma_do_pass_b_len(
    bodies: Seq<VerletObject>,
    c: Seq<Seq<usize>>,
    k: int,
    threads: int,
    columns: int,
    rows: int,
    w: int,
    cohesion_num: int,
    cohesion_den: int,
    dt_inv: int,
)
    ensures
        do_pass_b(bodies, c, k, threads, columns, rows, w, cohesion_num, cohesion_den,
            dt_inv).len() == bodies.len(),
    decreases threads - k,
{
    if k < threads {
        lemma_do_cols_len(
            bodies,
            c,
            pass_b_start(k, threads, columns),
            pass_b_end(k, threads, columns),
            rows,
            w,
            cohesion_num,
            cohesion_den,
            dt_inv,
        );
        lemma_do_pass_b_len(
            do_cols(
                bodies,
                c,
                pass_b_start(k, threads, columns),
                pass_b_end(k, threads, columns),
                rows,
                w,
                cohesion_num,
                cohesion_den,
                dt_inv,
            ),
            c,
            k + 1,
            threads,
            columns,
            rows,
            w,
            cohesion_num,
            cohesion_den,
            dt_inv,
        );
    }
}

/// A sub-step keeps the number of bodies.
pub proof fn lemma_step_len(s: &Solver, bodies: Seq<VerletObject>)
    ensures
        s.step_spec(bodies).len() == bodies.len(),
{
    let constrained = clamp_all(
        grav_all(bodies, s.gravity),
        s.world_width as int,
        s.world_height as int,
    );
    let built = build_spec(
        empty_cells((s.grid_w() * s.grid_h()) as nat),
        constrained,
        constrained.len() as int,
        s.cell_size,
        s.grid_w(),
        s.grid_h(),
    );
    lemma_do_pass_a_len(
        constrained,
        built,
        0,
        s.thread_count as int,
        s.grid_w(),
        s.grid_h(),
        s.grid_w(),
        s.cohesion_num as int,
        s.cohesion_den as int,
        s.dt_inv as int,
    );
    lemma_do_pass_b_len(
        do_pass_a(
            constrained,
            built,
            0,
            s.thread_count as int,
            s.grid_w(),
            s.grid_h(),
            s.grid_w(),
            s.cohesion_num as int,
            s.cohesion_den as int,
            s.dt_inv as int,
        ),
        built,
        0,
        s.thread_count as int,
        s.grid_w(),
        s.grid_h(),
        s.grid_w(),
        s.cohesion_num as int,
        s.cohesion_den as int,
        s.dt_inv as int,
    );
}

/// Two solvers that differ only in their worker count: the configuration
/// that actually enters the physics.
pub open spec fn same_physics(a: &Solver, b: &Solver) -> bool {
    &&& a.gravity == b.gravity
    &&& a.sub_steps == b.sub_steps
    &&& a.dt_inv == b.dt_inv
    &&& a.world_width == b.world_width
    &&& a.world_height == b.world_height
    &&& a.cell_size == b.cell_size
    &&& a.anti_pressure == b.anti_pressure
    &&& a.damping == b.damping
    &&& a.cohesion_num == b.cohesion_num
    &&& a.cohesion_den == b.cohesion_den
}

/// Two solvers with the same physics but any worker counts compute the same
/// sub-step: running the frame with one worker or many is identical, not
/// merely close.
pub proof fn lemma_step_worker_count_irrelevant(
    s1: &Solver,
    s2: &Solver,
    bodies: Seq<VerletObject>,
)
    requires
        s1.wf(),
        s2.wf(),
        same_physics(s1, s2),
        bodies.len() <= usize::MAX,
    ensures
        s1.step_spec(bodies) == s2.step_spec(bodies),
{
    let constrained = clamp_all(
        grav_all(bodies, s1.gravity),
        s1.world_width as int,
        s1.world_height as int,
    );
    let w = s1.grid_w();
    let h = s1.grid_h();
    lemma_tdiv_bounds(s1.world_width as int, s1.cell_size as int);
    lemma_tdiv_bounds(s1.world_height as int, s1.cell_size as int);
    let c0 = empty_cells((w * h) as nat);
    assert(c0.len() == w * h) by {
        assert(w * h >= 0) by (nonlinear_arith)
            requires
                w >= 0,
                h >= 0,
        ;
    }
    let built = build_spec(c0, constrained, constrained.len() as int, s1.cell_size, w, h);
    lemma_built_unique_column(
        c0,
        constrained,
        constrained.len() as int,
        s1.cell_size,
        w,
        h,
    );
    lemma_narrow_worker_count_irrelevant(
        constrained,
        built,
        s1.thread_count as int,
        s2.thread_count as int,
        w,
        h,
        w,
        s1.cohesion_num as int,
        s1.cohesion_den as int,
        s1.dt_inv as int,
    );
}

/// A whole update of any number of sub-steps is likewise independent of the
/// worker count.
pub proof fn lemma_update_worker_count_irrelevant(
    s1: &Solver,
    s2: &Solver,
    bodies: Seq<VerletObject>,
    n: int,
)
    requires
        s1.wf(),
        s2.wf(),
        same_physics(s1, s2),
        bodies.len() <= usize::MAX,
    ensures
        s1.steps_spec(bodies, n) == s2.steps_spec(bodies, n),
    decreases n,
{
    if n > 0 {
        lemma_step_worker_count_irrelevant(s1, s2, bodies);
        lemma_step_len(s1, bodies);
        lemma_update_worker_count_irrelevant(s1, s2, s1.step_spec(bodies), n - 1);
    }
}

} // verus!

// The anti-pressure step obeys the same kind of displacement bound.
verus! {

/// One anti-pressure Verlet step displaces a body by at most its velocity
/// plus its drag-augmented acceleration, in each coordinate: the inertia
/// scale and the squared time step only ever shrink the acceleration term.
pub proof fn lemma_anti_pressure_displacement(b: VerletObject, dt_inv: int, damping: int)
    requires
        body_ok(b),
        1 <= dt_inv,
        0 <= damping,
    ensures
        ({
            let nb = crate::body::integrate_anti_pressure_spec(b, dt_inv, damping);
            let vx = b.position_current.x - b.position_old.x;
            let vy = b.position_current.y - b.position_old.y;
            &&& abs(nb.position_current.x - b.position_current.x) <= abs(vx) + abs(
                b.acceleration.x - damping * vx,
            )
            &&& abs(nb.position_current.y - b.position_current.y) <= abs(vy) + abs(
                b.acceleration.y - damping * vy,
            )
        }),
{
    let vx = b.position_current.x - b.position_old.x;
    let vy = b.position_current.y - b.position_old.y;
    let vmag = sqrt_f(vx * vx + vy * vy);
    assert(vx * vx >= 0) by (nonlinear_arith);
    assert(vy * vy >= 0) by (nonlinear_arith);
    lemma_sqrt_f(vx * vx + vy * vy);
    lemma_tdiv_bounds(b.move_acc * UNIT, vmag + UNIT);
    assert(b.move_acc * UNIT >= 0) by (nonlinear_arith)
        requires
            b.move_acc >= 0,
    ;
    let inertia = crate::body::clamp_inertia(UNIT + tdiv(b.move_acc * UNIT, vmag + UNIT));
    let ax = b.acceleration.x - damping * vx;
    let ay = b.acceleration.y - damping * vy;
    let den = inertia * inertia * (dt_inv * dt_inv);
    assert(UNIT as int * UNIT as int <= den && den > 0) by (nonlinear_arith)
        requires
            den == inertia * inertia * (dt_inv * dt_inv),
            inertia >= UNIT,
            dt_inv >= 1,
            UNIT > 0,
    ;
    assert(-(den * abs(ax) as int) <= ax * UNIT * UNIT <= den * abs(ax) as int)
        by (nonlinear_arith)
        requires
            UNIT as int * UNIT as int <= den,
            UNIT > 0,
    ;
    assert(-(den * abs(ay) as int) <= ay * UNIT * UNIT <= den * abs(ay) as int)
        by (nonlinear_arith)
        requires
            UNIT as int * UNIT as int <= den,
            UNIT > 0,
    ;
    lemma_tdiv_magnitude(ax * UNIT * UNIT, den, abs(ax) as int);
    lemma_tdiv_magnitude(ay * UNIT * UNIT, den, abs(ay) as int);
}

} // verus!
