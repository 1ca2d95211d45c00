//! The Verlet particle: current position, previous position and accumulated
//! acceleration, all in fixed-point coordinates. Velocity is implicit as the
//! difference of the two positions, so one integration step needs only the
//! acceleration of the current frame.

use vstd::prelude::*;
use vstd::math::abs;
use crate::num::{tdiv, sat, sqrt_f, div_i64, div_i128, sat_i128, isqrt_u128, lemma_tdiv_bounds, lemma_mul_bound, lemma_sqrt_f, COORD_LIMIT};
use crate::{UNIT, RADIUS_LIMIT, INERTIA_LIMIT, DT_INV_LIMIT, DAMPING_LIMIT};

verus! {

/// A two-dimensional vector of fixed-point coordinates.
#[derive(Clone, Copy, Debug, PartialEq, Eq, Structural)]
pub struct Vec2 {
    pub x: i64,
    pub y: i64,
}

impl Vec2 {
    pub fn new(x: i64, y: i64) -> (v: Vec2)
        ensures
            v == (Vec2 { x, y }),
    {
        Vec2 { x, y }
    }
}

/// A stored scalar lies in the saturation band.
pub open spec fn in_band(v: int) -> bool {
    -COORD_LIMIT <= v <= COORD_LIMIT
}

/// Both components of a vector lie in the saturation band.
pub open spec fn vec_in_band(v: Vec2) -> bool {
    in_band(v.x as int) && in_band(v.y as int)
}

/// Saturation producing a stored coordinate.
pub open spec fn sat64(x: int) -> i64 {
    sat(x) as i64
}

/// A particle: positions now and one step ago, this step's acceleration, and
/// the anti-pressure state (`inertia` from last step's accumulated shove,
/// `move_acc` accumulating this step's).
#[derive(Clone, Copy, Debug)]
pub struct VerletObject {
    pub position_current: Vec2,
    pub position_old: Vec2,
    pub acceleration: Vec2,
    pub color: (u8, u8, u8),
    pub radius: i64,
    pub inertia: i64,
    pub move_acc: i64,
}

/// Well-formedness of a particle: fields inside the fixed-point bands that
/// every operation preserves.
pub open spec fn body_ok(b: VerletObject) -> bool {
    &&& vec_in_band(b.position_current)
    &&& vec_in_band(b.position_old)
    &&& vec_in_band(b.acceleration)
    &&& 0 < b.radius <= RADIUS_LIMIT
    &&& UNIT <= b.inertia <= INERTIA_LIMIT
    &&& 0 <= b.move_acc <= COORD_LIMIT
}

/// The implicit velocity: displacement of the last step.
pub open spec fn vel(b: VerletObject) -> Vec2 {
    Vec2 {
        x: (b.position_current.x - b.position_old.x) as i64,
        y: (b.position_current.y - b.position_old.y) as i64,
    }
}

/// What `accelerate` computes.
pub open spec fn accelerate_spec(b: VerletObject, acc: Vec2) -> VerletObject {
    VerletObject {
        acceleration: Vec2 {
            x: sat64(b.acceleration.x + acc.x),
            y: sat64(b.acceleration.y + acc.y),
        },
        ..b
    }
}

/// What `move_self` computes: the current position is translated, the
/// previous position is left alone (so the implicit velocity changes), and
/// the translation's size is added to `move_acc`.
pub open spec fn move_self_spec(b: VerletObject, delta: Vec2) -> VerletObject {
    VerletObject {
        position_current: Vec2 {
            x: sat64(b.position_current.x + delta.x),
            y: sat64(b.position_current.y + delta.y),
        },
        move_acc: sat64(b.move_acc + abs(delta.x as int) + abs(delta.y as int)),
        ..b
    }
}

/// What `set_velocity` computes: the previous position recedes by `v` over
/// one step of `1 / dt_inv` seconds, adding `v / dt_inv` to the implicit
/// velocity.
pub open spec fn set_velocity_spec(b: VerletObject, v: Vec2, dt_inv: int) -> VerletObject {
    VerletObject {
        position_old: Vec2 {
            x: sat64(b.position_old.x - tdiv(v.x as int, dt_inv)),
            y: sat64(b.position_old.y - tdiv(v.y as int, dt_inv)),
        },
        ..b
    }
}

/// Effective inertia, kept within its band.
pub open spec fn clamp_inertia(x: int) -> int {
    if x > INERTIA_LIMIT {
        INERTIA_LIMIT as int
    } else if x < UNIT {
        UNIT as int
    } else {
        x
    }
}

/// One Verlet step at `dt = 1 / dt_inv`, in the plain model: the position
/// advances by the implicit velocity plus `acceleration * dt * dt`; the
/// previous position becomes the old current one; the acceleration resets.
pub open spec fn integrate_plain_spec(b: VerletObject, dt_inv: int) -> VerletObject {
    let vx = b.position_current.x - b.position_old.x;
    let vy = b.position_current.y - b.position_old.y;
    let tx = tdiv(b.acceleration.x as int, dt_inv * dt_inv);
    let ty = tdiv(b.acceleration.y as int, dt_inv * dt_inv);
    VerletObject {
        position_current: Vec2 {
            x: sat64(b.position_current.x + vx + tx),
            y: sat64(b.position_current.y + vy + ty),
        },
        position_old: b.position_current,
        acceleration: Vec2 { x: 0, y: 0 },
        ..b
    }
}

/// One Verlet step at `dt = 1 / dt_inv` with the anti-pressure model: the
/// effective inertia grows with last step's accumulated shove, a drag of
/// `damping` times the velocity joins the acceleration, and the acceleration
/// term is scaled by the inverse square of the inertia (in world units).
pub open spec fn integrate_anti_pressure_spec(
    b: VerletObject,
    dt_inv: int,
    damping: int,
) -> VerletObject {
    let vx = b.position_current.x - b.position_old.x;
    let vy = b.position_current.y - b.position_old.y;
    let vmag = sqrt_f(vx * vx + vy * vy);
    let inertia = clamp_inertia(UNIT + tdiv(b.move_acc * UNIT, vmag + UNIT));
    let ax = b.acceleration.x - damping * vx;
    let ay = b.acceleration.y - damping * vy;
    let den = inertia * inertia * (dt_inv * dt_inv);
    let tx = tdiv(ax * UNIT * UNIT, den);
    let ty = tdiv(ay * UNIT * UNIT, den);
    VerletObject {
        position_current: Vec2 {
            x: sat64(b.position_current.x + vx + tx),
            y: sat64(b.position_current.y + vy + ty),
        },
        position_old: b.position_current,
        acceleration: Vec2 { x: 0, y: 0 },
        inertia: inertia as i64,
        move_acc: tdiv(b.move_acc as int, 2) as i64,
        ..b
    }
}

/// One Verlet step in whichever model is configured.
pub open spec fn integrate_spec(
    b: VerletObject,
    dt_inv: int,
    damping: int,
    anti_pressure: bool,
) -> VerletObject {
    if anti_pressure {
        integrate_anti_pressure_spec(b, dt_inv, damping)
    } else {
        integrate_plain_spec(b, dt_inv)
    }
}

impl VerletObject {
    /// A body at rest at `position_current`: the previous position coincides,
    /// so the implicit velocity is zero.
    pub fn new(position_current: Vec2, radius: i64, color: (u8, u8, u8)) -> (b: VerletObject)
        requires
            vec_in_band(position_current),
            0 < radius <= RADIUS_LIMIT,
        ensures
            b == (VerletObject {
                position_current,
                position_old: position_current,
                acceleration: Vec2 { x: 0, y: 0 },
                color,
                radius,
                inertia: UNIT,
                move_acc: 0,
            }),
            body_ok(b),
    {
        VerletObject {
            position_current,
            position_old: position_current,
            acceleration: Vec2 { x: 0, y: 0 },
            color,
            radius,
            inertia: UNIT,
            move_acc: 0,
        }
    }

    /// Add `acc` to this step's accumulated acceleration.
    pub fn accelerate(&mut self, acc: Vec2)
        requires
            body_ok(*old(self)),
            vec_in_band(acc),
        ensures
            *final(self) == accelerate_spec(*old(self), acc),
            body_ok(*final(self)),
    {
        let ax = sat_i128(self.acceleration.x as i128 + acc.x as i128);
        let ay = sat_i128(self.acceleration.y as i128 + acc.y as i128);
        self.acceleration = Vec2 { x: ax, y: ay };
    }

    /// Translate the current position by `delta` without touching the
    /// previous one, and account for the translation in `move_acc`.
    pub fn move_self(&mut self, delta: Vec2)
        requires
            body_ok(*old(self)),
            delta.x > i64::MIN,
            delta.y > i64::MIN,
        ensures
            *final(self) == move_self_spec(*old(self), delta),
            body_ok(*final(self)),
    {
        let px = sat_i128(self.position_current.x as i128 + delta.x as i128);
        let py = sat_i128(self.position_current.y as i128 + delta.y as i128);
        let adx: i64 = if delta.x < 0 {
            -delta.x
        } else {
            delta.x
        };
        let ady: i64 = if delta.y < 0 {
            -delta.y
        } else {
            delta.y
        };
        let ma = sat_i128(self.move_acc as i128 + adx as i128 + ady as i128);
        self.position_current = Vec2 { x: px, y: py };
        self.move_acc = ma;
    }

    /// Shift the previous position so that the implicit velocity grows by
    /// `v / dt_inv`.
    pub fn set_velocity(&mut self, v: Vec2, dt_inv: i64)
        requires
            body_ok(*old(self)),
            v.x > i64::MIN,
            v.y > i64::MIN,
            1 <= dt_inv,
        ensures
            *final(self) == set_velocity_spec(*old(self), v, dt_inv as int),
            body_ok(*final(self)),
    {
        proof {
            lemma_tdiv_bounds(v.x as int, dt_inv as int);
            lemma_tdiv_bounds(v.y as int, dt_inv as int);
        }
        let dx = div_i64(v.x, dt_inv);
        let dy = div_i64(v.y, dt_inv);
        let px = sat_i128(self.position_old.x as i128 - dx as i128);
        let py = sat_i128(self.position_old.y as i128 - dy as i128);
        self.position_old = Vec2 { x: px, y: py };
    }

    /// The implicit velocity `position_current - position_old`.
    pub fn velocity(&self) -> (v: Vec2)
        requires
            body_ok(*self),
        ensures
            v == vel(*self),
    {
        Vec2 { x: self.position_current.x - self.position_old.x, y: self.position_current.y
            - self.position_old.y }
    }

    /// Advance one Verlet step at `dt = 1 / dt_inv`.
    pub fn update_position(&mut self, dt_inv: i64, damping: i64, anti_pressure: bool)
        requires
            body_ok(*old(self)),
            1 <= dt_inv <= DT_INV_LIMIT,
            0 <= damping <= DAMPING_LIMIT,
        ensures
            *final(self) == integrate_spec(*old(self), dt_inv as int, damping as int,
                anti_pressure),
            body_ok(*final(self)),
    {
        let vx: i64 = self.position_current.x - self.position_old.x;
        let vy: i64 = self.position_current.y - self.position_old.y;
        if anti_pressure {
            proof {
                lemma_mul_bound(vx as int, vx as int, 2 * COORD_LIMIT, 2 * COORD_LIMIT);
                lemma_mul_bound(vy as int, vy as int, 2 * COORD_LIMIT, 2 * COORD_LIMIT);
                assert(vx as int * vx as int >= 0) by (nonlinear_arith);
                assert(vy as int * vy as int >= 0) by (nonlinear_arith);
            }
            let v2: i128 = (vx as i128) * (vx as i128) + (vy as i128) * (vy as i128);
            proof {
                lemma_sqrt_f(v2 as int);
                assert(sqrt_f(v2 as int) <= 3 * COORD_LIMIT) by (nonlinear_arith)
                    requires
                        sqrt_f(v2 as int) >= 0,
                        sqrt_f(v2 as int) * sqrt_f(v2 as int) <= v2 as int,
                        v2 as int <= 8 * (COORD_LIMIT as int) * (COORD_LIMIT as int),
                ;
            }
            let vmag: i128 = isqrt_u128(v2 as u128) as i128;
            proof {
                lemma_mul_bound(self.move_acc as int, UNIT as int, COORD_LIMIT as int,
                    UNIT as int);
                lemma_tdiv_bounds(self.move_acc as int * UNIT as int, vmag as int + UNIT as int);
            }
            let scaled_acc: i128 = div_i128((self.move_acc as i128) * (UNIT as i128), vmag + (
            UNIT as i128));
            let raw_inertia: i128 = (UNIT as i128) + scaled_acc;
            let inertia: i64 = if raw_inertia > INERTIA_LIMIT as i128 {
                INERTIA_LIMIT
            } else {
                raw_inertia as i64
            };
            let move_acc: i64 = div_i64(self.move_acc, 2);
            proof {
                lemma_mul_bound(damping as int, vx as int, DAMPING_LIMIT as int,
                    2 * COORD_LIMIT);
                lemma_mul_bound(damping as int, vy as int, DAMPING_LIMIT as int,
                    2 * COORD_LIMIT);
            }
            let ax: i128 = (self.acceleration.x as i128) - (damping as i128) * (vx as i128);
            let ay: i128 = (self.acceleration.y as i128) - (damping as i128) * (vy as i128);
            let abound: i128 = (COORD_LIMIT as i128) + (DAMPING_LIMIT as i128) * (2
                * COORD_LIMIT as i128);
            proof {
                lemma_mul_bound(ax as int, UNIT as int, abound as int, UNIT as int);
                lemma_mul_bound(ay as int, UNIT as int, abound as int, UNIT as int);
                lemma_mul_bound(ax as int * UNIT as int, UNIT as int, abound as int * UNIT as int,
                    UNIT as int);
                lemma_mul_bound(ay as int * UNIT as int, UNIT as int, abound as int * UNIT as int,
                    UNIT as int);
                lemma_mul_bound(inertia as int, inertia as int, INERTIA_LIMIT as int,
                    INERTIA_LIMIT as int);
                lemma_mul_bound(dt_inv as int, dt_inv as int, DT_INV_LIMIT as int,
                    DT_INV_LIMIT as int);
                lemma_mul_bound(inertia as int * inertia as int, dt_inv as int * dt_inv as int,
                    INERTIA_LIMIT as int * INERTIA_LIMIT as int,
                    DT_INV_LIMIT as int * DT_INV_LIMIT as int);
                assert(inertia as int * inertia as int * (dt_inv as int * dt_inv as int) > 0)
                    by (nonlinear_arith)
                    requires
                        inertia as int >= UNIT as int,
                        dt_inv as int >= 1,
                        UNIT as int > 0,
                ;
            }
            let den: i128 = (inertia as i128) * (inertia as i128) * ((dt_inv as i128) * (
            dt_inv as i128));
            let numx: i128 = (ax * (UNIT as i128)) * (UNIT as i128);
            let numy: i128 = (ay * (UNIT as i128)) * (UNIT as i128);
            proof {
                lemma_tdiv_bounds(numx as int, den as int);
                lemma_tdiv_bounds(numy as int, den as int);
            }
            let tx: i128 = div_i128(numx, den);
            let ty: i128 = div_i128(numy, den);
            let px = sat_i128(self.position_current.x as i128 + vx as i128 + tx);
            let py = sat_i128(self.position_current.y as i128 + vy as i128 + ty);
            self.position_old = self.position_current;
            self.position_current = Vec2 { x: px, y: py };
            self.acceleration = Vec2 { x: 0, y: 0 };
            self.inertia = inertia;
            self.move_acc = move_acc;
        } else {
            proof {
                lemma_mul_bound(dt_inv as int, dt_inv as int, DT_INV_LIMIT as int,
                    DT_INV_LIMIT as int);
                assert(dt_inv as int * dt_inv as int >= 1) by (nonlinear_arith)
                    requires
                        dt_inv as int >= 1,
                ;
            }
            let dt2: i64 = dt_inv * dt_inv;
            proof {
                lemma_tdiv_bounds(self.acceleration.x as int, dt2 as int);
                lemma_tdiv_bounds(self.acceleration.y as int, dt2 as int);
            }
            let tx = div_i64(self.acceleration.x, dt2);
            let ty = div_i64(self.acceleration.y, dt2);
            let px = sat_i128(self.position_current.x as i128 + vx as i128 + tx as i128);
            let py = sat_i128(self.position_current.y as i128 + vy as i128 + ty as i128);
            self.position_old = self.position_current;
            self.position_current = Vec2 { x: px, y: py };
            self.acceleration = Vec2 { x: 0, y: 0 };
        }
    }
}

} // verus!
