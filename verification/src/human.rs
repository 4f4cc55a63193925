use vstd::prelude::*;

use crate::num::{
    clamp_spec, clamp_wide, div_trunc, isqrt, isqrt_spec, lemma_isqrt_spec, lemma_mul_abs_bound,
    lemma_tdiv_bound, tdiv,
};
use crate::rng::{draw_of, rng_step, Rng, PROB_DEN};

verus! {

/// One spatial unit is `SCALE` fixed-point steps: positions, velocities and
/// radii are integers counted in thousandths of a unit.
pub const SCALE: i64 = 1000;

/// Velocities are kept within `[-VEL_CAP, VEL_CAP]` on both axes.
pub const VEL_CAP: i64 = 0x40000000;

/// Arena dimensions and radii are at most `DIM_MAX`.
pub const DIM_MAX: i64 = 0x10000000000;

/// Mid-tick positions never leave `[-POS_LIMIT, POS_LIMIT]`.
pub const POS_LIMIT: i64 = 0x20000000000;

/// Collision radius stamped on every spawned agent: seven spatial units.
pub const AGENT_RADIUS: i64 = 7 * SCALE;

/// Ticks after infection at which the chance of resolving reaches one half.
pub const RESOLVE_HALF_TICKS: u64 = 420;

/// Width, in ticks, of the ramp around the half-life point.
pub const RESOLVE_RAMP_TICKS: u64 = 60;

/// Distance from the half-life beyond which the ramp is evaluated as flat;
/// the chance there is within a hair of its asymptote.
pub const RESOLVE_CLAMP_TICKS: u64 = 10_000;

#[derive(Clone, Copy, Debug, PartialEq, Eq, Structural)]
pub enum Health {
    Susceptible,
    Infected,
    Removed,
    Died,
}

/// A 2-d fixed-point vector; operations return new values.
#[derive(Clone, Copy, Debug, PartialEq, Eq, Structural)]
pub struct Vector {
    pub x: i64,
    pub y: i64,
}

/// A circular agent: position, velocity, disease state, and the per-agent
/// parameters stamped at spawn time.
#[derive(Clone, Copy, Debug, PartialEq, Eq, Structural)]
pub struct Human {
    pub pos: Vector,
    pub velocity: Vector,
    pub health: Health,
    /// Collision radius of the agent.
    pub thickness: i64,
    /// Tick at which this agent was infected; 0 if never infected.
    pub infected_at: u64,
    /// Chance in `[0, PROB_DEN]` of catching the infection on contact.
    pub vulnerability: u64,
    /// Chance in `[0, PROB_DEN]` of dying rather than recovering.
    pub letality: u64,
}

pub open spec fn vec_bounded(v: Vector) -> bool {
    &&& -POS_LIMIT <= v.x <= POS_LIMIT
    &&& -POS_LIMIT <= v.y <= POS_LIMIT
}

/// Bounds under which all collision arithmetic stays exact.
pub open spec fn geom_bounded(h: Human) -> bool {
    &&& vec_bounded(h.pos)
    &&& 0 <= h.thickness <= DIM_MAX
    &&& -VEL_CAP <= h.velocity.x <= VEL_CAP
    &&& -VEL_CAP <= h.velocity.y <= VEL_CAP
}

pub open spec fn dot_spec(a: Vector, b: Vector) -> int {
    a.x * b.x + a.y * b.y
}

/// Squared distance between the two centers.
pub open spec fn center_gap_sq(a: Human, b: Human) -> int {
    (a.pos.x - b.pos.x) * (a.pos.x - b.pos.x) + (a.pos.y - b.pos.y) * (a.pos.y - b.pos.y)
}

/// Both alive and closer than the sum of the radii.
pub open spec fn collide_spec(a: Human, b: Human) -> bool {
    &&& a.health != Health::Died
    &&& b.health != Health::Died
    &&& center_gap_sq(a, b) <= (a.thickness + b.thickness) * (a.thickness + b.thickness)
}

/// Relative velocity of `a` against `b`, projected (unnormalized) on the
/// center line: `(v_a - v_b) . (pos_a - pos_b)`.
pub open spec fn rel_normal_dot(a: Human, b: Human) -> int {
    (a.velocity.x - b.velocity.x) * (a.pos.x - b.pos.x) + (a.velocity.y - b.velocity.y) * (a.pos.y
        - b.pos.y)
}

/// x-component of the velocity exchanged by an elastic equal-mass bounce.
pub open spec fn bounce_push_x(a: Human, b: Human) -> int {
    tdiv(rel_normal_dot(a, b) * (a.pos.x - b.pos.x), center_gap_sq(a, b))
}

/// y-component of the velocity exchanged by an elastic equal-mass bounce.
pub open spec fn bounce_push_y(a: Human, b: Human) -> int {
    tdiv(rel_normal_dot(a, b) * (a.pos.y - b.pos.y), center_gap_sq(a, b))
}

/// A velocity component clamped into `[-VEL_CAP, VEL_CAP]`.
pub open spec fn clamp_vel(v: int) -> i64 {
    clamp_spec(v, -VEL_CAP as int, VEL_CAP as int) as i64
}

/// What `bounce` leaves of the two agents.
pub open spec fn bounce_spec(a: Human, b: Human) -> (Human, Human) {
    let px = bounce_push_x(a, b);
    let py = bounce_push_y(a, b);
    (
        Human {
            velocity: Vector { x: clamp_vel(a.velocity.x - px), y: clamp_vel(a.velocity.y - py) },
            ..a
        },
        Human {
            velocity: Vector { x: clamp_vel(b.velocity.x + px), y: clamp_vel(b.velocity.y + py) },
            ..b
        },
    )
}

/// What one infection draw from state `rs` leaves of a susceptible agent.
pub open spec fn infect_one_spec(h: Human, now: u64, rs: u64) -> Human {
    if draw_of(rs) <= h.vulnerability {
        Human { health: Health::Infected, infected_at: now, ..h }
    } else {
        h
    }
}

/// What `infect` leaves of the two agents and the generator state.
pub open spec fn infect_spec(a: Human, b: Human, now: u64, rs: u64) -> (Human, Human, u64) {
    let to_b = a.health == Health::Infected && b.health == Health::Susceptible;
    let to_a = b.health == Health::Infected && a.health == Health::Susceptible;
    if to_b {
        (a, infect_one_spec(b, now, rs), rng_step(rs))
    } else if to_a {
        (infect_one_spec(a, now, rs), b, rng_step(rs))
    } else {
        (a, b, rs)
    }
}

/// What `contain` leaves of the agent.
pub open spec fn contain_spec(h: Human, min_x: int, max_x: int, min_y: int, max_y: int) -> Human {
    let nx = clamp_spec(h.pos.x as int, min_x + h.thickness, max_x - h.thickness);
    let ny = clamp_spec(h.pos.y as int, min_y + h.thickness, max_y - h.thickness);
    let vx = if nx - h.thickness <= min_x || nx + h.thickness >= max_x {
        -h.velocity.x as int
    } else {
        h.velocity.x as int
    };
    let vy = if ny - h.thickness <= min_y || ny + h.thickness >= max_y {
        -h.velocity.y as int
    } else {
        h.velocity.y as int
    };
    Human {
        pos: Vector { x: nx as i64, y: ny as i64 },
        velocity: Vector { x: vx as i64, y: vy as i64 },
        ..h
    }
}

/// What `recover_or_die` leaves of the agent and the generator state.
pub open spec fn recover_spec(h: Human, now: u64, rs: u64) -> (Human, u64) {
    if h.health != Health::Infected {
        (h, rs)
    } else {
        let chance = resolve_chance(now - h.infected_at);
        if (draw_of(rs) as int) < chance {
            let rs1 = rng_step(rs);
            if draw_of(rs1) <= PROB_DEN - h.letality {
                (Human { health: Health::Removed, ..h }, rng_step(rs1))
            } else {
                (
                    Human { health: Health::Died, velocity: Vector { x: 0i64, y: 0i64 }, ..h },
                    rng_step(rs1),
                )
            }
        } else {
            (h, rng_step(rs))
        }
    }
}

impl Vector {
    pub fn add(self, other: Vector) -> (r: Vector)
        requires
            i64::MIN <= self.x + other.x <= i64::MAX,
            i64::MIN <= self.y + other.y <= i64::MAX,
        ensures
            r.x == self.x + other.x,
            r.y == self.y + other.y,
    {
        Vector { x: self.x + other.x, y: self.y + other.y }
    }

    pub fn sub(self, other: Vector) -> (r: Vector)
        requires
            i64::MIN <= self.x - other.x <= i64::MAX,
            i64::MIN <= self.y - other.y <= i64::MAX,
        ensures
            r.x == self.x - other.x,
            r.y == self.y - other.y,
    {
        Vector { x: self.x - other.x, y: self.y - other.y }
    }

    pub fn dot(&self, other: &Vector) -> (r: i128)
        requires
            -POS_LIMIT <= self.x <= POS_LIMIT,
            -POS_LIMIT <= self.y <= POS_LIMIT,
            -POS_LIMIT <= other.x <= POS_LIMIT,
            -POS_LIMIT <= other.y <= POS_LIMIT,
        ensures
            r == dot_spec(*self, *other),
    {
        proof {
            lemma_mul_abs_bound(self.x as int, other.x as int, POS_LIMIT as int, POS_LIMIT as int);
            lemma_mul_abs_bound(self.y as int, other.y as int, POS_LIMIT as int, POS_LIMIT as int);
        }
        (self.x as i128) * (other.x as i128) + (self.y as i128) * (other.y as i128)
    }

    /// Scale by the fixed-point factor `s`: each component becomes
    /// `c * s / SCALE`, truncated toward zero.
    pub fn scale(&self, s: i64) -> (r: Vector)
        requires
            -0x2000000000000000 <= self.x * s <= 0x2000000000000000,
            -0x2000000000000000 <= self.y * s <= 0x2000000000000000,
        ensures
            r.x == tdiv(self.x * s, SCALE as int),
            r.y == tdiv(self.y * s, SCALE as int),
    {
        proof {
            lemma_tdiv_bound((self.x as int) * (s as int), SCALE as int, 0x2000000000000000);
            lemma_tdiv_bound((self.y as int) * (s as int), SCALE as int, 0x2000000000000000);
        }
        let x: i128 = div_trunc((self.x as i128) * (s as i128), SCALE as i128);
        let y: i128 = div_trunc((self.y as i128) * (s as i128), SCALE as i128);
        Vector { x: x as i64, y: y as i64 }
    }

    /// The unit vector along `(x, y)` at fixed-point scale: each component is
    /// `c * SCALE / len` where `len` is the integer length of `(x, y)`.
    pub fn normalize(x: i64, y: i64) -> (r: Vector)
        requires
            !(x == 0 && y == 0),
            -0x7fffffff <= x <= 0x7fffffff,
            -0x7fffffff <= y <= 0x7fffffff,
        ensures
            r.x == tdiv(x * SCALE, isqrt_spec(x * x + y * y)),
            r.y == tdiv(y * SCALE, isqrt_spec(x * x + y * y)),
            -SCALE <= r.x <= SCALE,
            -SCALE <= r.y <= SCALE,
    {
        proof {
            lemma_mul_abs_bound(x as int, x as int, 0x7fffffff, 0x7fffffff);
            lemma_mul_abs_bound(y as int, y as int, 0x7fffffff, 0x7fffffff);
            assert(x != 0 ==> x * x >= 1) by (nonlinear_arith);
            assert(y != 0 ==> y * y >= 1) by (nonlinear_arith);
            assert(x * x >= 0) by (nonlinear_arith);
            assert(y * y >= 0) by (nonlinear_arith);
        }
        let m: i128 = (x as i128) * (x as i128) + (y as i128) * (y as i128);
        let len: u64 = isqrt(m as u128);
        proof {
            lemma_isqrt_spec(m as int);
            let l = isqrt_spec(m as int);
            assert(l >= 1) by (nonlinear_arith)
                requires
                    l >= 0,
                    m >= 1,
                    m < (l + 1) * (l + 1),
            ;
            // |x| <= len, because x*x <= m < (len + 1)^2
            assert(-l <= x <= l) by (nonlinear_arith)
                requires
                    x * x <= m,
                    m < (l + 1) * (l + 1),
                    l >= 0,
            ;
            assert(-l <= y <= l) by (nonlinear_arith)
                requires
                    y * y <= m,
                    m < (l + 1) * (l + 1),
                    l >= 0,
            ;
            lemma_mul_abs_bound(x as int, SCALE as int, l, SCALE as int);
            lemma_mul_abs_bound(y as int, SCALE as int, l, SCALE as int);
            lemma_tdiv_bound((x as int) * (SCALE as int), l, SCALE as int);
            lemma_tdiv_bound((y as int) * (SCALE as int), l, SCALE as int);
        }
        let rx: i128 = div_trunc((x as i128) * (SCALE as i128), len as i128);
        let ry: i128 = div_trunc((y as i128) * (SCALE as i128), len as i128);
        Vector { x: rx as i64, y: ry as i64 }
    }
}

impl Human {
    pub fn new(
        pos: Vector,
        velocity: Vector,
        health: Health,
        thickness: i64,
        vulnerability: u64,
        letality: u64,
    ) -> (h: Human)
        ensures
            h == (Human { pos, velocity, health, thickness, infected_at: 0u64, vulnerability, letality }),
    {
        Human { pos, velocity, health, thickness, infected_at: 0, vulnerability, letality }
    }

    pub fn is_infected(&self) -> (r: bool)
        ensures
            r == (self.health == Health::Infected),
    {
        self.health == Health::Infected
    }

    pub fn is_infectable(&self) -> (r: bool)
        ensures
            r == (self.health != Health::Removed && self.health != Health::Died),
    {
        self.health != Health::Removed && self.health != Health::Died
    }

    pub fn is_dead(&self) -> (r: bool)
        ensures
            r == (self.health == Health::Died),
    {
        self.health == Health::Died
    }

    /// Whether this agent touches or overlaps the other; dead agents never
    /// collide.
    pub fn collide(&self, other: &Human) -> (r: bool)
        requires
            geom_bounded(*self),
            geom_bounded(*other),
        ensures
            r == collide_spec(*self, *other),
    {
        if self.is_dead() || other.is_dead() {
            return false;
        }
        let dx: i128 = self.pos.x as i128 - other.pos.x as i128;
        let dy: i128 = self.pos.y as i128 - other.pos.y as i128;
        let rr: i128 = self.thickness as i128 + other.thickness as i128;
        proof {
            lemma_mul_abs_bound(dx as int, dx as int, 2 * POS_LIMIT as int, 2 * POS_LIMIT as int);
            lemma_mul_abs_bound(dy as int, dy as int, 2 * POS_LIMIT as int, 2 * POS_LIMIT as int);
            lemma_mul_abs_bound(rr as int, rr as int, 2 * DIM_MAX as int, 2 * DIM_MAX as int);
        }
        dx * dx + dy * dy <= rr * rr
    }

    /// Elastic equal-mass collision response: the component of the relative
    /// velocity along the line of centers is exchanged between the two
    /// agents; the tangential components are untouched.  Each new component
    /// is clamped into `[-VEL_CAP, VEL_CAP]`.
    pub fn bounce(&mut self, other: &mut Human)
        requires
            geom_bounded(*old(self)),
            geom_bounded(*old(other)),
            !(old(self).pos.x == old(other).pos.x && old(self).pos.y == old(other).pos.y),
        ensures
            same_fixed(*old(self), *final(self)),
            same_fixed(*old(other), *final(other)),
            final(self).pos == old(self).pos,
            final(other).pos == old(other).pos,
            final(self).health == old(self).health,
            final(other).health == old(other).health,
            final(self).infected_at == old(self).infected_at,
            final(other).infected_at == old(other).infected_at,
            final(self).velocity.x == clamp_spec(
                old(self).velocity.x - bounce_push_x(*old(self), *old(other)),
                -VEL_CAP as int,
                VEL_CAP as int,
            ),
            final(self).velocity.y == clamp_spec(
                old(self).velocity.y - bounce_push_y(*old(self), *old(other)),
                -VEL_CAP as int,
                VEL_CAP as int,
            ),
            final(other).velocity.x == clamp_spec(
                old(other).velocity.x + bounce_push_x(*old(self), *old(other)),
                -VEL_CAP as int,
                VEL_CAP as int,
            ),
            final(other).velocity.y == clamp_spec(
                old(other).velocity.y + bounce_push_y(*old(self), *old(other)),
                -VEL_CAP as int,
                VEL_CAP as int,
            ),
            -VEL_CAP <= final(self).velocity.x <= VEL_CAP,
            -VEL_CAP <= final(self).velocity.y <= VEL_CAP,
            -VEL_CAP <= final(other).velocity.x <= VEL_CAP,
            -VEL_CAP <= final(other).velocity.y <= VEL_CAP,
            (*final(self), *final(other)) == bounce_spec(*old(self), *old(other)),
    {
        let dx: i128 = self.pos.x as i128 - other.pos.x as i128;
        let dy: i128 = self.pos.y as i128 - other.pos.y as i128;
        proof {
            lemma_mul_abs_bound(dx as int, dx as int, 2 * POS_LIMIT as int, 2 * POS_LIMIT as int);
            lemma_mul_abs_bound(dy as int, dy as int, 2 * POS_LIMIT as int, 2 * POS_LIMIT as int);
            assert(dx != 0 ==> dx * dx >= 1) by (nonlinear_arith);
            assert(dy != 0 ==> dy * dy >= 1) by (nonlinear_arith);
            assert(dx * dx >= 0) by (nonlinear_arith);
            assert(dy * dy >= 0) by (nonlinear_arith);
        }
        let m: i128 = dx * dx + dy * dy;
        let dvx: i128 = self.velocity.x as i128 - other.velocity.x as i128;
        let dvy: i128 = self.velocity.y as i128 - other.velocity.y as i128;
        proof {
            lemma_mul_abs_bound(dvx as int, dx as int, 2 * VEL_CAP as int, 2 * POS_LIMIT as int);
            lemma_mul_abs_bound(dvy as int, dy as int, 2 * VEL_CAP as int, 2 * POS_LIMIT as int);
        }
        let d: i128 = dvx * dx + dvy * dy;
        proof {
            lemma_mul_abs_bound(d as int, dx as int, 0x100000000000000000000 as int, 2 * POS_LIMIT as int);
            lemma_mul_abs_bound(d as int, dy as int, 0x100000000000000000000 as int, 2 * POS_LIMIT as int);
        }
        let px: i128 = div_trunc(d * dx, m);
        let py: i128 = div_trunc(d * dy, m);
        self.velocity.x = clamp_wide(self.velocity.x as i128 - px, -VEL_CAP, VEL_CAP);
        self.velocity.y = clamp_wide(self.velocity.y as i128 - py, -VEL_CAP, VEL_CAP);
        other.velocity.x = clamp_wide(other.velocity.x as i128 + px, -VEL_CAP, VEL_CAP);
        other.velocity.y = clamp_wide(other.velocity.y as i128 + py, -VEL_CAP, VEL_CAP);
    }

    /// Bidirectional contact infection: if exactly one side is `Infected` and
    /// the other is `Susceptible`, the susceptible side draws once and is
    /// infected when the draw does not exceed its vulnerability.
    pub fn infect(&mut self, other: &mut Human, now: u64, rng: &mut Rng)
        ensures
            same_fixed(*old(self), *final(self)),
            same_fixed(*old(other), *final(other)),
            final(self).pos == old(self).pos,
            final(other).pos == old(other).pos,
            final(self).velocity == old(self).velocity,
            final(other).velocity == old(other).velocity,
            ({
                let to_other = old(self).health == Health::Infected && old(other).health
                    == Health::Susceptible;
                let to_self = old(other).health == Health::Infected && old(self).health
                    == Health::Susceptible;
                let caught = draw_of(old(rng).state);
                &&& (!to_other && !to_self) ==> *final(self) == *old(self) && *final(other) == *old(
                    other,
                ) && *final(rng) == *old(rng)
                &&& to_other ==> {
                    &&& *final(self) == *old(self)
                    &&& final(rng).state == rng_step(old(rng).state)
                    &&& caught <= old(other).vulnerability ==> final(other).health
                        == Health::Infected && final(other).infected_at == now
                    &&& caught > old(other).vulnerability ==> *final(other) == *old(other)
                }
                &&& to_self ==> {
                    &&& *final(other) == *old(other)
                    &&& final(rng).state == rng_step(old(rng).state)
                    &&& caught <= old(self).vulnerability ==> final(self).health
                        == Health::Infected && final(self).infected_at == now
                    &&& caught > old(self).vulnerability ==> *final(self) == *old(self)
                }
            }),
            (*final(self), *final(other), final(rng).state) == infect_spec(
                *old(self),
                *old(other),
                now,
                old(rng).state,
            ),
    {
        let to_other = self.is_infected() && other.is_infectable() && !other.is_infected();
        let to_self = other.is_infected() && self.is_infectable() && !self.is_infected();
        if to_other {
            other.infect_me(now, rng);
        }
        if to_self {
            self.infect_me(now, rng);
        }
    }

    fn infect_me(&mut self, now: u64, rng: &mut Rng)
        ensures
            final(rng).state == rng_step(old(rng).state),
            same_fixed(*old(self), *final(self)),
            final(self).pos == old(self).pos,
            final(self).velocity == old(self).velocity,
            draw_of(old(rng).state) <= old(self).vulnerability ==> final(self).health
                == Health::Infected && final(self).infected_at == now,
            draw_of(old(rng).state) > old(self).vulnerability ==> *final(self) == *old(self),
    {
        if rng.draw() <= self.vulnerability {
            self.health = Health::Infected;
            self.infected_at = now;
        }
    }

    /// Keep the whole disc inside `[min_x, max_x] x [min_y, max_y]`: the
    /// position is clamped back into the rectangle first, then any velocity
    /// component still pressing on a wall is reflected.
    pub fn contain(&mut self, min_x: i64, max_x: i64, min_y: i64, max_y: i64)
        requires
            geom_bounded(*old(self)),
            -DIM_MAX <= min_x,
            max_x <= DIM_MAX,
            -DIM_MAX <= min_y,
            max_y <= DIM_MAX,
            min_x + 2 * old(self).thickness <= max_x,
            min_y + 2 * old(self).thickness <= max_y,
        ensures
            same_fixed(*old(self), *final(self)),
            final(self).health == old(self).health,
            final(self).infected_at == old(self).infected_at,
            final(self).pos.x == clamp_spec(
                old(self).pos.x as int,
                min_x + old(self).thickness,
                max_x - old(self).thickness,
            ),
            final(self).pos.y == clamp_spec(
                old(self).pos.y as int,
                min_y + old(self).thickness,
                max_y - old(self).thickness,
            ),
            final(self).velocity.x == if final(self).pos.x - final(self).thickness <= min_x
                || final(self).pos.x + final(self).thickness >= max_x {
                -old(self).velocity.x as int
            } else {
                old(self).velocity.x as int
            },
            final(self).velocity.y == if final(self).pos.y - final(self).thickness <= min_y
                || final(self).pos.y + final(self).thickness >= max_y {
                -old(self).velocity.y as int
            } else {
                old(self).velocity.y as int
            },
            min_x <= final(self).pos.x - final(self).thickness,
            final(self).pos.x + final(self).thickness <= max_x,
            min_y <= final(self).pos.y - final(self).thickness,
            final(self).pos.y + final(self).thickness <= max_y,
            -VEL_CAP <= final(self).velocity.x <= VEL_CAP,
            -VEL_CAP <= final(self).velocity.y <= VEL_CAP,
            *final(self) == contain_spec(
                *old(self),
                min_x as int,
                max_x as int,
                min_y as int,
                max_y as int,
            ),
    {
        let t: i64 = self.thickness;
        self.pos.x = crate::num::clamp_i64(self.pos.x, min_x + t, max_x - t);
        self.pos.y = crate::num::clamp_i64(self.pos.y, min_y + t, max_y - t);
        if self.pos.x - t <= min_x || self.pos.x + t >= max_x {
            self.velocity.x = -self.velocity.x;
        }
        if self.pos.y - t <= min_y || self.pos.y + t >= max_y {
            self.velocity.y = -self.velocity.y;
        }
    }

    /// Containment against the whole arena `[0, width] x [0, height]`.
    pub fn bounce_edge(&mut self, width: i64, height: i64)
        requires
            geom_bounded(*old(self)),
            0 < width <= DIM_MAX,
            0 < height <= DIM_MAX,
            2 * old(self).thickness <= width,
            2 * old(self).thickness <= height,
        ensures
            same_fixed(*old(self), *final(self)),
            final(self).health == old(self).health,
            final(self).infected_at == old(self).infected_at,
            final(self).pos.x == clamp_spec(
                old(self).pos.x as int,
                old(self).thickness as int,
                width - old(self).thickness,
            ),
            final(self).pos.y == clamp_spec(
                old(self).pos.y as int,
                old(self).thickness as int,
                height - old(self).thickness,
            ),
            final(self).velocity.x == if final(self).pos.x - final(self).thickness <= 0
                || final(self).pos.x + final(self).thickness >= width {
                -old(self).velocity.x as int
            } else {
                old(self).velocity.x as int
            },
            final(self).velocity.y == if final(self).pos.y - final(self).thickness <= 0
                || final(self).pos.y + final(self).thickness >= height {
                -old(self).velocity.y as int
            } else {
                old(self).velocity.y as int
            },
            0 <= final(self).pos.x - final(self).thickness,
            final(self).pos.x + final(self).thickness <= width,
            0 <= final(self).pos.y - final(self).thickness,
            final(self).pos.y + final(self).thickness <= height,
            -VEL_CAP <= final(self).velocity.x <= VEL_CAP,
            -VEL_CAP <= final(self).velocity.y <= VEL_CAP,
    {
        self.contain(0, width, 0, height);
    }

    /// Disease progression for an infected agent.  The chance of resolving
    /// rises along a rational sigmoid centered `RESOLVE_HALF_TICKS` ticks
    /// after infection; a resolving agent recovers unless a further draw
    /// falls within its letality, in which case it dies and stops moving.
    pub fn recover_or_die(&mut self, now: u64, rng: &mut Rng)
        requires
            old(self).infected_at <= now,
            old(self).letality <= PROB_DEN,
        ensures
            same_fixed(*old(self), *final(self)),
            final(self).pos == old(self).pos,
            final(self).infected_at == old(self).infected_at,
            old(self).health != Health::Infected ==> *final(self) == *old(self) && *final(rng)
                == *old(rng),
            old(self).health == Health::Infected ==> ({
                let s0 = old(rng).state;
                let s1 = rng_step(s0);
                let chance = resolve_chance(now - old(self).infected_at);
                &&& draw_of(s0) >= chance ==> *final(self) == *old(self) && final(rng).state == s1
                &&& (draw_of(s0) < chance && draw_of(s1) <= PROB_DEN - old(self).letality)
                    ==> final(self).health == Health::Removed && final(self).velocity == old(
                    self,
                ).velocity && final(rng).state == rng_step(s1)
                &&& (draw_of(s0) < chance && draw_of(s1) > PROB_DEN - old(self).letality)
                    ==> final(self).health == Health::Died && final(self).velocity == (Vector {
                    x: 0i64,
                    y: 0i64,
                }) && final(rng).state == rng_step(s1)
            }),
            (*final(self), final(rng).state) == recover_spec(*old(self), now, old(rng).state),
    {
        if !self.is_infected() {
            return ;
        }
        let elapsed: u64 = now - self.infected_at;
        let half: u64 = PROB_DEN / 2;
        let dist: u64 = if elapsed >= RESOLVE_HALF_TICKS {
            elapsed - RESOLVE_HALF_TICKS
        } else {
            RESOLVE_HALF_TICKS - elapsed
        };
        let u: u64 = if dist > RESOLVE_CLAMP_TICKS {
            RESOLVE_CLAMP_TICKS
        } else {
            dist
        };
        proof {
            lemma_mul_abs_bound(u as int, u as int, 10000, 10000);
            lemma_mul_abs_bound((u * u) as int, u as int, 100000000, 10000);
            lemma_mul_abs_bound((u * u * u) as int, u as int, 1000000000000, 10000);
            lemma_mul_abs_bound(half as int, (u * u * u * u) as int, 500000, 10000000000000000);
        }
        let u4: u128 = (u as u128) * (u as u128) * (u as u128) * (u as u128);
        proof {
            assert((RESOLVE_RAMP_TICKS as int) * (RESOLVE_RAMP_TICKS as int) * (
            RESOLVE_RAMP_TICKS as int) * (RESOLVE_RAMP_TICKS as int) == 12960000)
                by (nonlinear_arith)
                requires
                    RESOLVE_RAMP_TICKS == 60,
            ;
        }
        let r4: u128 = (RESOLVE_RAMP_TICKS as u128) * (RESOLVE_RAMP_TICKS as u128) * (
        RESOLVE_RAMP_TICKS as u128) * (RESOLVE_RAMP_TICKS as u128);
        let q128: u128 = ((half as u128) * u4) / (u4 + r4);
        proof {
            lemma_ramp_quot_bound(u4 as int, half as int, r4 as int);
        }
        let chance: u64 = if elapsed >= RESOLVE_HALF_TICKS {
            half + (q128 as u64)
        } else {
            half - (q128 as u64)
        };
        let d1: u64 = rng.draw();
        if d1 < chance {
            let d2: u64 = rng.draw();
            if d2 <= PROB_DEN - self.letality {
                self.health = Health::Removed;
            } else {
                self.health = Health::Died;
                self.velocity = Vector { x: 0, y: 0 };
            }
        }
    }
}

/// The thickness, vulnerability and letality of an agent never change.
pub open spec fn same_fixed(a: Human, b: Human) -> bool {
    &&& b.thickness == a.thickness
    &&& b.vulnerability == a.vulnerability
    &&& b.letality == a.letality
}

/// The chance, in `[0, PROB_DEN]`, that an infection `elapsed` ticks old
/// resolves this tick: a quartic sigmoid in the distance from the half-life
/// point, near 0 at infection time, one half at `RESOLVE_HALF_TICKS`, and
/// saturating toward `PROB_DEN` well past it.
pub open spec fn resolve_chance(elapsed: int) -> int {
    let h = (PROB_DEN / 2) as int;
    let dist = if elapsed >= RESOLVE_HALF_TICKS {
        elapsed - RESOLVE_HALF_TICKS
    } else {
        RESOLVE_HALF_TICKS - elapsed
    };
    let u = if dist > RESOLVE_CLAMP_TICKS {
        RESOLVE_CLAMP_TICKS as int
    } else {
        dist
    };
    let r = RESOLVE_RAMP_TICKS as int;
    let q = h * (u * u * u * u) / (u * u * u * u + r * r * r * r);
    if elapsed >= RESOLVE_HALF_TICKS {
        h + q
    } else {
        h - q
    }
}

/// `h * a / (a + d)` stays below `h` for positive `d`.
proof fn lemma_ramp_quot_bound(a: int, h: int, d: int)
    by (nonlinear_arith)
    requires
        a >= 0,
        h >= 1,
        d >= 1,
    ensures
        0 <= h * a / (a + d) < h,
{
}

/// Law: collision is symmetric in its two agents.
pub proof fn lemma_collide_symmetric(a: Human, b: Human)
    ensures
        collide_spec(a, b) == collide_spec(b, a),
{
    assert(center_gap_sq(a, b) == center_gap_sq(b, a)) by (nonlinear_arith);
    assert((a.thickness + b.thickness) * (a.thickness + b.thickness) == (b.thickness
        + a.thickness) * (b.thickness + a.thickness));
}

/// Velocity `(vx, vy)` projected (unnormalized) on the line of centers of
/// `a` and `b`.
pub open spec fn along_normal(vx: int, vy: int, a: Human, b: Human) -> int {
    vx * (a.pos.x - b.pos.x) + vy * (a.pos.y - b.pos.y)
}

/// Law: when no velocity component saturates, an elastic bounce conserves
/// total momentum exactly: the two velocities change by opposite amounts.
pub proof fn lemma_bounce_momentum(a: Human, b: Human)
    requires
        -VEL_CAP <= a.velocity.x - bounce_push_x(a, b) <= VEL_CAP,
        -VEL_CAP <= a.velocity.y - bounce_push_y(a, b) <= VEL_CAP,
        -VEL_CAP <= b.velocity.x + bounce_push_x(a, b) <= VEL_CAP,
        -VEL_CAP <= b.velocity.y + bounce_push_y(a, b) <= VEL_CAP,
    ensures
        clamp_spec(a.velocity.x - bounce_push_x(a, b), -VEL_CAP as int, VEL_CAP as int)
            + clamp_spec(b.velocity.x + bounce_push_x(a, b), -VEL_CAP as int, VEL_CAP as int)
            == a.velocity.x + b.velocity.x,
        clamp_spec(a.velocity.y - bounce_push_y(a, b), -VEL_CAP as int, VEL_CAP as int)
            + clamp_spec(b.velocity.y + bounce_push_y(a, b), -VEL_CAP as int, VEL_CAP as int)
            == a.velocity.y + b.velocity.y,
{
}

/// Law: when the exchanged components divide evenly and nothing saturates,
/// a bounce exactly swaps the two normal velocity components, so the sum of
/// the squared normal components - the kinetic energy along the collision
/// normal, for equal masses - is preserved.
pub proof fn lemma_bounce_energy(a: Human, b: Human)
    requires
        center_gap_sq(a, b) > 0,
        (rel_normal_dot(a, b) * (a.pos.x - b.pos.x)) % center_gap_sq(a, b) == 0,
        (rel_normal_dot(a, b) * (a.pos.y - b.pos.y)) % center_gap_sq(a, b) == 0,
        -VEL_CAP <= a.velocity.x - bounce_push_x(a, b) <= VEL_CAP,
        -VEL_CAP <= a.velocity.y - bounce_push_y(a, b) <= VEL_CAP,
        -VEL_CAP <= b.velocity.x + bounce_push_x(a, b) <= VEL_CAP,
        -VEL_CAP <= b.velocity.y + bounce_push_y(a, b) <= VEL_CAP,
    ensures
        ({
            let ax = clamp_spec(a.velocity.x - bounce_push_x(a, b), -VEL_CAP as int, VEL_CAP as int);
            let ay = clamp_spec(a.velocity.y - bounce_push_y(a, b), -VEL_CAP as int, VEL_CAP as int);
            let bx = clamp_spec(b.velocity.x + bounce_push_x(a, b), -VEL_CAP as int, VEL_CAP as int);
            let by = clamp_spec(b.velocity.y + bounce_push_y(a, b), -VEL_CAP as int, VEL_CAP as int);
            let na0 = along_normal(a.velocity.x as int, a.velocity.y as int, a, b);
            let nb0 = along_normal(b.velocity.x as int, b.velocity.y as int, a, b);
            let na1 = along_normal(ax, ay, a, b);
            let nb1 = along_normal(bx, by, a, b);
            &&& na1 == nb0
            &&& nb1 == na0
            &&& na1 * na1 + nb1 * nb1 == na0 * na0 + nb0 * nb0
        }),
{
    let dx = a.pos.x - b.pos.x;
    let dy = a.pos.y - b.pos.y;
    let m = center_gap_sq(a, b);
    let d = rel_normal_dot(a, b);
    let px = bounce_push_x(a, b);
    let py = bounce_push_y(a, b);
    let vax = a.velocity.x as int;
    let vay = a.velocity.y as int;
    let vbx = b.velocity.x as int;
    let vby = b.velocity.y as int;
    lemma_tdiv_exact(d * dx, m);
    lemma_tdiv_exact(d * dy, m);
    assert(px * dx + py * dy == d) by (nonlinear_arith)
        requires
            m == dx * dx + dy * dy,
            m > 0,
            px * m == d * dx,
            py * m == d * dy,
    ;
    assert(d == (vax - vbx) * dx + (vay - vby) * dy);
    assert((vax - px) * dx + (vay - py) * dy == vbx * dx + vby * dy) by (nonlinear_arith)
        requires
            px * dx + py * dy == d,
            d == (vax - vbx) * dx + (vay - vby) * dy,
    ;
    assert((vbx + px) * dx + (vby + py) * dy == vax * dx + vay * dy) by (nonlinear_arith)
        requires
            px * dx + py * dy == d,
            d == (vax - vbx) * dx + (vay - vby) * dy,
    ;
}

/// With a positive divisor that divides evenly, truncating and Euclidean
/// division agree, and the quotient times the divisor restores the dividend.
proof fn lemma_tdiv_exact(a: int, b: int)
    requires
        b > 0,
        a % b == 0,
    ensures
        tdiv(a, b) * b == a,
{
    vstd::arithmetic::div_mod::lemma_fundamental_div_mod(a, b);
    if a < 0 {
        assert(-a == b * (-(a / b)) + 0) by (nonlinear_arith)
            requires
                a == b * (a / b),
        ;
        vstd::arithmetic::div_mod::lemma_fundamental_div_mod_converse(-a, b, -(a / b), 0);
    }
    assert(tdiv(a, b) * b == a) by (nonlinear_arith)
        requires
            a == b * (a / b) + a % b,
            a % b == 0,
            a < 0 ==> (-a) / b == -(a / b),
            tdiv(a, b) == if a >= 0 { a / b } else { -((-a) / b) },
    ;
}

} // verus!
