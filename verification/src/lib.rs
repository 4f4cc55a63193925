use vstd::prelude::*;

pub mod human;
pub mod num;
pub mod rng;
pub mod zone;

pub use human::{
    Health, Human, Vector, AGENT_RADIUS, DIM_MAX, POS_LIMIT, RESOLVE_HALF_TICKS,
    RESOLVE_RAMP_TICKS, SCALE, VEL_CAP,
};
pub use rng::{Rng, PROB_DEN};
pub use zone::Zone;

use crate::human::{
    bounce_spec, collide_spec, contain_spec, geom_bounded, infect_spec, recover_spec, same_fixed,
};
use crate::num::{isqrt_spec, lemma_mul_abs_bound, lemma_tdiv_bound, tdiv};
use crate::rng::{draw_below_of, rng_step};
use crate::zone::inside_spec;

verus! {

/// Smallest arena dimension: wide enough for the spawn margin of 15 units
/// on either side.
pub const MIN_DIM: i64 = 30 * SCALE;

/// Letality stamped on the default population: 0.08.
pub const DEFAULT_LETALITY: u64 = 80_000;

/// How often a colliding spawn position is redrawn before the agent falls
/// back to a free grid position.
pub const MAX_PLACE_TRIES: usize = 100;

/// One legal transition of the disease state machine.
pub open spec fn health_step(a: Health, b: Health) -> bool {
    ||| b == a
    ||| (a == Health::Susceptible && b == Health::Infected)
    ||| (a == Health::Infected && (b == Health::Removed || b == Health::Died))
}

/// Any chain of legal transitions: `Susceptible -> Infected -> {Removed,
/// Died}` is the only path, and `Removed` and `Died` are terminal.
pub open spec fn health_reach(a: Health, b: Health) -> bool {
    ||| b == a
    ||| (a == Health::Susceptible && b != Health::Susceptible)
    ||| (a == Health::Infected && (b == Health::Removed || b == Health::Died))
}

/// Law: no agent leaves a terminal state.
pub proof fn lemma_terminal_is_frozen(a: Health, b: Health)
    requires
        health_reach(a, b),
        a == Health::Removed || a == Health::Died,
    ensures
        b == a,
{
}

/// A chain of legal transitions extended by one legal transition is still a
/// chain of legal transitions.
pub proof fn lemma_health_reach_step(a: Health, b: Health, c: Health)
    requires
        health_reach(a, b),
        health_step(b, c),
    ensures
        health_reach(a, c),
{
}

/// How many agents of `s` are in state `target`.
pub open spec fn count_health(s: Seq<Human>, target: Health) -> int
    decreases s.len(),
{
    if s.len() == 0 {
        0
    } else {
        count_health(s.drop_last(), target) + if s.last().health == target {
            1int
        } else {
            0int
        }
    }
}

/// Law: the four per-state counts always partition the population.
pub proof fn lemma_counts_partition(s: Seq<Human>)
    ensures
        count_health(s, Health::Susceptible) + count_health(s, Health::Infected) + count_health(
            s,
            Health::Removed,
        ) + count_health(s, Health::Died) == s.len(),
    decreases s.len(),
{
    if s.len() > 0 {
        lemma_counts_partition(s.drop_last());
    }
}

/// Well-formedness of one agent against the arena.
pub open spec fn human_ok(h: Human, width: i64, height: i64, ticks: u64) -> bool {
    &&& 0 < h.thickness
    &&& 2 * h.thickness <= width
    &&& 2 * h.thickness <= height
    &&& 0 <= h.pos.x - h.thickness
    &&& h.pos.x + h.thickness <= width
    &&& 0 <= h.pos.y - h.thickness
    &&& h.pos.y + h.thickness <= height
    &&& -VEL_CAP <= h.velocity.x <= VEL_CAP
    &&& -VEL_CAP <= h.velocity.y <= VEL_CAP
    &&& (h.health == Health::Died ==> h.velocity.x == 0 && h.velocity.y == 0)
    &&& h.infected_at <= ticks
    &&& h.vulnerability <= PROB_DEN
    &&& h.letality <= PROB_DEN
}

/// An agent's disc fits in both sub-regions that a zone carves out.
pub open spec fn zone_compat(h: Human, z: Zone, width: i64) -> bool {
    &&& 2 * h.thickness <= z.x1
    &&& 2 * h.thickness <= width - z.x2
}

/// Well-formedness of a zone against the arena and the population.
pub open spec fn zone_ok(z: Zone, width: i64, humans: Seq<Human>) -> bool {
    &&& 0 < z.x1 < z.x2 < width
    &&& forall|i: int| 0 <= i < humans.len() ==> zone_compat(#[trigger] humans[i], z, width)
}

/// The left edge of the sub-region assigned to an agent that started the
/// tick as `start`.
pub open spec fn assigned_min_x(zone: Option<Zone>, start: Human) -> int {
    match zone {
        Option::None => 0,
        Option::Some(z) => if inside_spec(z, start) {
            0
        } else {
            z.x2 as int
        },
    }
}

/// The right edge of the sub-region assigned to an agent that started the
/// tick as `start`.
pub open spec fn assigned_max_x(zone: Option<Zone>, start: Human, width: i64) -> int {
    match zone {
        Option::None => width as int,
        Option::Some(z) => if inside_spec(z, start) {
            z.x1 as int
        } else {
            width as int
        },
    }
}

/// What one tick guarantees of each agent: a legal health path, unchanged
/// spawn parameters, containment in its assigned sub-region, capped
/// velocity, a motionless corpse, and a faithful infection timestamp.
pub open spec fn tick_post(
    pre: Human,
    post: Human,
    zone: Option<Zone>,
    width: i64,
    height: i64,
    now: u64,
) -> bool {
    &&& health_reach(pre.health, post.health)
    &&& same_fixed(pre, post)
    &&& assigned_min_x(zone, pre) <= post.pos.x - post.thickness
    &&& post.pos.x + post.thickness <= assigned_max_x(zone, pre, width)
    &&& 0 <= post.pos.y - post.thickness
    &&& post.pos.y + post.thickness <= height
    &&& -VEL_CAP <= post.velocity.x <= VEL_CAP
    &&& -VEL_CAP <= post.velocity.y <= VEL_CAP
    &&& (post.health == Health::Died ==> post.velocity.x == 0 && post.velocity.y == 0)
    &&& (post.health == pre.health ==> post.infected_at == pre.infected_at)
    &&& (pre.health == Health::Susceptible && post.health != Health::Susceptible
        ==> post.infected_at == now)
    &&& (pre.health == Health::Infected ==> post.infected_at == pre.infected_at)
    &&& post.infected_at <= now
}

/// The Euler integration step: one tick of motion at the current velocity.
pub open spec fn integrate_spec(h: Human) -> Human {
    Human {
        pos: Vector {
            x: (h.pos.x + h.velocity.x) as i64,
            y: (h.pos.y + h.velocity.y) as i64,
        },
        ..h
    }
}

/// The integration phase of a tick: every agent moves one velocity step,
/// all against the start-of-tick state, before any pair is examined.
pub open spec fn integrate_all(pre: Seq<Human>) -> Seq<Human> {
    pre.map(|q: int, h: Human| integrate_spec(h))
}

/// One pairwise interaction of the tick: if agents `i` and `j` of `work`
/// collide, they bounce (unless their centers coincide) and then exchange
/// infection, consuming generator state as `infect` does.
pub open spec fn pair_step(work: Seq<Human>, i: int, j: int, now: u64, rs: u64) -> (
    Seq<Human>,
    u64,
) {
    let hi = work[i];
    let hj = work[j];
    if collide_spec(hi, hj) {
        let bounced = if hi.pos == hj.pos {
            (hi, hj)
        } else {
            bounce_spec(hi, hj)
        };
        let infected = infect_spec(bounced.0, bounced.1, now, rs);
        (work.update(i, infected.0).update(j, infected.1), infected.2)
    } else {
        (work, rs)
    }
}

/// The pairwise pass of agent `i` against all later agents, in ascending
/// index order.
pub open spec fn pairs_from(work: Seq<Human>, i: int, j: int, now: u64, rs: u64) -> (Seq<Human>, u64)
    decreases work.len() - j,
{
    if j >= work.len() || !(0 <= i && i < j) {
        (work, rs)
    } else {
        let stepped = pair_step(work, i, j, now, rs);
        pairs_from(stepped.0, i, j + 1, now, stepped.1)
    }
}

/// The per-agent phase of a tick, run on the already-integrated working
/// copy: resolve agent `i`'s pairs against all later agents, contain it in
/// the sub-region assigned by its start-of-tick state `pre_i`, and age its
/// disease state.
pub open spec fn agent_phase(
    pre_i: Human,
    work: Seq<Human>,
    i: int,
    zone: Option<Zone>,
    width: i64,
    height: i64,
    now: u64,
    rs: u64,
) -> (Seq<Human>, u64) {
    let paired = pairs_from(work, i, i + 1, now, rs);
    let contained = contain_spec(
        paired.0[i],
        assigned_min_x(zone, pre_i),
        assigned_max_x(zone, pre_i, width),
        0,
        height as int,
    );
    let aged = recover_spec(contained, now, paired.1);
    (paired.0.update(i, aged.0), aged.1)
}

/// The tick pass from agent `i` on, driven over the start-of-tick snapshot
/// `pre` for zone routing.
pub open spec fn tick_phase(
    pre: Seq<Human>,
    work: Seq<Human>,
    i: int,
    zone: Option<Zone>,
    width: i64,
    height: i64,
    now: u64,
    rs: u64,
) -> (Seq<Human>, u64)
    decreases pre.len() - i,
{
    if i < 0 || i >= pre.len() || pre.len() != work.len() {
        (work, rs)
    } else {
        let stepped = agent_phase(pre[i], work, i, zone, width, height, now, rs);
        tick_phase(pre, stepped.0, i + 1, zone, width, height, now, stepped.1)
    }
}

/// What one tick computes from the starting population and generator
/// state: every position is integrated first, then the pairwise, containment
/// and aging phases run agent by agent.
pub open spec fn tick_spec(
    pre: Seq<Human>,
    zone: Option<Zone>,
    width: i64,
    height: i64,
    now: u64,
    rs: u64,
) -> (Seq<Human>, u64) {
    tick_phase(pre, integrate_all(pre), 0, zone, width, height, now, rs)
}

/// Law: an agent that starts a tick inside the quarantine region is still
/// wholly inside it afterwards, whatever its velocity.
pub proof fn lemma_quarantine_holds(
    pre: Human,
    post: Human,
    z: Zone,
    width: i64,
    height: i64,
    now: u64,
)
    requires
        tick_post(pre, post, Option::Some(z), width, height, now),
        inside_spec(z, pre),
        0 < post.thickness,
    ensures
        post.pos.x + post.thickness <= z.x1,
        inside_spec(z, post),
{
}

/// The velocity stamped on a spawned agent: a random direction, normalized
/// to unit length and scaled by the cohort's activity.  A doubly-zero
/// direction draw is replaced by the unit direction along x.
pub open spec fn spawn_velocity_spec(s: u64, activity: i64) -> Vector {
    let rx = draw_below_of(s, (2 * SCALE + 1) as u64) - SCALE;
    let ry = draw_below_of(rng_step(s), (2 * SCALE + 1) as u64) - SCALE;
    let cx = if rx == 0 && ry == 0 {
        SCALE as int
    } else {
        rx
    };
    let cy = if rx == 0 && ry == 0 {
        0int
    } else {
        ry
    };
    let len = isqrt_spec(cx * cx + cy * cy);
    Vector {
        x: tdiv(tdiv(cx * SCALE, len) * activity, SCALE as int) as i64,
        y: tdiv(tdiv(cy * SCALE, len) * activity, SCALE as int) as i64,
    }
}

/// Whether `h` collides with any agent of `cohort`.
pub open spec fn collides_any(cohort: Seq<Human>, h: Human) -> bool {
    exists|q: int| 0 <= q < cohort.len() && collide_spec(h, #[trigger] cohort[q])
}

/// Pitch of the fallback spawn grid: two grid positions never collide, and
/// no agent of radius `AGENT_RADIUS` can reach two of them at once.
pub const CELL_PITCH: i64 = 28 * SCALE + 1;

/// How many fallback grid columns the arena offers.
pub open spec fn grid_cols(width: i64) -> int {
    (width - 30 * SCALE) / (CELL_PITCH as int) + 1
}

/// How many fallback grid rows the arena offers.
pub open spec fn grid_rows(height: i64) -> int {
    (height - 30 * SCALE) / (CELL_PITCH as int) + 1
}

/// How many agents a cohort may hold so that every one of them is assured
/// a spawn position: one fallback grid position per agent.
pub open spec fn grid_capacity(width: i64, height: i64) -> int {
    grid_cols(width) * grid_rows(height)
}

/// The fallback grid position with ordinal `t`, row-major from the spawn
/// margin corner.
pub open spec fn cell_pos(t: int, width: i64) -> Vector {
    Vector {
        x: (15 * SCALE + (t % grid_cols(width)) * CELL_PITCH) as i64,
        y: (15 * SCALE + (t / grid_cols(width)) * CELL_PITCH) as i64,
    }
}

/// Agent `b` of `cohort` blocks grid position `tp` for `cand`.
pub open spec fn cell_blocked(cohort: Seq<Human>, cand: Human, tp: int, width: i64, b: int) -> bool {
    &&& 0 <= b < cohort.len()
    &&& collide_spec(Human { pos: cell_pos(tp, width), ..cand }, cohort[b])
}

/// Every grid position with an ordinal below the capacity lies within the
/// 15-unit spawn margin, with exact coordinates.
proof fn lemma_cell_in_bounds(t: int, width: i64, height: i64)
    requires
        MIN_DIM <= width <= DIM_MAX,
        MIN_DIM <= height <= DIM_MAX,
        0 <= t < grid_capacity(width, height),
    ensures
        cell_pos(t, width).x == 15 * SCALE + (t % grid_cols(width)) * CELL_PITCH,
        cell_pos(t, width).y == 15 * SCALE + (t / grid_cols(width)) * CELL_PITCH,
        0 <= (t % grid_cols(width)) * CELL_PITCH <= width - 30 * SCALE,
        0 <= (t / grid_cols(width)) * CELL_PITCH <= height - 30 * SCALE,
        15 * SCALE <= cell_pos(t, width).x <= width - 15 * SCALE,
        15 * SCALE <= cell_pos(t, width).y <= height - 15 * SCALE,
{
    let c = grid_cols(width);
    let r = grid_rows(height);
    let p = CELL_PITCH as int;
    crate::num::lemma_div_bound_simple(width - 30 * SCALE, p);
    crate::num::lemma_div_bound_simple(height - 30 * SCALE, p);
    vstd::arithmetic::div_mod::lemma_mod_bound(t, c);
    vstd::arithmetic::div_mod::lemma_fundamental_div_mod(width - 30 * SCALE, p);
    vstd::arithmetic::div_mod::lemma_mod_bound(width - 30 * SCALE, p);
    assert((t % c) * p <= (c - 1) * p) by (nonlinear_arith)
        requires
            t % c <= c - 1,
            p > 0,
    ;
    assert((c - 1) * p <= width - 30 * SCALE) by (nonlinear_arith)
        requires
            c - 1 == (width - 30 * SCALE) / p,
            width - 30 * SCALE == p * ((width - 30 * SCALE) / p) + (width - 30 * SCALE) % p,
            (width - 30 * SCALE) % p >= 0,
    ;
    assert((t % c) * p >= 0) by (nonlinear_arith)
        requires
            t % c >= 0,
            p > 0,
    ;
    crate::num::lemma_div_bound_simple(t, c);
    vstd::arithmetic::div_mod::lemma_fundamental_div_mod(t, c);
    assert(t / c <= r - 1) by (nonlinear_arith)
        requires
            t < c * r,
            t == c * (t / c) + t % c,
            0 <= t % c,
            c >= 1,
            t / c >= 0,
    ;
    vstd::arithmetic::div_mod::lemma_fundamental_div_mod(height - 30 * SCALE, p);
    vstd::arithmetic::div_mod::lemma_mod_bound(height - 30 * SCALE, p);
    assert((t / c) * p <= (r - 1) * p) by (nonlinear_arith)
        requires
            t / c <= r - 1,
            t / c >= 0,
            p > 0,
    ;
    assert((r - 1) * p <= height - 30 * SCALE) by (nonlinear_arith)
        requires
            r - 1 == (height - 30 * SCALE) / p,
            height - 30 * SCALE == p * ((height - 30 * SCALE) / p) + (height - 30 * SCALE) % p,
            (height - 30 * SCALE) % p >= 0,
    ;
    assert((t / c) * p >= 0) by (nonlinear_arith)
        requires
            t / c >= 0,
            p > 0,
    ;
}

/// An agent of radius `AGENT_RADIUS` can block only one grid position:
/// the pitch exceeds twice the collision range.
proof fn lemma_cell_witness_unique(
    cohort: Seq<Human>,
    cand: Human,
    t1: int,
    t2: int,
    width: i64,
    height: i64,
    b: int,
)
    requires
        MIN_DIM <= width <= DIM_MAX,
        MIN_DIM <= height <= DIM_MAX,
        0 <= t1 < grid_capacity(width, height),
        0 <= t2 < grid_capacity(width, height),
        cand.thickness == AGENT_RADIUS,
        0 <= b < cohort.len(),
        cohort[b].thickness == AGENT_RADIUS,
        cell_blocked(cohort, cand, t1, width, b),
        cell_blocked(cohort, cand, t2, width, b),
    ensures
        t1 == t2,
{
    lemma_cell_in_bounds(t1, width, height);
    lemma_cell_in_bounds(t2, width, height);
    let c = grid_cols(width);
    let p = CELL_PITCH as int;
    let x1 = cell_pos(t1, width).x as int;
    let y1 = cell_pos(t1, width).y as int;
    let x2 = cell_pos(t2, width).x as int;
    let y2 = cell_pos(t2, width).y as int;
    let mx = cohort[b].pos.x as int;
    let my = cohort[b].pos.y as int;
    let reach = 2 * AGENT_RADIUS as int;
    assert(-reach <= x1 - mx <= reach && -reach <= y1 - my <= reach) by (nonlinear_arith)
        requires
            (x1 - mx) * (x1 - mx) + (y1 - my) * (y1 - my) <= reach * reach,
            reach > 0,
    ;
    assert(-reach <= x2 - mx <= reach && -reach <= y2 - my <= reach) by (nonlinear_arith)
        requires
            (x2 - mx) * (x2 - mx) + (y2 - my) * (y2 - my) <= reach * reach,
            reach > 0,
    ;
    vstd::arithmetic::div_mod::lemma_fundamental_div_mod(t1, c);
    vstd::arithmetic::div_mod::lemma_fundamental_div_mod(t2, c);
    if t1 % c == t2 % c && t1 / c == t2 / c {
        assert(t1 == c * (t1 / c) + t1 % c);
        assert(t2 == c * (t2 / c) + t2 % c);
    } else if t1 % c != t2 % c {
        assert(x1 - x2 >= p || x2 - x1 >= p) by (nonlinear_arith)
            requires
                x1 == 15 * SCALE + (t1 % c) * p,
                x2 == 15 * SCALE + (t2 % c) * p,
                t1 % c != t2 % c,
                p > 0,
        ;
    } else {
        assert(y1 - y2 >= p || y2 - y1 >= p) by (nonlinear_arith)
            requires
                y1 == 15 * SCALE + (t1 / c) * p,
                y2 == 15 * SCALE + (t2 / c) * p,
                t1 / c != t2 / c,
                p > 0,
        ;
    }
}

/// The first unblocked grid position from ordinal `t` on; past the cohort's
/// size the position is taken as it stands, and the pigeonhole argument in
/// `find_free_cell` shows the scan never gets that far blocked.
pub open spec fn free_cell_from(
    cohort: Seq<Human>,
    cand: Human,
    t: int,
    width: i64,
) -> Vector
    decreases cohort.len() + 1 - t,
{
    let pos = cell_pos(t, width);
    if t >= cohort.len() || !collides_any(cohort, Human { pos, ..cand }) {
        pos
    } else {
        free_cell_from(cohort, cand, t + 1, width)
    }
}

/// The grid position the fallback placement picks for `cand`.
pub open spec fn free_cell_spec(cohort: Seq<Human>, cand: Human, width: i64) -> Vector {
    free_cell_from(cohort, cand, 0, width)
}

/// Scan the fallback grid for a position free of the cohort.  At most one
/// grid position lies within collision range of any one agent, so among the
/// first `cohort.len() + 1` positions one is always free.
fn find_free_cell(cohort: &Vec<Human>, candidate: &Human, width: i64, height: i64) -> (pos: Vector)
    requires
        MIN_DIM <= width <= DIM_MAX,
        MIN_DIM <= height <= DIM_MAX,
        cohort@.len() < grid_capacity(width, height),
        candidate.thickness == AGENT_RADIUS,
        geom_bounded(*candidate),
        forall|q: int| 0 <= q < cohort@.len() ==> geom_bounded(#[trigger] cohort@[q]),
        forall|q: int| 0 <= q < cohort@.len() ==> (#[trigger] cohort@[q]).thickness
            == AGENT_RADIUS,
    ensures
        pos == free_cell_spec(cohort@, *candidate, width),
        !collides_any(cohort@, (Human { pos, ..*candidate })),
        15 * SCALE <= pos.x <= width - 15 * SCALE,
        15 * SCALE <= pos.y <= height - 15 * SCALE,
{
    let n: usize = cohort.len();
    let cols: u64 = (((width - 30 * SCALE) as u64) / (CELL_PITCH as u64)) + 1;
    let mut t: usize = 0;
    let ghost mut blockers: Set<int> = Set::empty();
    while t <= n
        invariant
            t <= n + 1,
            n == cohort@.len(),
            n < grid_capacity(width, height),
            MIN_DIM <= width <= DIM_MAX,
            MIN_DIM <= height <= DIM_MAX,
            cols == grid_cols(width),
            candidate.thickness == AGENT_RADIUS,
            geom_bounded(*candidate),
            forall|q: int| 0 <= q < cohort@.len() ==> geom_bounded(#[trigger] cohort@[q]),
            forall|q: int| 0 <= q < cohort@.len() ==> (#[trigger] cohort@[q]).thickness
                == AGENT_RADIUS,
            blockers.finite(),
            blockers.subset_of(vstd::set_lib::set_int_range(0, n as int)),
            blockers.len() >= t,
            forall|b: int| blockers.contains(b) ==> exists|tp: int|
                0 <= tp < t && #[trigger] cell_blocked(cohort@, *candidate, tp, width, b),
            free_cell_from(cohort@, *candidate, t as int, width) == free_cell_spec(
                cohort@,
                *candidate,
                width,
            ),
        decreases n + 1 - t,
    {
        proof {
            lemma_cell_in_bounds(t as int, width, height);
        }
        let tc: u64 = (t as u64) % cols;
        let tr: u64 = (t as u64) / cols;
        proof {
            let c = grid_cols(width);
            crate::num::lemma_div_bound_simple(width - 30 * SCALE, CELL_PITCH as int);
            vstd::arithmetic::div_mod::lemma_mod_bound(t as int, c);
            crate::num::lemma_div_bound_simple(t as int, c);
            assert(tc as int == (t as int) % c);
            assert(tr as int == (t as int) / c);
            assert(tc < c);
            assert(((t as int) / c) <= ((t as int) / c) * (CELL_PITCH as int)) by (nonlinear_arith)
                requires
                    (t as int) / c >= 0,
                    CELL_PITCH >= 1,
            ;
            assert((tc as int) * (CELL_PITCH as int) == ((t as int) % c) * (CELL_PITCH as int));
            assert((tr as int) * (CELL_PITCH as int) == ((t as int) / c) * (CELL_PITCH as int));
        }
        let x: i64 = 15 * SCALE + (tc as i64) * CELL_PITCH;
        let y: i64 = 15 * SCALE + (tr as i64) * CELL_PITCH;
        let pos = Vector { x, y };
        proof {
            assert(pos == cell_pos(t as int, width));
        }
        let mut probe: Human = *candidate;
        probe.pos = pos;
        if !any_collision(cohort, &probe) {
            return pos;
        }
        proof {
            let probe_s = Human { pos, ..*candidate };
            assert(collides_any(cohort@, probe_s));
            let q = choose|q: int| 0 <= q < cohort@.len() && collide_spec(
                probe_s,
                #[trigger] cohort@[q],
            );
            assert(cell_blocked(cohort@, *candidate, t as int, width, q));
            if blockers.contains(q) {
                let tp = choose|tp: int|
                    0 <= tp < t && #[trigger] cell_blocked(cohort@, *candidate, tp, width, q);
                lemma_cell_witness_unique(
                    cohort@,
                    *candidate,
                    tp,
                    t as int,
                    width,
                    height,
                    q,
                );
            }
            let b0 = blockers;
            blockers = blockers.insert(q);
            vstd::set::axiom_set_insert_len(b0, q);
            if t == n {
                vstd::set_lib::lemma_int_range(0, n as int);
                vstd::set_lib::lemma_len_subset(
                    blockers,
                    vstd::set_lib::set_int_range(0, n as int),
                );
            }
        }
        t = t + 1;
    }
    proof {
        vstd::set_lib::lemma_int_range(0, n as int);
        vstd::set_lib::lemma_len_subset(blockers, vstd::set_lib::set_int_range(0, n as int));
    }
    Vector { x: 15 * SCALE, y: 15 * SCALE }
}

/// One random position with the 15-unit spawn margin, and the generator
/// state after its two draws.
pub open spec fn position_draw_spec(rs: u64, width: i64, height: i64) -> (Vector, u64) {
    let x = 15 * SCALE + draw_below_of(rs, (width - 30 * SCALE + 1) as u64);
    let y = 15 * SCALE + draw_below_of(rng_step(rs), (height - 30 * SCALE + 1) as u64);
    (Vector { x: x as i64, y: y as i64 }, rng_step(rng_step(rs)))
}

/// The agent a cohort stamps out at `pos` with the given health.
pub open spec fn spawn_human_spec(
    age_group: AgeGroup,
    pos: Vector,
    health: Health,
    rs: u64,
) -> Human {
    Human {
        pos,
        velocity: spawn_velocity_spec(rs, age_group.activity),
        health,
        thickness: AGENT_RADIUS,
        infected_at: 0u64,
        vulnerability: age_group.vulnerability,
        letality: age_group.letality,
    }
}

/// The rejection sampling of a spawn position: while the candidate collides
/// with an agent of the cohort and tries remain, its position is redrawn.
pub open spec fn place_retry_spec(
    cohort: Seq<Human>,
    h: Human,
    tries: int,
    rs: u64,
    width: i64,
    height: i64,
) -> (Human, u64)
    decreases MAX_PLACE_TRIES - tries,
{
    if !collides_any(cohort, h) || tries >= MAX_PLACE_TRIES {
        (h, rs)
    } else {
        let drawn = position_draw_spec(rs, width, height);
        place_retry_spec(cohort, Human { pos: drawn.0, ..h }, tries + 1, drawn.1, width, height)
    }
}

/// Spawning one cohort member: draw a position, stamp the agent, and redraw
/// the position while it collides with the cohort built so far.
pub open spec fn cohort_step(
    cohort: Seq<Human>,
    k: int,
    age_group: AgeGroup,
    rs: u64,
    width: i64,
    height: i64,
) -> (Seq<Human>, u64) {
    let health = if k == 0 {
        Health::Infected
    } else {
        Health::Susceptible
    };
    let drawn = position_draw_spec(rs, width, height);
    let spawned = spawn_human_spec(age_group, drawn.0, health, drawn.1);
    let placed = place_retry_spec(cohort, spawned, 0, rng_step(rng_step(drawn.1)), width, height);
    let settled = if collides_any(cohort, placed.0) {
        Human { pos: free_cell_spec(cohort, placed.0, width), ..placed.0 }
    } else {
        placed.0
    };
    (cohort.push(settled), placed.1)
}

/// The cohort members from ordinal `k` on.
pub open spec fn cohort_phase(
    cohort: Seq<Human>,
    k: int,
    size: int,
    age_group: AgeGroup,
    rs: u64,
    width: i64,
    height: i64,
) -> (Seq<Human>, u64)
    decreases size - k,
{
    if k >= size {
        (cohort, rs)
    } else {
        let stepped = cohort_step(cohort, k, age_group, rs, width, height);
        cohort_phase(stepped.0, k + 1, size, age_group, stepped.1, width, height)
    }
}

/// What `spawn_age_group` appends, and the generator state it leaves.
pub open spec fn spawn_cohort_spec(age_group: AgeGroup, rs: u64, width: i64, height: i64) -> (
    Seq<Human>,
    u64,
) {
    cohort_phase(Seq::empty(), 0, age_group.size as int, age_group, rs, width, height)
}

/// A cohort descriptor: consumed at spawn time to stamp shared parameters
/// onto freshly created agents.
pub struct AgeGroup {
    /// How many agents this cohort contributes.
    pub size: usize,
    /// Fixed-point speed multiplier: `SCALE` is one unit per tick.
    pub activity: i64,
    /// Chance in `[0, PROB_DEN]` of catching the infection on contact.
    pub vulnerability: u64,
    /// Chance in `[0, PROB_DEN]` of dying rather than recovering.
    pub letality: u64,
}

impl AgeGroup {
    /// Build one agent of this cohort: given position and health, a random
    /// direction at the cohort's speed, and the cohort's parameters.
    pub fn spawn(&self, pos: Vector, health: Health, rng: &mut Rng) -> (h: Human)
        requires
            0 <= self.activity <= VEL_CAP,
        ensures
            h.pos == pos,
            h.health == health,
            h.thickness == AGENT_RADIUS,
            h.infected_at == 0,
            h.vulnerability == self.vulnerability,
            h.letality == self.letality,
            h.velocity == spawn_velocity_spec(old(rng).state, self.activity),
            final(rng).state == rng_step(rng_step(old(rng).state)),
            -self.activity <= h.velocity.x <= self.activity,
            -self.activity <= h.velocity.y <= self.activity,
    {
        let span: u64 = (2 * SCALE + 1) as u64;
        let rx: i64 = (rng.draw_below(span) as i64) - SCALE;
        let ry: i64 = (rng.draw_below(span) as i64) - SCALE;
        let cx: i64 = if rx == 0 && ry == 0 {
            SCALE
        } else {
            rx
        };
        let cy: i64 = if rx == 0 && ry == 0 {
            0
        } else {
            ry
        };
        let unit: Vector = Vector::normalize(cx, cy);
        proof {
            lemma_mul_abs_bound(unit.x as int, self.activity as int, SCALE as int, VEL_CAP as int);
            lemma_mul_abs_bound(unit.y as int, self.activity as int, SCALE as int, VEL_CAP as int);
            lemma_mul_abs_bound(
                unit.x as int,
                self.activity as int,
                SCALE as int,
                self.activity as int,
            );
            lemma_mul_abs_bound(
                unit.y as int,
                self.activity as int,
                SCALE as int,
                self.activity as int,
            );
            lemma_tdiv_bound(
                (unit.x as int) * (self.activity as int),
                SCALE as int,
                self.activity as int,
            );
            lemma_tdiv_bound(
                (unit.y as int) * (self.activity as int),
                SCALE as int,
                self.activity as int,
            );
        }
        let velocity: Vector = unit.scale(self.activity);
        Human::new(pos, velocity, health, AGENT_RADIUS, self.vulnerability, self.letality)
    }
}

/// The simulation engine: the arena, the agent collection, the tick
/// counter, the optional quarantine zone, and the pseudo-random source.
pub struct Universe {
    width: i64,
    height: i64,
    humans: Vec<Human>,
    ticks: u64,
    zone: Option<Zone>,
    rng: Rng,
}

impl Universe {
    pub closed spec fn spec_width(&self) -> i64 {
        self.width
    }

    pub closed spec fn spec_height(&self) -> i64 {
        self.height
    }

    pub closed spec fn spec_humans(&self) -> Seq<Human> {
        self.humans@
    }

    pub closed spec fn spec_ticks(&self) -> u64 {
        self.ticks
    }

    pub closed spec fn spec_zone(&self) -> Option<Zone> {
        self.zone
    }

    pub closed spec fn spec_rng_state(&self) -> u64 {
        self.rng.state
    }

    /// The engine's invariant: a sane arena, every agent well formed, and
    /// any installed zone compatible with arena and population.
    pub open spec fn wf(&self) -> bool {
        &&& MIN_DIM <= self.spec_width() <= DIM_MAX
        &&& MIN_DIM <= self.spec_height() <= DIM_MAX
        &&& forall|i: int| 0 <= i < self.spec_humans().len() ==> human_ok(
            #[trigger] self.spec_humans()[i],
            self.spec_width(),
            self.spec_height(),
            self.spec_ticks(),
        )
        &&& match self.spec_zone() {
            Option::Some(z) => zone_ok(z, self.spec_width(), self.spec_humans()),
            Option::None => true,
        }
    }

    pub fn width(&self) -> (r: i64)
        ensures
            r == self.spec_width(),
    {
        self.width
    }

    pub fn height(&self) -> (r: i64)
        ensures
            r == self.spec_height(),
    {
        self.height
    }

    pub fn ticks(&self) -> (r: u64)
        ensures
            r == self.spec_ticks(),
    {
        self.ticks
    }

    pub fn zone(&self) -> (r: Option<Zone>)
        ensures
            r == self.spec_zone(),
    {
        self.zone
    }

    /// How many agents the universe holds.
    pub fn human_count(&self) -> (r: usize)
        ensures
            r == self.spec_humans().len(),
    {
        self.humans.len()
    }

    /// Snapshot of one agent, for rendering and inspection.
    pub fn human_at(&self, i: usize) -> (h: Human)
        requires
            i < self.spec_humans().len(),
        ensures
            h == self.spec_humans()[i as int],
    {
        self.humans[i]
    }

    fn count_state(&self, target: Health) -> (r: usize)
        ensures
            r == count_health(self.spec_humans(), target),
    {
        let n: usize = self.humans.len();
        let mut cnt: usize = 0;
        let mut k: usize = 0;
        while k < n
            invariant
                k <= n,
                n == self.spec_humans().len(),
                cnt <= k,
                cnt == count_health(self.spec_humans().take(k as int), target),
            decreases n - k,
        {
            proof {
                assert(self.spec_humans().take(k + 1).drop_last() =~= self.spec_humans().take(
                    k as int,
                ));
                assert(self.spec_humans().take(k + 1).last() == self.spec_humans()[k as int]);
            }
            if self.humans[k].health == target {
                cnt = cnt + 1;
            }
            k = k + 1;
        }
        proof {
            assert(self.spec_humans().take(n as int) =~= self.spec_humans());
        }
        cnt
    }

    /// How many agents are currently `Susceptible`.
    pub fn susceptible(&self) -> (r: usize)
        ensures
            r == count_health(self.spec_humans(), Health::Susceptible),
    {
        self.count_state(Health::Susceptible)
    }

    /// How many agents are currently `Infected`.
    pub fn infected(&self) -> (r: usize)
        ensures
            r == count_health(self.spec_humans(), Health::Infected),
    {
        self.count_state(Health::Infected)
    }

    /// How many agents have recovered.
    pub fn removed(&self) -> (r: usize)
        ensures
            r == count_health(self.spec_humans(), Health::Removed),
    {
        self.count_state(Health::Removed)
    }

    /// How many agents have died.
    pub fn died(&self) -> (r: usize)
        ensures
            r == count_health(self.spec_humans(), Health::Died),
    {
        self.count_state(Health::Died)
    }

    /// Append one agent, if it is admissible: well formed against the arena
    /// and the tick counter, and compatible with any installed zone.
    pub fn add_human(&mut self, human: Human) -> (ok: bool)
        requires
            old(self).wf(),
        ensures
            ok == (human_ok(human, old(self).spec_width(), old(self).spec_height(), old(self).spec_ticks())
                && match old(self).spec_zone() {
                Option::Some(z) => zone_compat(human, z, old(self).spec_width()),
                Option::None => true,
            }),
            final(self).spec_humans() == if ok {
                old(self).spec_humans().push(human)
            } else {
                old(self).spec_humans()
            },
            final(self).spec_width() == old(self).spec_width(),
            final(self).spec_height() == old(self).spec_height(),
            final(self).spec_ticks() == old(self).spec_ticks(),
            final(self).spec_zone() == old(self).spec_zone(),
            final(self).spec_rng_state() == old(self).spec_rng_state(),
            final(self).wf(),
    {
        let h = &human;
        let mut ok: bool = 0 < h.thickness && 2 * (h.thickness as i128) <= self.width as i128 && 2
            * (h.thickness as i128) <= self.height as i128;
        ok = ok && (h.pos.x as i128) - (h.thickness as i128) >= 0 && (h.pos.x as i128) + (
        h.thickness as i128) <= self.width as i128;
        ok = ok && (h.pos.y as i128) - (h.thickness as i128) >= 0 && (h.pos.y as i128) + (
        h.thickness as i128) <= self.height as i128;
        ok = ok && -VEL_CAP <= h.velocity.x && h.velocity.x <= VEL_CAP && -VEL_CAP <= h.velocity.y
            && h.velocity.y <= VEL_CAP;
        ok = ok && (!(h.health == Health::Died) || (h.velocity.x == 0 && h.velocity.y == 0));
        ok = ok && h.infected_at <= self.ticks && h.vulnerability <= PROB_DEN && h.letality
            <= PROB_DEN;
        match self.zone {
            Option::Some(z) => {
                ok = ok && 2 * (h.thickness as i128) <= z.x1 as i128 && 2 * (h.thickness as i128)
                    <= (self.width as i128) - (z.x2 as i128);
            },
            Option::None => {},
        }
        if ok {
            self.humans.push(human);
        }
        ok
    }

    /// Install a quarantine zone, if it is well formed against the arena and
    /// every current agent fits in both sub-regions it carves out.
    pub fn set_zone(&mut self, zone: Zone) -> (ok: bool)
        requires
            old(self).wf(),
        ensures
            ok == zone_ok(zone, old(self).spec_width(), old(self).spec_humans()),
            final(self).spec_zone() == if ok {
                Option::Some(zone)
            } else {
                old(self).spec_zone()
            },
            final(self).spec_humans() == old(self).spec_humans(),
            final(self).spec_width() == old(self).spec_width(),
            final(self).spec_height() == old(self).spec_height(),
            final(self).spec_ticks() == old(self).spec_ticks(),
            final(self).spec_rng_state() == old(self).spec_rng_state(),
            final(self).wf(),
    {
        let shape_ok: bool = 0 < zone.x1 && zone.x1 < zone.x2 && zone.x2 < self.width;
        let n: usize = self.humans.len();
        let mut fits: bool = true;
        let mut k: usize = 0;
        while k < n
            invariant
                k <= n,
                n == self.spec_humans().len(),
                self.wf(),
                fits == forall|q: int| 0 <= q < k ==> zone_compat(
                    #[trigger] self.spec_humans()[q],
                    zone,
                    self.spec_width(),
                ),
            decreases n - k,
        {
            let h = self.humans[k];
            let this_fits: bool = 2 * (h.thickness as i128) <= zone.x1 as i128 && 2 * (
            h.thickness as i128) <= (self.width as i128) - (zone.x2 as i128);
            fits = fits && this_fits;
            k = k + 1;
        }
        let ok: bool = shape_ok && fits;
        if ok {
            self.zone = Some(zone);
        }
        ok
    }

    /// Advance the simulation by one tick: integrate every agent's motion
    /// against the start-of-tick state, then resolve every colliding pair in
    /// ascending index order (bounce, then infection), contain each agent in
    /// its assigned region, age the disease state, and commit the new
    /// population.
    pub fn tick(&mut self)
        requires
            old(self).wf(),
            old(self).spec_ticks() < u64::MAX,
        ensures
            final(self).wf(),
            final(self).spec_width() == old(self).spec_width(),
            final(self).spec_height() == old(self).spec_height(),
            final(self).spec_zone() == old(self).spec_zone(),
            final(self).spec_ticks() == old(self).spec_ticks() + 1,
            final(self).spec_humans().len() == old(self).spec_humans().len(),
            forall|i: int| 0 <= i < old(self).spec_humans().len() ==> tick_post(
                old(self).spec_humans()[i],
                #[trigger] final(self).spec_humans()[i],
                old(self).spec_zone(),
                old(self).spec_width(),
                old(self).spec_height(),
                (old(self).spec_ticks() + 1) as u64,
            ),
            ({
                let stepped = tick_spec(
                    old(self).spec_humans(),
                    old(self).spec_zone(),
                    old(self).spec_width(),
                    old(self).spec_height(),
                    (old(self).spec_ticks() + 1) as u64,
                    old(self).spec_rng_state(),
                );
                final(self).spec_humans() == stepped.0 && final(self).spec_rng_state()
                    == stepped.1
            }),
    {
        let now: u64 = self.ticks + 1;
        let n: usize = self.humans.len();
        let mut work: Vec<Human> = Vec::new();
        let mut k: usize = 0;
        while k < n
            invariant
                k <= n,
                *self == *old(self),
                n == self.spec_humans().len(),
                work@ == self.spec_humans().take(k as int),
            decreases n - k,
        {
            work.push(self.humans[k]);
            proof {
                assert(self.spec_humans().take(k + 1) =~= self.spec_humans().take(k as int).push(
                    self.spec_humans()[k as int],
                ));
            }
            k = k + 1;
        }
        proof {
            assert(self.spec_humans().take(n as int) =~= self.spec_humans());
        }
        let mut m: usize = 0;
        while m < n
            invariant
                m <= n,
                *self == *old(self),
                n == self.spec_humans().len(),
                work@.len() == n,
                old(self).wf(),
                forall|q: int| 0 <= q < m ==> #[trigger] work@[q] == integrate_spec(
                    old(self).spec_humans()[q],
                ),
                forall|q: int| m <= q < n ==> #[trigger] work@[q] == old(self).spec_humans()[q],
            decreases n - m,
        {
            proof {
                assert(human_ok(
                    old(self).spec_humans()[m as int],
                    old(self).spec_width(),
                    old(self).spec_height(),
                    old(self).spec_ticks(),
                ));
            }
            let mut a: Human = work[m];
            a.pos = a.pos.add(a.velocity);
            work.set(m, a);
            m = m + 1;
        }
        proof {
            assert(work@ =~= integrate_all(old(self).spec_humans()));
            assert forall|q: int| 0 <= q < n implies mid_ok(
                old(self).spec_humans()[q],
                #[trigger] work@[q],
                now,
            ) by {
                assert(human_ok(
                    old(self).spec_humans()[q],
                    old(self).spec_width(),
                    old(self).spec_height(),
                    old(self).spec_ticks(),
                ));
            }
        }
        let mut i: usize = 0;
        while i < n
            invariant
                i <= n,
                n == old(self).spec_humans().len(),
                work@.len() == n,
                now == old(self).spec_ticks() + 1,
                old(self).wf(),
                self.spec_width() == old(self).spec_width(),
                self.spec_height() == old(self).spec_height(),
                self.spec_zone() == old(self).spec_zone(),
                self.spec_ticks() == old(self).spec_ticks(),
                self.spec_humans() == old(self).spec_humans(),
                forall|q: int| 0 <= q < i ==> tick_post(
                    old(self).spec_humans()[q],
                    #[trigger] work@[q],
                    old(self).spec_zone(),
                    old(self).spec_width(),
                    old(self).spec_height(),
                    now,
                ),
                forall|q: int| i <= q < n ==> mid_ok(
                    old(self).spec_humans()[q],
                    #[trigger] work@[q],
                    now,
                ),
                tick_phase(
                    old(self).spec_humans(),
                    work@,
                    i as int,
                    old(self).spec_zone(),
                    old(self).spec_width(),
                    old(self).spec_height(),
                    now,
                    self.spec_rng_state(),
                ) == tick_spec(
                    old(self).spec_humans(),
                    old(self).spec_zone(),
                    old(self).spec_width(),
                    old(self).spec_height(),
                    now,
                    old(self).spec_rng_state(),
                ),
            decreases n - i,
        {
            let ghost pre = old(self).spec_humans();
            let ghost work_entry = work@;
            let ghost rs_entry = self.spec_rng_state();
            proof {
                assert(mid_ok(pre[i as int], work@[i as int], now));
                assert(human_ok(
                    pre[i as int],
                    old(self).spec_width(),
                    old(self).spec_height(),
                    old(self).spec_ticks(),
                ));
            }
            let mut j: usize = i + 1;
            while j < n
                invariant
                    i < n,
                    i + 1 <= j <= n,
                    n == old(self).spec_humans().len(),
                    work@.len() == n,
                    now == old(self).spec_ticks() + 1,
                    old(self).wf(),
                    self.spec_width() == old(self).spec_width(),
                    self.spec_height() == old(self).spec_height(),
                    self.spec_zone() == old(self).spec_zone(),
                    self.spec_ticks() == old(self).spec_ticks(),
                    self.spec_humans() == old(self).spec_humans(),
                    forall|q: int| 0 <= q < i ==> tick_post(
                        old(self).spec_humans()[q],
                        #[trigger] work@[q],
                        old(self).spec_zone(),
                        old(self).spec_width(),
                        old(self).spec_height(),
                        now,
                    ),
                    forall|q: int| i <= q < n ==> mid_ok(
                        old(self).spec_humans()[q],
                        #[trigger] work@[q],
                        now,
                    ),
                    pairs_from(work_entry, i as int, i as int + 1, now, rs_entry) == pairs_from(
                        work@,
                        i as int,
                        j as int,
                        now,
                        self.spec_rng_state(),
                    ),
                decreases n - j,
            {
                let ghost pre = old(self).spec_humans();
                let ghost work_at_j = work@;
                let ghost rs_at_j = self.spec_rng_state();
                proof {
                    assert(mid_ok(pre[i as int], work@[i as int], now));
                    assert(mid_ok(pre[j as int], work@[j as int], now));
                    assert(human_ok(
                        pre[i as int],
                        old(self).spec_width(),
                        old(self).spec_height(),
                        old(self).spec_ticks(),
                    ));
                    assert(human_ok(
                        pre[j as int],
                        old(self).spec_width(),
                        old(self).spec_height(),
                        old(self).spec_ticks(),
                    ));
                }
                let hi: Human = work[i];
                let hj: Human = work[j];
                if hi.collide(&hj) {
                    let mut a2: Human = hi;
                    let mut b2: Human = hj;
                    if !(a2.pos.x == b2.pos.x && a2.pos.y == b2.pos.y) {
                        a2.bounce(&mut b2);
                    }
                    a2.infect(&mut b2, now, &mut self.rng);
                    work.set(i, a2);
                    work.set(j, b2);
                }
                proof {
                    assert(pair_step(work_at_j, i as int, j as int, now, rs_at_j) == (
                        work@,
                        self.spec_rng_state(),
                    ));
                    assert(pairs_from(work_at_j, i as int, j as int, now, rs_at_j)
                        == pairs_from(
                        work@,
                        i as int,
                        j as int + 1,
                        now,
                        self.spec_rng_state(),
                    ));
                }
                j = j + 1;
            }
            let ghost paired_seq = work@;
            proof {
                assert(pairs_from(work@, i as int, n as int, now, self.spec_rng_state()) == (
                    work@,
                    self.spec_rng_state(),
                ));
            }
            let mut c: Human = work[i];
            proof {
                assert(mid_ok(pre[i as int], work@[i as int], now));
                assert(human_ok(
                    pre[i as int],
                    old(self).spec_width(),
                    old(self).spec_height(),
                    old(self).spec_ticks(),
                ));
            }
            match self.zone {
                Option::Some(z) => {
                    let quarantined: bool = z.inside(&self.humans[i]);
                    if quarantined {
                        c.contain(0, z.x1, 0, self.height);
                    } else {
                        c.contain(z.x2, self.width, 0, self.height);
                    }
                },
                Option::None => {
                    c.contain(0, self.width, 0, self.height);
                },
            }
            proof {
                assert(c == contain_spec(
                    paired_seq[i as int],
                    assigned_min_x(old(self).spec_zone(), pre[i as int]),
                    assigned_max_x(
                        old(self).spec_zone(),
                        pre[i as int],
                        old(self).spec_width(),
                    ),
                    0,
                    old(self).spec_height() as int,
                ));
            }
            c.recover_or_die(now, &mut self.rng);
            work.set(i, c);
            proof {
                assert(tick_post(
                    pre[i as int],
                    work@[i as int],
                    old(self).spec_zone(),
                    old(self).spec_width(),
                    old(self).spec_height(),
                    now,
                ));
                assert((work@, self.spec_rng_state()) == agent_phase(
                    pre[i as int],
                    work_entry,
                    i as int,
                    old(self).spec_zone(),
                    old(self).spec_width(),
                    old(self).spec_height(),
                    now,
                    rs_entry,
                ));
                assert(tick_phase(
                    pre,
                    work_entry,
                    i as int,
                    old(self).spec_zone(),
                    old(self).spec_width(),
                    old(self).spec_height(),
                    now,
                    rs_entry,
                ) == tick_phase(
                    pre,
                    work@,
                    i as int + 1,
                    old(self).spec_zone(),
                    old(self).spec_width(),
                    old(self).spec_height(),
                    now,
                    self.spec_rng_state(),
                ));
            }
            i = i + 1;
        }
        proof {
            assert(tick_phase(
                old(self).spec_humans(),
                work@,
                n as int,
                old(self).spec_zone(),
                old(self).spec_width(),
                old(self).spec_height(),
                now,
                self.spec_rng_state(),
            ) == (work@, self.spec_rng_state()));
        }
        self.humans = work;
        self.ticks = now;
        proof {
            assert forall|q: int| 0 <= q < n implies human_ok(
                #[trigger] self.spec_humans()[q],
                self.spec_width(),
                self.spec_height(),
                self.spec_ticks(),
            ) by {
                assert(tick_post(
                    old(self).spec_humans()[q],
                    self.spec_humans()[q],
                    old(self).spec_zone(),
                    old(self).spec_width(),
                    old(self).spec_height(),
                    now,
                ));
                assert(human_ok(
                    old(self).spec_humans()[q],
                    old(self).spec_width(),
                    old(self).spec_height(),
                    old(self).spec_ticks(),
                ));
            }
            match self.spec_zone() {
                Option::Some(z) => {
                    assert forall|q: int| 0 <= q < n implies zone_compat(
                        #[trigger] self.spec_humans()[q],
                        z,
                        self.spec_width(),
                    ) by {
                        assert(tick_post(
                            old(self).spec_humans()[q],
                            self.spec_humans()[q],
                            old(self).spec_zone(),
                            old(self).spec_width(),
                            old(self).spec_height(),
                            now,
                        ));
                        assert(zone_compat(
                            old(self).spec_humans()[q],
                            z,
                            old(self).spec_width(),
                        ));
                    }
                },
                Option::None => {},
            }
        }
    }
}

impl Universe {
    /// Build a universe with no agents yet; populations arrive through
    /// `spawn_age_group` or `add_human`.
    pub fn empty(width: i64, height: i64, seed: u64) -> (u: Universe)
        requires
            MIN_DIM <= width <= DIM_MAX,
            MIN_DIM <= height <= DIM_MAX,
        ensures
            u.wf(),
            u.spec_width() == width,
            u.spec_height() == height,
            u.spec_ticks() == 0,
            u.spec_zone() is None,
            u.spec_humans().len() == 0,
            u.spec_rng_state() == seed,
    {
        Universe { width, height, humans: Vec::new(), ticks: 0, zone: None, rng: Rng::new(seed) }
    }

    /// Build a universe with `humans` agents of a default cohort (full
    /// vulnerability, letality `DEFAULT_LETALITY`, one unit of speed) at
    /// random positions, the first of them `Infected`.
    pub fn new(width: i64, height: i64, humans: u32, seed: u64) -> (u: Universe)
        requires
            MIN_DIM <= width <= DIM_MAX,
            MIN_DIM <= height <= DIM_MAX,
            humans >= 1,
            humans as int <= grid_capacity(width, height),
        ensures
            u.wf(),
            u.spec_width() == width,
            u.spec_height() == height,
            u.spec_ticks() == 0,
            u.spec_zone() is None,
            u.spec_humans().len() == humans,
            u.spec_humans()[0].health == Health::Infected,
            forall|i: int| 1 <= i < humans ==> (#[trigger] u.spec_humans()[i]).health
                == Health::Susceptible,
            forall|i: int| 0 <= i < humans ==> cohort_stamp(
                #[trigger] u.spec_humans()[i],
                AGENT_RADIUS,
                PROB_DEN,
                DEFAULT_LETALITY,
            ),
            forall|i: int| 0 <= i < humans ==> 15 * SCALE <= (#[trigger] u.spec_humans()[i]).pos.x
                <= width - 15 * SCALE && 15 * SCALE <= u.spec_humans()[i].pos.y <= height - 15
                * SCALE,
            forall|i: int| 0 <= i < humans ==> -SCALE <= (#[trigger] u.spec_humans()[i]).velocity.x
                <= SCALE && -SCALE <= u.spec_humans()[i].velocity.y <= SCALE,
            forall|i: int, j: int| 0 <= i < j < humans ==> !collide_spec(
                #[trigger] u.spec_humans()[i],
                #[trigger] u.spec_humans()[j],
            ),
            ({
                let built = spawn_cohort_spec(
                    AgeGroup {
                        size: humans as usize,
                        activity: SCALE,
                        vulnerability: PROB_DEN,
                        letality: DEFAULT_LETALITY,
                    },
                    seed,
                    width,
                    height,
                );
                u.spec_humans() == built.0 && u.spec_rng_state() == built.1
            }),
    {
        let age_group = AgeGroup {
            size: humans as usize,
            activity: SCALE,
            vulnerability: PROB_DEN,
            letality: DEFAULT_LETALITY,
        };
        let mut universe = Universe {
            width,
            height,
            humans: Vec::new(),
            ticks: 0,
            zone: None,
            rng: Rng::new(seed),
        };
        universe.spawn_age_group(&age_group);
        universe
    }

    /// Append a freshly generated cohort, without touching the tick counter
    /// or the existing agents.  The first agent of the cohort is spawned
    /// `Infected`, the rest `Susceptible`; positions are drawn at random
    /// with a 15-unit margin and redrawn while they collide with an agent
    /// of the cohort, up to `MAX_PLACE_TRIES` times each, after which the
    /// agent takes a free fallback grid position instead - so the cohort is
    /// always pairwise non-overlapping.
    pub fn spawn_age_group(&mut self, age_group: &AgeGroup)
        requires
            old(self).wf(),
            0 <= age_group.activity <= VEL_CAP,
            age_group.vulnerability <= PROB_DEN,
            age_group.letality <= PROB_DEN,
            age_group.size as int <= grid_capacity(
                old(self).spec_width(),
                old(self).spec_height(),
            ),
            match old(self).spec_zone() {
                Option::Some(z) => 2 * AGENT_RADIUS <= z.x1 && 2 * AGENT_RADIUS <= old(
                    self,
                ).spec_width() - z.x2,
                Option::None => true,
            },
        ensures
            final(self).wf(),
            final(self).spec_width() == old(self).spec_width(),
            final(self).spec_height() == old(self).spec_height(),
            final(self).spec_ticks() == old(self).spec_ticks(),
            final(self).spec_zone() == old(self).spec_zone(),
            final(self).spec_humans().len() == old(self).spec_humans().len()
                + age_group.size,
            forall|i: int| 0 <= i < old(self).spec_humans().len()
                ==> final(self).spec_humans()[i] == old(self).spec_humans()[i],
            forall|i: int| old(self).spec_humans().len() <= i
                < final(self).spec_humans().len() ==> cohort_member_ok(
                #[trigger] final(self).spec_humans()[i],
                age_group,
                old(self).spec_width(),
                old(self).spec_height(),
            ),
            forall|i: int| old(self).spec_humans().len() <= i
                < final(self).spec_humans().len() ==> (#[trigger] final(self).spec_humans()[i]).health == (
            if i == old(self).spec_humans().len() {
                Health::Infected
            } else {
                Health::Susceptible
            }),
            forall|i: int, j: int|
                old(self).spec_humans().len() <= i < j < final(self).spec_humans().len()
                    ==> !collide_spec(
                    #[trigger] final(self).spec_humans()[i],
                    #[trigger] final(self).spec_humans()[j],
                ),
            ({
                let built = spawn_cohort_spec(
                    *age_group,
                    old(self).spec_rng_state(),
                    old(self).spec_width(),
                    old(self).spec_height(),
                );
                final(self).spec_humans() == old(self).spec_humans() + built.0
                    && final(self).spec_rng_state() == built.1
            }),
    {
        let size: usize = age_group.size;
        let mut cohort: Vec<Human> = Vec::new();
        let mut placed: usize = 0;
        while placed < size
            invariant
                placed <= size,
                cohort@.len() == placed,
                old(self).wf(),
                0 <= age_group.activity <= VEL_CAP,
                age_group.vulnerability <= PROB_DEN,
                age_group.letality <= PROB_DEN,
                self.spec_width() == old(self).spec_width(),
                self.spec_height() == old(self).spec_height(),
                self.spec_ticks() == old(self).spec_ticks(),
                self.spec_zone() == old(self).spec_zone(),
                self.spec_humans() == old(self).spec_humans(),
                forall|q: int| 0 <= q < placed ==> cohort_member_ok(
                    #[trigger] cohort@[q],
                    age_group,
                    self.spec_width(),
                    self.spec_height(),
                ),
                forall|q: int| 0 <= q < placed ==> (#[trigger] cohort@[q]).health == (if q == 0 {
                    Health::Infected
                } else {
                    Health::Susceptible
                }),
                size == age_group.size,
                size as int <= grid_capacity(old(self).spec_width(), old(self).spec_height()),
                forall|q1: int, q2: int| 0 <= q1 < q2 < placed ==> !collide_spec(
                    #[trigger] cohort@[q1],
                    #[trigger] cohort@[q2],
                ),
                cohort_phase(
                    cohort@,
                    placed as int,
                    size as int,
                    *age_group,
                    self.spec_rng_state(),
                    old(self).spec_width(),
                    old(self).spec_height(),
                ) == spawn_cohort_spec(
                    *age_group,
                    old(self).spec_rng_state(),
                    old(self).spec_width(),
                    old(self).spec_height(),
                ),
            decreases size - placed,
        {
            let ghost cohort_entry = cohort@;
            let ghost rs_entry = self.spec_rng_state();
            let health = if placed == 0 {
                Health::Infected
            } else {
                Health::Susceptible
            };
            let pos = self.random_position();
            let ghost drawn = position_draw_spec(
                rs_entry,
                old(self).spec_width(),
                old(self).spec_height(),
            );
            let mut human = age_group.spawn(pos, health, &mut self.rng);
            proof {
                assert(human == spawn_human_spec(*age_group, pos, health, drawn.1));
            }
            let ghost spawned = human;
            let ghost rs_spawned = self.spec_rng_state();
            let mut tries: usize = 0;
            let mut colliding: bool = any_collision(&cohort, &human);
            while colliding && tries < MAX_PLACE_TRIES
                invariant
                    tries <= MAX_PLACE_TRIES,
                    cohort@.len() == placed,
                    old(self).wf(),
                    self.spec_width() == old(self).spec_width(),
                    self.spec_height() == old(self).spec_height(),
                    self.spec_ticks() == old(self).spec_ticks(),
                    self.spec_zone() == old(self).spec_zone(),
                    self.spec_humans() == old(self).spec_humans(),
                    forall|q: int| 0 <= q < placed ==> cohort_member_ok(
                        #[trigger] cohort@[q],
                        age_group,
                        self.spec_width(),
                        self.spec_height(),
                    ),
                    human.health == health,
                    human.thickness == AGENT_RADIUS,
                    human.infected_at == 0,
                    human.vulnerability == age_group.vulnerability,
                    human.letality == age_group.letality,
                    -age_group.activity <= human.velocity.x <= age_group.activity,
                    -age_group.activity <= human.velocity.y <= age_group.activity,
                    0 <= age_group.activity <= VEL_CAP,
                    15 * SCALE <= human.pos.x <= self.spec_width() - 15 * SCALE,
                    15 * SCALE <= human.pos.y <= self.spec_height() - 15 * SCALE,
                    cohort@ == cohort_entry,
                    colliding == collides_any(cohort@, human),
                    place_retry_spec(
                        cohort@,
                        human,
                        tries as int,
                        self.spec_rng_state(),
                        old(self).spec_width(),
                        old(self).spec_height(),
                    ) == place_retry_spec(
                        cohort@,
                        spawned,
                        0,
                        rs_spawned,
                        old(self).spec_width(),
                        old(self).spec_height(),
                    ),
                decreases MAX_PLACE_TRIES - tries,
            {
                let ghost human_at = human;
                let ghost rs_at = self.spec_rng_state();
                let pos = self.random_position();
                human.pos = pos;
                colliding = any_collision(&cohort, &human);
                tries = tries + 1;
                proof {
                    assert(human == (Human {
                        pos: position_draw_spec(
                            rs_at,
                            old(self).spec_width(),
                            old(self).spec_height(),
                        ).0,
                        ..human_at
                    }));
                    assert(place_retry_spec(
                        cohort@,
                        human_at,
                        tries - 1,
                        rs_at,
                        old(self).spec_width(),
                        old(self).spec_height(),
                    ) == place_retry_spec(
                        cohort@,
                        human,
                        tries as int,
                        self.spec_rng_state(),
                        old(self).spec_width(),
                        old(self).spec_height(),
                    ));
                }
            }
            proof {
                assert(place_retry_spec(
                    cohort@,
                    human,
                    tries as int,
                    self.spec_rng_state(),
                    old(self).spec_width(),
                    old(self).spec_height(),
                ) == (human, self.spec_rng_state()));
                assert forall|q: int| 0 <= q < cohort@.len() implies geom_bounded(
                    #[trigger] cohort@[q],
                ) && cohort@[q].thickness == AGENT_RADIUS by {
                    assert(cohort_member_ok(
                        cohort@[q],
                        age_group,
                        self.spec_width(),
                        self.spec_height(),
                    ));
                }
            }
            let ghost placed_h = human;
            if colliding {
                let pos = find_free_cell(&cohort, &human, self.width, self.height);
                human.pos = pos;
            }
            proof {
                assert(human == (if collides_any(cohort_entry, placed_h) {
                    Human {
                        pos: free_cell_spec(cohort_entry, placed_h, old(self).spec_width()),
                        ..placed_h
                    }
                } else {
                    placed_h
                }));
                assert(!collides_any(cohort_entry, human));
                assert forall|q: int| 0 <= q < cohort_entry.len() implies !collide_spec(
                    #[trigger] cohort_entry[q],
                    human,
                ) by {
                    crate::human::lemma_collide_symmetric(human, cohort_entry[q]);
                }
            }
            cohort.push(human);
            placed = placed + 1;
            proof {
                assert(cohort_step(
                    cohort_entry,
                    placed - 1,
                    *age_group,
                    rs_entry,
                    old(self).spec_width(),
                    old(self).spec_height(),
                ) == (cohort@, self.spec_rng_state()));
                assert(cohort_phase(
                    cohort_entry,
                    placed - 1,
                    size as int,
                    *age_group,
                    rs_entry,
                    old(self).spec_width(),
                    old(self).spec_height(),
                ) == cohort_phase(
                    cohort@,
                    placed as int,
                    size as int,
                    *age_group,
                    self.spec_rng_state(),
                    old(self).spec_width(),
                    old(self).spec_height(),
                ));
            }
        }
        proof {
            assert(cohort_phase(
                cohort@,
                size as int,
                size as int,
                *age_group,
                self.spec_rng_state(),
                old(self).spec_width(),
                old(self).spec_height(),
            ) == (cohort@, self.spec_rng_state()));
        }
        let ghost built_seq = cohort@;
        let ghost built_rs = self.spec_rng_state();
        let mut k: usize = 0;
        while k < size
            invariant
                k <= size,
                cohort@.len() == size,
                old(self).wf(),
                self.spec_width() == old(self).spec_width(),
                self.spec_height() == old(self).spec_height(),
                self.spec_ticks() == old(self).spec_ticks(),
                self.spec_zone() == old(self).spec_zone(),
                self.spec_humans() == old(self).spec_humans().add(cohort@.take(k as int)),
                cohort@ == built_seq,
                self.spec_rng_state() == built_rs,
                (built_seq, built_rs) == spawn_cohort_spec(
                    *age_group,
                    old(self).spec_rng_state(),
                    old(self).spec_width(),
                    old(self).spec_height(),
                ),
                match old(self).spec_zone() {
                    Option::Some(z) => 2 * AGENT_RADIUS <= z.x1 && 2 * AGENT_RADIUS <= old(
                        self,
                    ).spec_width() - z.x2,
                    Option::None => true,
                },
                forall|q: int| 0 <= q < size ==> cohort_member_ok(
                    #[trigger] cohort@[q],
                    age_group,
                    self.spec_width(),
                    self.spec_height(),
                ),
                forall|q: int| 0 <= q < size ==> (#[trigger] cohort@[q]).health == (if q == 0 {
                    Health::Infected
                } else {
                    Health::Susceptible
                }),
            decreases size - k,
        {
            self.humans.push(cohort[k]);
            proof {
                assert(cohort@.take(k + 1) =~= cohort@.take(k as int).push(cohort@[k as int]));
                assert(old(self).spec_humans().add(cohort@.take(k + 1)) =~= old(
                    self,
                ).spec_humans().add(cohort@.take(k as int)).push(cohort@[k as int]));
            }
            k = k + 1;
        }
        proof {
            assert(cohort@.take(size as int) =~= cohort@);
            assert forall|q: int| 0 <= q < self.spec_humans().len() implies human_ok(
                #[trigger] self.spec_humans()[q],
                self.spec_width(),
                self.spec_height(),
                self.spec_ticks(),
            ) by {
                if q < old(self).spec_humans().len() {
                    assert(human_ok(
                        old(self).spec_humans()[q],
                        old(self).spec_width(),
                        old(self).spec_height(),
                        old(self).spec_ticks(),
                    ));
                } else {
                    assert(cohort_member_ok(
                        cohort@[q - old(self).spec_humans().len()],
                        age_group,
                        self.spec_width(),
                        self.spec_height(),
                    ));
                }
            }
            match self.spec_zone() {
                Option::Some(z) => {
                    assert forall|q: int| 0 <= q < self.spec_humans().len() implies zone_compat(
                        #[trigger] self.spec_humans()[q],
                        z,
                        self.spec_width(),
                    ) by {
                        if q < old(self).spec_humans().len() {
                            assert(zone_compat(
                                old(self).spec_humans()[q],
                                z,
                                old(self).spec_width(),
                            ));
                        } else {
                            assert(cohort_member_ok(
                                cohort@[q - old(self).spec_humans().len()],
                                age_group,
                                self.spec_width(),
                                self.spec_height(),
                            ));
                        }
                    }
                },
                Option::None => {},
            }
        }
    }

    /// A random position with a 15-unit margin to every arena edge.
    fn random_position(&mut self) -> (pos: Vector)
        requires
            MIN_DIM <= old(self).spec_width() <= DIM_MAX,
            MIN_DIM <= old(self).spec_height() <= DIM_MAX,
        ensures
            15 * SCALE <= pos.x <= old(self).spec_width() - 15 * SCALE,
            15 * SCALE <= pos.y <= old(self).spec_height() - 15 * SCALE,
            final(self).spec_width() == old(self).spec_width(),
            final(self).spec_height() == old(self).spec_height(),
            final(self).spec_ticks() == old(self).spec_ticks(),
            final(self).spec_zone() == old(self).spec_zone(),
            final(self).spec_humans() == old(self).spec_humans(),
            pos == position_draw_spec(
                old(self).spec_rng_state(),
                old(self).spec_width(),
                old(self).spec_height(),
            ).0,
            final(self).spec_rng_state() == position_draw_spec(
                old(self).spec_rng_state(),
                old(self).spec_width(),
                old(self).spec_height(),
            ).1,
    {
        let span_x: u64 = (self.width - 30 * SCALE + 1) as u64;
        let span_y: u64 = (self.height - 30 * SCALE + 1) as u64;
        let x: i64 = 15 * SCALE + (self.rng.draw_below(span_x) as i64);
        let y: i64 = 15 * SCALE + (self.rng.draw_below(span_y) as i64);
        Vector { x, y }
    }
}

/// The parameters that a cohort stamps on each of its agents.
pub open spec fn cohort_stamp(h: Human, thickness: i64, vulnerability: u64, letality: u64) -> bool {
    &&& h.thickness == thickness
    &&& h.vulnerability == vulnerability
    &&& h.letality == letality
    &&& h.infected_at == 0
}

/// A freshly spawned cohort member: stamped with the cohort's parameters,
/// placed within the spawn margin, and moving at most at the cohort speed.
pub open spec fn cohort_member_ok(h: Human, age_group: &AgeGroup, width: i64, height: i64) -> bool {
    &&& cohort_stamp(h, AGENT_RADIUS, age_group.vulnerability, age_group.letality)
    &&& (h.health == Health::Infected || h.health == Health::Susceptible)
    &&& 15 * SCALE <= h.pos.x <= width - 15 * SCALE
    &&& 15 * SCALE <= h.pos.y <= height - 15 * SCALE
    &&& -age_group.activity <= h.velocity.x <= age_group.activity
    &&& -age_group.activity <= h.velocity.y <= age_group.activity
}

/// Whether `human` collides with any agent of `agents`.
fn any_collision(agents: &Vec<Human>, human: &Human) -> (r: bool)
    requires
        forall|q: int| 0 <= q < agents@.len() ==> geom_bounded(#[trigger] agents@[q]),
        geom_bounded(*human),
    ensures
        r == collides_any(agents@, *human),
{
    let n: usize = agents.len();
    let mut k: usize = 0;
    let mut found: bool = false;
    while k < n
        invariant
            k <= n,
            n == agents@.len(),
            forall|q: int| 0 <= q < agents@.len() ==> geom_bounded(#[trigger] agents@[q]),
            geom_bounded(*human),
            found == exists|q: int| 0 <= q < k && collide_spec(*human, #[trigger] agents@[q]),
        decreases n - k,
    {
        if human.collide(&agents[k]) {
            found = true;
        }
        k = k + 1;
    }
    found
}

/// Mid-tick status of an agent after the integration phase and before its
/// own containment: its position is the integrated one, its health at most
/// advanced from `Susceptible` to `Infected` by a pair, its parameters
/// untouched, and a dead agent still motionless.
spec fn mid_ok(pre: Human, cur: Human, now: u64) -> bool {
    &&& same_fixed(pre, cur)
    &&& cur.pos == integrate_spec(pre).pos
    &&& -VEL_CAP <= cur.velocity.x <= VEL_CAP
    &&& -VEL_CAP <= cur.velocity.y <= VEL_CAP
    &&& (cur.health == pre.health || (pre.health == Health::Susceptible && cur.health
        == Health::Infected))
    &&& (cur.health == pre.health ==> cur.infected_at == pre.infected_at)
    &&& (cur.health != pre.health ==> cur.infected_at == now)
    &&& (cur.health == Health::Died ==> cur.velocity.x == 0 && cur.velocity.y == 0)
}

} // verus!
