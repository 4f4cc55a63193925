use epidemic_sim::{Health, Human, Vector};

fn agent(x: i64, y: i64, vx: i64, vy: i64, health: Health, thickness: i64) -> Human {
    Human::new(
        Vector { x, y },
        Vector { x: vx, y: vy },
        health,
        thickness,
        0,
        0,
    )
}

#[test]
fn vector_componentwise_algebra() {
    let a = Vector { x: 3000, y: -2000 };
    let b = Vector { x: 1000, y: 5000 };
    let s = a.add(b);
    assert_eq!(s.x, 4000);
    assert_eq!(s.y, 3000);
    let d = a.sub(b);
    assert_eq!(d.x, 2000);
    assert_eq!(d.y, -7000);
    assert_eq!(a.dot(&b), 3000 * 1000 - 2000 * 5000);
}

#[test]
fn vector_scale_is_fixed_point() {
    let v = Vector { x: 600, y: -800 };
    // scale by 2.5 units: 2500 fixed-point
    let r = v.scale(2500);
    assert_eq!(r.x, 1500);
    assert_eq!(r.y, -2000);
    // truncation is toward zero on both signs
    let w = Vector { x: 1, y: -1 };
    let t = w.scale(500);
    assert_eq!(t.x, 0);
    assert_eq!(t.y, 0);
}

#[test]
fn normalize_three_four_five() {
    let u = Vector::normalize(3000, 4000);
    assert_eq!(u.x, 600);
    assert_eq!(u.y, 800);
    let v = Vector::normalize(-3000, 4000);
    assert_eq!(v.x, -600);
    assert_eq!(v.y, 800);
    let axis = Vector::normalize(0, -250);
    assert_eq!(axis.x, 0);
    assert_eq!(axis.y, -1000);
}

#[test]
fn isqrt_exact_values() {
    assert_eq!(epidemic_sim::num::isqrt(0), 0);
    assert_eq!(epidemic_sim::num::isqrt(15), 3);
    assert_eq!(epidemic_sim::num::isqrt(16), 4);
    assert_eq!(epidemic_sim::num::isqrt(25_000_000), 5000);
    assert_eq!(epidemic_sim::num::isqrt((1u128 << 80) - 1), (1u64 << 40) - 1);
}

#[test]
fn collide_is_symmetric() {
    let a = agent(0, 0, 0, 0, Health::Susceptible, 10_000);
    let b = agent(15_000, 0, 0, 0, Health::Susceptible, 10_000);
    assert!(a.collide(&b));
    assert!(b.collide(&a));
    let far = agent(50_000, 0, 0, 0, Health::Susceptible, 10_000);
    assert!(!a.collide(&far));
    assert!(!far.collide(&a));
}

#[test]
fn collide_touches_at_exact_radius_sum() {
    let a = agent(0, 0, 0, 0, Health::Susceptible, 7000);
    let b = agent(14_000, 0, 0, 0, Health::Susceptible, 7000);
    assert!(a.collide(&b));
    let c = agent(14_001, 0, 0, 0, Health::Susceptible, 7000);
    assert!(!a.collide(&c));
}

#[test]
fn dead_agents_never_collide() {
    let a = agent(0, 0, 0, 0, Health::Died, 10_000);
    let b = agent(1000, 0, 0, 0, Health::Susceptible, 10_000);
    assert!(!a.collide(&b));
    assert!(!b.collide(&a));
}

#[test]
fn head_on_bounce_swaps_velocities() {
    let mut a = agent(0, 0, 1000, 0, Health::Susceptible, 2500);
    let mut b = agent(4000, 0, -1000, 0, Health::Susceptible, 2500);
    a.bounce(&mut b);
    assert_eq!(a.velocity.x, -1000);
    assert_eq!(b.velocity.x, 1000);
    assert_eq!(a.velocity.y, 0);
    assert_eq!(b.velocity.y, 0);
}

#[test]
fn oblique_bounce_exchanges_normal_component() {
    // centers 5 units apart along (3, 4); only `a` moves.
    let mut a = agent(0, 0, 1000, 0, Health::Susceptible, 3000);
    let mut b = agent(3000, 4000, 0, 0, Health::Susceptible, 3000);
    a.bounce(&mut b);
    assert_eq!(a.velocity.x, 640);
    assert_eq!(a.velocity.y, -480);
    assert_eq!(b.velocity.x, 360);
    assert_eq!(b.velocity.y, 480);
    // momentum is conserved on both axes
    assert_eq!(a.velocity.x + b.velocity.x, 1000);
    assert_eq!(a.velocity.y + b.velocity.y, 0);
    // the normal components were swapped, so the kinetic energy along the
    // collision normal (3, 4) is unchanged
    let nx = -3000i64;
    let ny = -4000i64;
    let na = a.velocity.x * nx + a.velocity.y * ny;
    let nb = b.velocity.x * nx + b.velocity.y * ny;
    assert_eq!(na, 0);
    assert_eq!(nb, 1000 * nx);
    assert_eq!(na * na + nb * nb, (1000 * nx) * (1000 * nx));
}

#[test]
fn truncated_bounce_still_conserves_momentum() {
    // centers along (3, 2): the exchanged components truncate (484.6 and
    // 323.07 down to 484 and 323), yet both agents change by the same
    // opposite amounts, so momentum is conserved exactly.
    let mut a = agent(0, 0, 700, 0, Health::Susceptible, 2000);
    let mut b = agent(3000, 2000, 0, 0, Health::Susceptible, 2000);
    a.bounce(&mut b);
    assert_eq!(a.velocity.x, 216);
    assert_eq!(a.velocity.y, -323);
    assert_eq!(b.velocity.x, 484);
    assert_eq!(b.velocity.y, 323);
    assert_eq!(a.velocity.x + b.velocity.x, 700);
    assert_eq!(a.velocity.y + b.velocity.y, 0);
}

#[test]
fn bounce_edge_clamps_and_reflects() {
    let mut h = agent(3000, 50_000, -500, 200, Health::Susceptible, 7000);
    h.bounce_edge(100_000, 100_000);
    assert_eq!(h.pos.x, 7000);
    assert_eq!(h.velocity.x, 500);
    assert_eq!(h.pos.y, 50_000);
    assert_eq!(h.velocity.y, 200);
    assert!(h.pos.x - h.thickness >= 0);
    assert!(h.pos.x + h.thickness <= 100_000);
    assert!(h.pos.y - h.thickness >= 0);
    assert!(h.pos.y + h.thickness <= 100_000);
}

#[test]
fn bounce_edge_reflects_on_far_wall() {
    let mut h = agent(99_000, 95_000, 300, 400, Health::Susceptible, 7000);
    h.bounce_edge(100_000, 100_000);
    assert_eq!(h.pos.x, 93_000);
    assert_eq!(h.velocity.x, -300);
    assert_eq!(h.pos.y, 93_000);
    assert_eq!(h.velocity.y, -400);
}

#[test]
fn health_predicates_read_health() {
    let s = agent(0, 0, 0, 0, Health::Susceptible, 1000);
    let i = agent(0, 0, 0, 0, Health::Infected, 1000);
    let r = agent(0, 0, 0, 0, Health::Removed, 1000);
    let d = agent(0, 0, 0, 0, Health::Died, 1000);
    assert!(!s.is_infected() && s.is_infectable() && !s.is_dead());
    assert!(i.is_infected() && i.is_infectable() && !i.is_dead());
    assert!(!r.is_infected() && !r.is_infectable() && !r.is_dead());
    assert!(!d.is_infected() && !d.is_infectable() && d.is_dead());
}
