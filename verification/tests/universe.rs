use epidemic_sim::{AgeGroup, Health, Human, Universe, Vector, Zone, PROB_DEN, SCALE};

fn agent(x: i64, y: i64, vx: i64, vy: i64, health: Health, t: i64, vul: u64, let_: u64) -> Human {
    Human::new(Vector { x, y }, Vector { x: vx, y: vy }, health, t, vul, let_)
}

#[test]
fn new_population_has_one_infected() {
    let u = Universe::new(200_000, 150_000, 12, 77);
    assert_eq!(u.width(), 200_000);
    assert_eq!(u.height(), 150_000);
    assert_eq!(u.ticks(), 0);
    assert_eq!(u.human_count(), 12);
    assert_eq!(u.infected(), 1);
    assert_eq!(u.susceptible(), 11);
    assert_eq!(u.removed(), 0);
    assert_eq!(u.died(), 0);
    assert_eq!(u.human_at(0).health, Health::Infected);
    for k in 0..12 {
        let h = u.human_at(k);
        assert_eq!(h.thickness, 7 * SCALE);
        assert_eq!(h.vulnerability, PROB_DEN);
        assert_eq!(h.infected_at, 0);
        assert!(h.pos.x >= 15 * SCALE && h.pos.x <= 200_000 - 15 * SCALE);
        assert!(h.pos.y >= 15 * SCALE && h.pos.y <= 150_000 - 15 * SCALE);
    }
}

#[test]
fn spawn_age_group_appends_a_cohort() {
    let mut u = Universe::new(100_000, 100_000, 4, 2);
    let group = AgeGroup { size: 3, activity: 2 * SCALE, vulnerability: 500_000, letality: 10_000 };
    u.spawn_age_group(&group);
    assert_eq!(u.human_count(), 7);
    assert_eq!(u.ticks(), 0);
    // the first agent of each cohort is spawned infected
    assert_eq!(u.infected(), 2);
    assert_eq!(u.susceptible(), 5);
    for k in 4..7 {
        let h = u.human_at(k);
        assert_eq!(h.vulnerability, 500_000);
        assert_eq!(h.letality, 10_000);
        assert!(h.velocity.x.abs() <= 2 * SCALE);
        assert!(h.velocity.y.abs() <= 2 * SCALE);
    }
}

#[test]
fn spawned_population_never_overlaps() {
    // a population at the arena's full spawn capacity: every pair of agents
    // is placed apart, by redraws or by the fallback grid
    let u = Universe::new(100_000, 100_000, 9, 321);
    for i in 0..9 {
        for j in 0..9 {
            if i != j {
                assert!(!u.human_at(i).collide(&u.human_at(j)));
            }
        }
    }
    let v = Universe::new(200_000, 150_000, 12, 77);
    for i in 0..12 {
        for j in 0..12 {
            if i != j {
                assert!(!v.human_at(i).collide(&v.human_at(j)));
            }
        }
    }
}

#[test]
fn spawned_velocity_is_deterministic_in_the_seed() {
    let a = Universe::new(100_000, 100_000, 9, 1234);
    let b = Universe::new(100_000, 100_000, 9, 1234);
    for k in 0..9 {
        assert_eq!(a.human_at(k), b.human_at(k));
    }
}

#[test]
fn ticks_are_deterministic_in_the_seed() {
    let mut a = Universe::new(150_000, 150_000, 10, 99);
    let mut b = Universe::new(150_000, 150_000, 10, 99);
    for _ in 0..40 {
        a.tick();
        b.tick();
    }
    assert_eq!(a.ticks(), 40);
    for k in 0..10 {
        assert_eq!(a.human_at(k), b.human_at(k));
    }
}

#[test]
fn counts_partition_the_population_every_tick() {
    let mut u = Universe::new(200_000, 200_000, 15, 424);
    for _ in 0..150 {
        u.tick();
        assert_eq!(u.susceptible() + u.infected() + u.removed() + u.died(), 15);
    }
}

#[test]
fn health_paths_are_legal_across_ticks() {
    let mut u = Universe::new(200_000, 200_000, 12, 2024);
    let mut last: Vec<Health> = (0..12).map(|k| u.human_at(k).health).collect();
    for _ in 0..200 {
        u.tick();
        for k in 0..12 {
            let now = u.human_at(k).health;
            let was = last[k];
            let legal = now == was
                || (was == Health::Susceptible && now != Health::Susceptible)
                || (was == Health::Infected
                    && (now == Health::Removed || now == Health::Died));
            assert!(legal);
            last[k] = now;
        }
    }
}

#[test]
fn dead_agents_stay_put() {
    let mut u = Universe::new(200_000, 200_000, 12, 31337);
    let mut resting: Vec<Option<(i64, i64)>> = vec![None; 12];
    for _ in 0..400 {
        u.tick();
        for k in 0..12 {
            let h = u.human_at(k);
            if h.health == Health::Died {
                assert_eq!(h.velocity.x, 0);
                assert_eq!(h.velocity.y, 0);
                if let Some((x, y)) = resting[k] {
                    assert_eq!((h.pos.x, h.pos.y), (x, y));
                } else {
                    resting[k] = Some((h.pos.x, h.pos.y));
                }
            }
        }
    }
}

#[test]
fn agents_stay_inside_the_arena() {
    let mut u = Universe::new(150_000, 150_000, 14, 8);
    for _ in 0..200 {
        u.tick();
        for k in 0..14 {
            let h = u.human_at(k);
            assert!(h.pos.x - h.thickness >= 0);
            assert!(h.pos.x + h.thickness <= 150_000);
            assert!(h.pos.y - h.thickness >= 0);
            assert!(h.pos.y + h.thickness <= 150_000);
        }
    }
}

#[test]
fn integration_precedes_the_pairwise_pass() {
    // index 0 crawls toward where index 1 started, but index 1 flees faster:
    // fully integrated the two end 104 units apart, so the tick is pure
    // Euler integration and no bounce fires against a stale position
    let mut u = Universe::empty(400_000, 100_000, 77);
    let chaser = agent(50_000, 50_000, 10_000, 0, Health::Susceptible, 6_000, 0, 0);
    let runner = agent(64_000, 50_000, 100_000, 0, Health::Susceptible, 6_000, 0, 0);
    assert!(!chaser.collide(&runner));
    assert!(u.add_human(chaser));
    assert!(u.add_human(runner));
    u.tick();
    let a = u.human_at(0);
    let b = u.human_at(1);
    assert_eq!(a.pos.x, 60_000);
    assert_eq!(a.velocity.x, 10_000);
    assert_eq!(b.pos.x, 164_000);
    assert_eq!(b.velocity.x, 100_000);
    assert_eq!(a.pos.y, 50_000);
    assert_eq!(b.pos.y, 50_000);
    assert_eq!(a.health, Health::Susceptible);
    assert_eq!(b.health, Health::Susceptible);
}

#[test]
fn head_on_pair_swaps_velocity_signs_in_one_tick() {
    // arena 200x200 units; two agents of radius 10, 5 units apart, moving
    // toward each other at one unit per tick along x
    let mut u = Universe::empty(200_000, 200_000, 7);
    let a = agent(90_000, 100_000, 1000, 0, Health::Susceptible, 10_000, 0, 0);
    let b = agent(95_000, 100_000, -1000, 0, Health::Susceptible, 10_000, 0, 0);
    assert!(a.collide(&b));
    assert!(u.add_human(a));
    assert!(u.add_human(b));
    u.tick();
    let a1 = u.human_at(0);
    let b1 = u.human_at(1);
    assert_eq!(a1.velocity.x, -1000);
    assert_eq!(b1.velocity.x, 1000);
    assert_eq!(a1.velocity.y, 0);
    assert_eq!(b1.velocity.y, 0);
}

#[test]
fn certain_contact_infection_is_stamped_with_the_tick() {
    let mut u = Universe::empty(200_000, 200_000, 1);
    let carrier = agent(100_000, 100_000, 0, 0, Health::Infected, 7000, PROB_DEN, 0);
    let exposed = agent(110_000, 100_000, 0, 0, Health::Susceptible, 7000, PROB_DEN, 0);
    assert!(u.add_human(carrier));
    assert!(u.add_human(exposed));
    u.tick();
    let caught = u.human_at(1);
    assert_eq!(caught.health, Health::Infected);
    assert_eq!(caught.infected_at, 1);
}

#[test]
fn quarantined_agent_never_crosses_the_zone_boundary() {
    let mut u = Universe::empty(200_000, 200_000, 4242);
    let roamer = agent(50_000, 60_000, 6000, 3500, Health::Susceptible, 7000, 0, 0);
    assert!(u.add_human(roamer));
    assert!(u.set_zone(Zone { x1: 100_000, x2: 102_000 }));
    for _ in 0..500 {
        u.tick();
        let h = u.human_at(0);
        assert!(h.pos.x + h.thickness <= 100_000);
    }
}

#[test]
fn free_agent_stays_out_of_the_quarantine_region() {
    let mut u = Universe::empty(200_000, 200_000, 5555);
    let roamer = agent(150_000, 60_000, -6000, 2500, Health::Susceptible, 7000, 0, 0);
    assert!(u.add_human(roamer));
    assert!(u.set_zone(Zone { x1: 100_000, x2: 102_000 }));
    for _ in 0..500 {
        u.tick();
        let h = u.human_at(0);
        assert!(h.pos.x - h.thickness >= 102_000);
    }
}

#[test]
fn tick_on_an_empty_universe_only_counts() {
    let mut u = Universe::empty(50_000, 50_000, 0);
    u.tick();
    u.tick();
    assert_eq!(u.ticks(), 2);
    assert_eq!(u.human_count(), 0);
    assert_eq!(u.susceptible() + u.infected() + u.removed() + u.died(), 0);
}

#[test]
fn add_human_rejects_misfits() {
    let mut u = Universe::empty(100_000, 100_000, 6);
    // zero radius
    assert!(!u.add_human(agent(50_000, 50_000, 0, 0, Health::Susceptible, 0, 0, 0)));
    // leading edge outside the arena
    assert!(!u.add_human(agent(3000, 50_000, 0, 0, Health::Susceptible, 7000, 0, 0)));
    // a dead agent that still moves
    assert!(!u.add_human(agent(50_000, 50_000, 100, 0, Health::Died, 7000, 0, 0)));
    // vulnerability above certainty
    assert!(!u.add_human(agent(50_000, 50_000, 0, 0, Health::Susceptible, 7000, PROB_DEN + 1, 0)));
    assert_eq!(u.human_count(), 0);
    assert!(u.add_human(agent(50_000, 50_000, 0, 0, Health::Died, 7000, 0, 0)));
    assert_eq!(u.human_count(), 1);
}

#[test]
fn set_zone_rejects_bad_shapes() {
    let mut u = Universe::empty(100_000, 100_000, 6);
    assert!(u.add_human(agent(50_000, 50_000, 0, 0, Health::Susceptible, 7000, 0, 0)));
    // boundaries out of order
    assert!(!u.set_zone(Zone { x1: 60_000, x2: 40_000 }));
    // right boundary outside the arena
    assert!(!u.set_zone(Zone { x1: 50_000, x2: 100_000 }));
    // quarantine region too narrow for the agent
    assert!(!u.set_zone(Zone { x1: 10_000, x2: 20_000 }));
    assert!(u.zone().is_none());
    assert!(u.set_zone(Zone { x1: 40_000, x2: 60_000 }));
    assert_eq!(u.zone(), Some(Zone { x1: 40_000, x2: 60_000 }));
}

#[test]
fn zone_inside_reads_the_leading_edge() {
    let z = Zone { x1: 100_000, x2: 102_000 };
    let left = agent(90_000, 0, 0, 0, Health::Susceptible, 7000, 0, 0);
    assert!(z.inside(&left));
    let touching = agent(107_000, 0, 0, 0, Health::Susceptible, 7000, 0, 0);
    assert!(!z.inside(&touching));
    let straddling = agent(106_999, 0, 0, 0, Health::Susceptible, 7000, 0, 0);
    assert!(z.inside(&straddling));
}
