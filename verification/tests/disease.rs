use epidemic_sim::{Health, Human, Rng, Vector, PROB_DEN};

fn agent(health: Health, vulnerability: u64, letality: u64) -> Human {
    Human::new(
        Vector { x: 0, y: 0 },
        Vector { x: 300, y: 400 },
        health,
        7000,
        vulnerability,
        letality,
    )
}

#[test]
fn infect_needs_exactly_one_infected_side() {
    let mut rng = Rng::new(11);

    let mut a = agent(Health::Susceptible, PROB_DEN, 0);
    let mut b = agent(Health::Susceptible, PROB_DEN, 0);
    a.infect(&mut b, 5, &mut rng);
    assert_eq!(a.health, Health::Susceptible);
    assert_eq!(b.health, Health::Susceptible);

    let mut c = agent(Health::Infected, PROB_DEN, 0);
    let mut d = agent(Health::Infected, PROB_DEN, 0);
    c.infect(&mut d, 5, &mut rng);
    assert_eq!(c.health, Health::Infected);
    assert_eq!(d.health, Health::Infected);
    assert_eq!(c.infected_at, 0);
    assert_eq!(d.infected_at, 0);

    let mut e = agent(Health::Removed, PROB_DEN, 0);
    let mut f = agent(Health::Died, PROB_DEN, 0);
    e.infect(&mut f, 5, &mut rng);
    assert_eq!(e.health, Health::Removed);
    assert_eq!(f.health, Health::Died);
}

#[test]
fn infect_with_full_vulnerability_is_certain() {
    let mut rng = Rng::new(23);
    let mut i = agent(Health::Infected, PROB_DEN, 0);
    let mut s = agent(Health::Susceptible, PROB_DEN, 0);
    i.infect(&mut s, 17, &mut rng);
    assert_eq!(s.health, Health::Infected);
    assert_eq!(s.infected_at, 17);
    assert_eq!(i.health, Health::Infected);
    assert_eq!(i.infected_at, 0);
}

#[test]
fn infect_with_zero_vulnerability_needs_a_zero_draw() {
    // only the draw 0 of PROB_DEN + 1 outcomes infects; scan a few draws
    let mut rng = Rng::new(29);
    let mut caught = 0;
    for _ in 0..50 {
        let mut i = agent(Health::Infected, 0, 0);
        let mut s = agent(Health::Susceptible, 0, 0);
        i.infect(&mut s, 1, &mut rng);
        if s.health == Health::Infected {
            caught += 1;
        }
    }
    assert_eq!(caught, 0);
}

#[test]
fn terminal_agents_never_catch_the_infection() {
    let mut rng = Rng::new(31);
    let mut i = agent(Health::Infected, PROB_DEN, 0);
    let mut r = agent(Health::Removed, PROB_DEN, 0);
    i.infect(&mut r, 9, &mut rng);
    assert_eq!(r.health, Health::Removed);
    let mut d = agent(Health::Died, PROB_DEN, 0);
    i.infect(&mut d, 9, &mut rng);
    assert_eq!(d.health, Health::Died);
}

#[test]
fn recover_or_die_ignores_the_healthy() {
    let mut rng = Rng::new(37);
    let before = rng.state;
    let mut s = agent(Health::Susceptible, PROB_DEN, 0);
    s.recover_or_die(1000, &mut rng);
    assert_eq!(s.health, Health::Susceptible);
    // no draw was consumed
    assert_eq!(rng.state, before);
}

#[test]
fn zero_letality_recovers_and_never_dies() {
    let mut rng = Rng::new(9);
    let mut h = agent(Health::Infected, PROB_DEN, 0);
    let mut resolved = false;
    for now in 1..=2000u64 {
        h.recover_or_die(now, &mut rng);
        assert_ne!(h.health, Health::Died);
        if h.health == Health::Removed {
            resolved = true;
            break;
        }
    }
    assert!(resolved);
}

#[test]
fn full_letality_dies_and_stops_moving() {
    let mut rng = Rng::new(5);
    let mut h = agent(Health::Infected, PROB_DEN, PROB_DEN);
    for now in 1..=2000u64 {
        h.recover_or_die(now, &mut rng);
        if h.health != Health::Infected {
            break;
        }
    }
    assert_eq!(h.health, Health::Died);
    assert_eq!(h.velocity.x, 0);
    assert_eq!(h.velocity.y, 0);
    // terminal: further aging changes nothing
    let snapshot = h;
    h.recover_or_die(3000, &mut rng);
    assert_eq!(h, snapshot);
}
