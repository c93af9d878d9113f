use pentagram::element::Element;
use pentagram::fx::{Fx, V2};
use pentagram::input::InputLog;
use pentagram::race::{seeded_races, Kind, Race};
use pentagram::world::{jitter, World};

const SIZE: i32 = 64;
const PER_RACE: u32 = 15;

#[test]
fn grazing_and_hunting_occur_under_the_shipped_table() {
    let mut w = World::new(0x53A5, SIZE);
    w.seed_population(PER_RACE);
    let log = InputLog::new();
    for _ in 0..2_000 {
        w.step(&log);
    }
    assert!(w.stats.grazed > 0, "Graze never fired");
    assert!(w.stats.hunted > 0, "Hunt never fired");
}

#[test]
fn flee_fires_when_danger_crosses_the_shipped_threshold() {
    let mut w = World::new(0x53A9, SIZE);
    let danger_el = Element::Wood.eaten_by();
    for x in 28..36 {
        for y in 28..36 {
            w.terrain.cell_mut(x, y)[danger_el] = u16::MAX;
        }
    }
    w.spawn(Race { element: Element::Wood, kind: Kind::Animal }, V2::new(Fx::from_int(32), Fx::from_int(32)));
    let log = InputLog::new();
    for _ in 0..20 {
        w.step(&log);
    }
    assert!(w.stats.fled > 0, "Flee never fired despite danger above the shipped flee_threshold");
}

#[test]
fn at_least_one_plant_roots_before_the_shipped_table_starves_it() {
    let mut w = World::new(0x53AA, SIZE);
    for x in 0..SIZE {
        for y in 0..SIZE {
            w.terrain.cell_mut(x, y)[Element::Wood.habitat()] = 2_000;
        }
    }
    for k in 0..50u32 {
        let p = V2::new(Fx::from_int((k * 7 % 60) as i32), Fx::from_int((k * 13 % 60) as i32));
        w.spawn(Race { element: Element::Wood, kind: Kind::Plant }, p);
    }
    let log = InputLog::new();
    for _ in 0..2_000 {
        w.step(&log);
    }
    assert!(w.stats.propagated > 0, "no Plant ever successfully rooted before the shipped table's guaranteed starvation window closed");
}

#[test]
fn every_plant_starves_under_the_shipped_table_because_it_can_never_eat() {
    let mut w = World::new(0x53AB, SIZE);
    w.spawn(Race { element: Element::Wood, kind: Kind::Plant }, V2::new(Fx::from_int(32), Fx::from_int(32)));
    let log = InputLog::new();
    for _ in 0..2_500 {
        w.step(&log);
    }
    assert_eq!(w.alive_count(), 0, "an uneaten, unpropagated Plant should have starved by now");
    assert_eq!(w.stats.starved, 1, "the death should be attributed to starvation, not old age");
}

#[test]
fn a_rooted_plant_never_self_propels_across_a_long_run() {
    let mut w = World::new(0x53A6, SIZE);
    w.seed_population(PER_RACE);
    let log = InputLog::new();
    let table = seeded_races();
    let mut any_plant_seen = false;
    let mut checked_isolated = false;
    for _ in 0..10_000 {
        let prev = w.entities.clone();
        w.step(&log);
        for p in &prev {
            if !p.alive || p.kind != Kind::Plant {
                continue;
            }
            any_plant_seen = true;
            let r_p = table[p.race()].radius;

            let crowded = prev.iter().any(|o| {
                o.id != p.id && {
                    let r_o = table[o.race()].radius;
                    let reach = r_p + r_o + table[o.race()].speed + jitter() + jitter();
                    (o.pos - p.pos).len_sq() < reach * reach
                }
            });
            if !crowded {
                checked_isolated = true;
                if let Some(now) = w.entities.iter().find(|e| e.id == p.id) {
                    assert_eq!(now.pos, p.pos, "isolated Plant {} moved from {:?} to {:?} with nothing nearby to push it", p.id, p.pos, now.pos);
                }
            }
        }
    }
    assert!(any_plant_seen, "no Plant was ever alive to check");
    assert!(checked_isolated, "no Plant was ever isolated enough to check the no-self-propulsion claim");
}

#[test]
fn ten_thousand_ticks_replay_bit_identically_with_every_s3_phase_active() {
    let mut a = World::new(0x53A8, SIZE);
    a.seed_population(PER_RACE);
    let mut b = a.clone();
    let log = InputLog::new();
    for _ in 0..10_000 {
        a.step(&log);
        b.step(&log);
        assert_eq!(a.state_hash(), b.state_hash(), "two independent runs from the same seed diverged with every S3 phase active");
    }
}
