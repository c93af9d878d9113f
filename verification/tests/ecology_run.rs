use pentagram::ecology::EcologyTuning;
use pentagram::element::{Element, PerElement};
use pentagram::fx::{Fx, V2};
use pentagram::input::InputLog;
use pentagram::race::{attrs, Kind, Race};
use pentagram::replay::{build, record, scripted_log, verify};
use pentagram::world::World;

const SEED: u64 = 0xC0FFEE;
const SIZE: i32 = 64;
const PER_RACE: u32 = 12;

#[test]
fn feeding_starvation_and_reproduction_all_occur_under_the_shipped_table() {
    let ticks = 8_000u64;
    let mut w = build(SEED, SIZE, PER_RACE);
    let log = InputLog::new();
    let births_before = w.stats.births;
    for _ in 0..ticks {
        w.step(&log);
    }
    assert!(w.stats.feedings > 0, "no predation occurred in {ticks} ticks");
    assert!(
        w.stats.births > births_before,
        "no reproduction occurred beyond the initial seed"
    );

    let _ = w.stats.starved;
}

#[test]
fn ten_thousand_ticks_replay_bit_identically_with_ecology_active() {
    let ticks = 10_000;
    let log = scripted_log(0x5EED, ticks, PER_RACE * 10);
    let trace = record(SEED, SIZE, PER_RACE, &log, ticks);
    assert_eq!(trace.ticks(), ticks as usize);
    if let Err(d) = verify(&trace, &log) {
        panic!("{}", d.text());
    }
}

#[test]
fn a_retuned_ecology_changes_the_run() {
    let ticks = 2_000u64;
    let log = scripted_log(0x9, ticks, PER_RACE * 10);

    let a = build(SEED, SIZE, PER_RACE);
    let mut b = a.clone();
    b.retune_ecology(EcologyTuning {
        feed_gain: PerElement::filled(1),
        ..EcologyTuning::default()
    });

    let mut a = a;
    for _ in 0..ticks {
        a.step(&log);
        b.step(&log);
    }
    assert_ne!(a.state_hash(), b.state_hash());
}

#[test]
fn reproduction_sustains_fire_past_its_own_maximum_lifespan() {
    let fire = attrs(Race { element: Element::Fire, kind: Kind::Animal });
    let max_lifespan = fire.lifespan * (1000 + fire.lifespan_variance as u64) / 1000;
    let ticks = max_lifespan + max_lifespan / 2;

    let mut w = World::new(0xF00D, 64);
    w.retune_ecology(EcologyTuning {
        forage_radius: PerElement::filled(Fx::ratio(500, 100)),
        satiation: PerElement::filled(150),
        feed_gain: PerElement::filled(70),
        starve_after: PerElement::filled(1_200),
        starve_rate: PerElement::filled(1),
        repro_threshold: PerElement::filled(60),
        ..EcologyTuning::default()
    });

    let fire_seed = 40u32;
    for k in 0..fire_seed {
        let p = V2::new(Fx::from_int((k * 7 % 60) as i32), Fx::from_int((k * 13 % 60) as i32));
        w.spawn(Race { element: Element::Fire, kind: Kind::Animal }, p);
    }
    for k in 0..400u32 {
        let p = V2::new(Fx::from_int((k * 3 % 60) as i32), Fx::from_int((k * 11 % 60) as i32));
        w.spawn(Race { element: Element::Wood, kind: Kind::Animal }, p);
    }

    let log = InputLog::new();
    let births_before = w.stats.births;
    for _ in 0..ticks {
        w.step(&log);
    }

    assert!(
        ticks > max_lifespan,
        "test is not actually past every possible individual lifespan"
    );
    assert!(
        w.population()[Element::Fire] > 0,
        "Fire should still be present {ticks} ticks in — every original individual is provably dead by now, \
         so a survivor can only be a descendant"
    );
    assert!(
        w.stats.births - births_before > fire_seed as u64,
        "more births must have occurred than the initial seed for Fire to still be here"
    );
    assert!(w.stats.starved > 0 || w.stats.feedings > 0, "neither starvation nor feeding ever occurred");
}
