use pentagram::behavior::BehaviorTuning;
use pentagram::ecology::{EcologyTuning, PropagationTuning};
use pentagram::element::{Element, PerElement};
use pentagram::entity::{Item, MAX_HP};
use pentagram::fx::{Fx, V2};
use pentagram::input::{CmdKind, Command, InputLog};
use pentagram::race::{
    ActionRecipe, ActionSlot, ElementTransform, Kind, PerRace, Race, RaceAttrs, RateLaw, RecipeSlot,
    TERRAIN_PERIOD,
};
use pentagram::spatial::Occupancy;
use pentagram::terrain::TerrainTuning;
use pentagram::world::{GroundItem, World, GENESIS_EARTH};

fn world() -> World {
    let mut w = World::new(0xC0FFEE, 64);
    w.seed_population(8);
    w
}

#[test]
fn a_fresh_world_starts_with_genesis_earth_everywhere_and_nothing_else() {
    let w = World::new(0xC0FFEE, 5);
    for y in 0..5i32 {
        for x in 0..5i32 {
            assert_eq!(w.terrain.cell(x, y)[Element::Earth], GENESIS_EARTH);
            for e in Element::ALL {
                if e != Element::Earth {
                    assert_eq!(w.terrain.cell(x, y)[e], 0, "{} should start at zero", e.name());
                }
            }
        }
    }
}

#[test]
fn entities_stay_sorted_by_id() {
    let mut w = world();
    let log = InputLog::new();
    for _ in 0..2000 {
        w.step(&log);
        let ids: Vec<u32> = w.entities.iter().map(|e| e.id).collect();
        let mut sorted = ids.clone();
        sorted.sort_unstable();
        assert_eq!(ids, sorted, "id ordering broken at tick {}", w.tick);
    }
}

#[test]
fn a_retuned_race_table_takes_effect_and_never_panics_over_a_run() {
    let mut w = world();
    let race = Race { element: Element::Wood, kind: Kind::Plant };
    let mut races = w.races.clone();
    races[race].lifespan *= 2;
    let expected = races[race].lifespan;
    w.retune(races);
    assert_eq!(w.races[race].lifespan, expected, "retune must actually take effect");

    let log = InputLog::new();
    for _ in 0..500 {
        w.step(&log);
    }
}

#[test]
fn everything_stays_inside_the_bounds() {
    let mut w = world();
    let log = InputLog::new();
    for _ in 0..3000 {
        w.step(&log);
        for e in &w.entities {
            assert!(e.pos.x >= Fx::zero() && e.pos.x <= w.size, "{:?}", e.pos);
            assert!(e.pos.y >= Fx::zero() && e.pos.y <= w.size, "{:?}", e.pos);
        }
    }
}

#[test]
fn fire_turns_over_many_times_before_earth_dies_once() {
    let mut w = World::new(7, 48);
    w.retune_ecology(EcologyTuning {
        forage_radius: PerElement::filled(Fx::zero()),
        starve_after: PerElement::filled(u32::MAX),
        ..EcologyTuning::default()
    });
    w.seed_population(6);
    let log = InputLog::new();
    for _ in 0..5000 {
        w.step(&log);
    }
    let pop = w.population();

    assert_eq!(pop[Element::Earth], 12, "Earth should not have died at all");
    assert_eq!(pop[Element::Fire], 0, "Fire should have burned out entirely");
    assert!(w.stats.deaths >= 12, "expected turnover, saw {}", w.stats.deaths);
}

#[test]
fn an_extinct_races_terrain_only_changes_via_other_races_own_actions() {
    let mut w = World::new(3, 32);
    let earth_animal = Race { element: Element::Earth, kind: Kind::Animal };
    for k in 0..4 {
        w.spawn(earth_animal, V2::new(Fx::from_int(k * 3), Fx::from_int(k * 3)));
    }
    for r in Race::all() {
        if r != earth_animal {
            assert!(w.races[r].action(ActionSlot::Exist).is_some(), "sanity: every race ships an Exist recipe");
        }
    }
    let log = InputLog::new();
    for _ in 0..(TERRAIN_PERIOD * 3) {
        w.step(&log);
    }

    assert!(w.alive_count() > 0, "the seeded Earth-Animal population should still be alive over a short run");
}

#[test]
fn commands_are_applied_at_their_stamped_tick() {
    let mut w = World::new(1, 32);
    let id = w.spawn(Race { element: Element::Metal, kind: Kind::Animal }, V2::new(Fx::from_int(16), Fx::from_int(16)));
    let mut log = InputLog::new();
    log.push(Command {
        tick: 10,
        entity: id,
        kind: CmdKind::Kill,
    });
    log.finalize();
    for _ in 0..10 {
        w.step(&log);
    }
    assert_eq!(w.alive_count(), 1, "still alive just before the command tick");
    w.step(&log);
    assert_eq!(w.alive_count(), 0, "killed on the command tick");
}

#[test]
fn state_hash_changes_as_the_world_steps() {
    let mut a = world();
    let b = a.clone();
    assert_eq!(a.state_hash(), b.state_hash());
    let log = InputLog::new();
    a.step(&log);
    assert_ne!(a.state_hash(), b.state_hash());
}

#[test]
fn state_hash_notices_a_retuned_ecology() {
    let a = world();
    let mut b = a.clone();
    b.retune_ecology(EcologyTuning {
        feed_gain: PerElement::filled(1),
        ..EcologyTuning::default()
    });
    assert_ne!(a.state_hash(), b.state_hash());
}

#[test]
fn state_hash_notices_a_retuned_behavior() {
    let a = world();
    let mut b = a.clone();
    b.retune_behavior(BehaviorTuning { flee_threshold: PerRace::filled(1), ..BehaviorTuning::default() });
    assert_ne!(a.state_hash(), b.state_hash());
}

#[test]
fn state_hash_notices_grazed_hunted_and_fled() {
    let a = world();

    let mut b = a.clone();
    b.stats.grazed += 1;
    assert_ne!(a.state_hash(), b.state_hash(), "grazed not hashed");

    let mut c = a.clone();
    c.stats.hunted += 1;
    assert_ne!(a.state_hash(), c.state_hash(), "hunted not hashed");

    let mut d = a.clone();
    d.stats.fled += 1;
    assert_ne!(a.state_hash(), d.state_hash(), "fled not hashed");
}

#[test]
fn state_hash_notices_a_retuned_propagation() {
    let a = world();
    let mut b = a.clone();
    b.retune_propagation(PropagationTuning {
        crowd_max: PerElement::filled(1),
        ..PropagationTuning::default()
    });
    assert_ne!(a.state_hash(), b.state_hash());
}

#[test]
fn state_hash_notices_propagated_and_rooted_rejected() {
    let a = world();

    let mut b = a.clone();
    b.stats.propagated += 1;
    assert_ne!(a.state_hash(), b.state_hash(), "propagated not hashed");

    let mut c = a.clone();
    c.stats.rooted_rejected += 1;
    assert_ne!(a.state_hash(), c.state_hash(), "rooted_rejected not hashed");
}

#[test]
fn state_hash_notices_a_retuned_races() {
    let a = world();
    let mut b = a.clone();
    let mut races = a.races.clone();
    races[Race { element: Element::Fire, kind: Kind::Animal }].lifespan += 1;
    b.retune(races);
    assert_ne!(a.state_hash(), b.state_hash());
}

#[test]
fn a_body_eaten_this_tick_cannot_also_feed_before_it_is_reaped() {
    let mut w = World::new(9, 32);
    w.retune_ecology(EcologyTuning { hunt_weight: PerRace::filled(1000), ..EcologyTuning::default() });
    let center = V2::new(Fx::from_int(16), Fx::from_int(16));
    let fire_id = w.spawn(Race { element: Element::Fire, kind: Kind::Animal }, center);
    let earth_id = w.spawn(Race { element: Element::Earth, kind: Kind::Animal }, center);
    let wood_id = w.spawn(Race { element: Element::Wood, kind: Kind::Animal }, center);
    for id in [fire_id, earth_id] {
        let i = w.entities.iter().position(|e| e.id == id).unwrap();
        let el = w.entities[i].element;
        w.entities[i].hunger = w.ecology.satiation[el];
    }

    let log = InputLog::new();
    w.step(&log);

    assert!(!w.entities.iter().any(|e| e.id == fire_id), "Fire should be Earth's meal");
    assert!(
        w.entities.iter().any(|e| e.id == wood_id),
        "Wood must survive — its only predator (Fire) was already dead this tick"
    );
    assert_eq!(w.stats.feedings, 1, "only Earth's meal should register, not a posthumous one from Fire");
}

#[test]
fn feeding_kills_prey_feeds_the_predator_and_fires_on_consume() {
    let mut w = World::new(1, 32);
    w.retune_ecology(EcologyTuning { hunt_weight: PerRace::filled(1000), ..EcologyTuning::default() });
    let center = V2::new(Fx::from_int(16), Fx::from_int(16));
    let pred_id = w.spawn(Race { element: Element::Fire, kind: Kind::Animal }, center);
    let prey_id = w.spawn(Race { element: Element::Wood, kind: Kind::Animal }, center);

    let pi = w.entities.iter().position(|e| e.id == pred_id).unwrap();
    w.entities[pi].hunger = w.ecology.satiation[Element::Fire];

    let log = InputLog::new();
    w.step(&log);

    assert!(
        !w.entities.iter().any(|e| e.id == prey_id),
        "eaten prey should be dead and reaped in the same tick"
    );
    let pred = w.entities.iter().find(|e| e.id == pred_id).expect("predator survives");
    assert_eq!(pred.hp, 50 + w.ecology.feed_gain[Element::Fire], "hp should rise by feed_gain");
    assert_eq!(pred.hunger, 0, "a meal resets the hunger clock");
    assert_eq!(w.stats.feedings, 1);
}

#[test]
fn a_freshly_fed_predator_does_not_eat_again_until_satiated() {
    let mut w = World::new(4, 32);
    w.retune_ecology(EcologyTuning { hunt_weight: PerRace::filled(1000), ..EcologyTuning::default() });
    let center = V2::new(Fx::from_int(16), Fx::from_int(16));
    let pred_id = w.spawn(Race { element: Element::Fire, kind: Kind::Animal }, center);
    w.spawn(Race { element: Element::Wood, kind: Kind::Animal }, center);
    w.spawn(Race { element: Element::Wood, kind: Kind::Animal }, center);
    let pi = w.entities.iter().position(|e| e.id == pred_id).unwrap();
    w.entities[pi].hunger = w.ecology.satiation[Element::Fire];

    let log = InputLog::new();
    w.step(&log);

    assert_eq!(w.stats.feedings, 1, "only one meal despite two reachable prey");
    let alive_wood = w.entities.iter().filter(|e| e.element == Element::Wood && e.alive).count();
    assert_eq!(alive_wood, 1, "the second prey survives this tick");
}

#[test]
fn a_predator_below_satiation_does_not_eat_even_with_prey_in_reach() {
    let mut w = World::new(11, 32);
    let center = V2::new(Fx::from_int(16), Fx::from_int(16));
    w.spawn(Race { element: Element::Fire, kind: Kind::Animal }, center);
    w.spawn(Race { element: Element::Wood, kind: Kind::Animal }, center);

    let log = InputLog::new();
    w.step(&log);

    assert_eq!(w.stats.feedings, 0, "a predator below satiation must not eat");
    assert!(
        w.entities.iter().any(|e| e.element == Element::Wood && e.alive),
        "prey should survive an unsatiated predator"
    );
}

#[test]
fn a_satiated_predator_starts_eating_again_on_a_later_tick() {
    let mut w = World::new(12, 32);
    w.retune_ecology(EcologyTuning {
        satiation: PerElement::filled(5),

        repro_threshold: PerElement::filled(i32::MAX),
        hunt_weight: PerRace::filled(1000),
        ..EcologyTuning::default()
    });
    let center = V2::new(Fx::from_int(16), Fx::from_int(16));
    let pred_id = w.spawn(Race { element: Element::Fire, kind: Kind::Animal }, center);
    let pi = w.entities.iter().position(|e| e.id == pred_id).unwrap();
    w.entities[pi].hunger = 5;
    w.spawn(Race { element: Element::Wood, kind: Kind::Animal }, center);

    let log = InputLog::new();
    w.step(&log);
    assert_eq!(w.stats.feedings, 1);

    for _ in 0..4 {
        w.spawn(Race { element: Element::Wood, kind: Kind::Animal }, center);
        w.step(&log);
    }
    assert_eq!(w.stats.feedings, 1, "still under satiation — no second meal yet");

    w.spawn(Race { element: Element::Wood, kind: Kind::Animal }, center);
    w.step(&log);
    assert_eq!(w.stats.feedings, 2, "satiation cleared again — the predator resumes eating");
}

#[test]
fn a_non_predation_pair_never_triggers_feeding() {
    let mut w = World::new(13, 32);
    let center = V2::new(Fx::from_int(16), Fx::from_int(16));
    let a_id = w.spawn(Race { element: Element::Fire, kind: Kind::Animal }, center);
    let b_id = w.spawn(Race { element: Element::Metal, kind: Kind::Animal }, center);
    for id in [a_id, b_id] {
        let i = w.entities.iter().position(|e| e.id == id).unwrap();
        let el = w.entities[i].element;
        w.entities[i].hunger = w.ecology.satiation[el];
    }

    let log = InputLog::new();
    for _ in 0..5 {
        w.step(&log);
    }

    assert_eq!(w.stats.feedings, 0, "Fire and Metal do not eat each other");
    assert_eq!(w.alive_count(), 2);
}

#[test]
fn a_plant_is_never_a_predator() {
    let mut w = World::new(21, 32);
    let center = V2::new(Fx::from_int(16), Fx::from_int(16));
    let pred_id = w.spawn(Race { element: Element::Fire, kind: Kind::Plant }, center);
    let prey_id = w.spawn(Race { element: Element::Wood, kind: Kind::Animal }, center);
    let pi = w.entities.iter().position(|e| e.id == pred_id).unwrap();
    w.entities[pi].hunger = w.ecology.satiation[Element::Fire];

    let log = InputLog::new();
    for _ in 0..10 {
        w.step(&log);
    }

    assert!(
        w.entities.iter().any(|e| e.id == prey_id && e.alive),
        "prey must survive a Plant that would otherwise be a satiated, in-reach predator"
    );
    assert_eq!(w.stats.feedings, 0, "a Plant must never register a feeding as predator");
}

#[test]
fn hunt_weight_zero_blocks_animal_predation_but_never_grazing() {
    let mut w = World::new(20, 32);
    w.retune_ecology(EcologyTuning { hunt_weight: PerRace::filled(0), ..EcologyTuning::default() });
    let center = V2::new(Fx::from_int(16), Fx::from_int(16));
    let pred_id = w.spawn(Race { element: Element::Fire, kind: Kind::Animal }, center);
    let prey_animal_id = w.spawn(Race { element: Element::Wood, kind: Kind::Animal }, center);
    w.spawn(Race { element: Element::Fire, kind: Kind::Plant }, center);
    let pi = w.entities.iter().position(|e| e.id == pred_id).unwrap();
    w.entities[pi].hunger = w.ecology.satiation[Element::Fire];

    let log = InputLog::new();
    for _ in 0..20 {
        w.step(&log);
        let pi = w.entities.iter().position(|e| e.id == pred_id).unwrap();
        w.entities[pi].hunger = w.ecology.satiation[Element::Fire];
    }

    assert!(
        w.entities.iter().any(|e| e.id == prey_animal_id),
        "Animal prey must never be eaten when hunt_weight is zero"
    );
    assert!(
        !w.entities.iter().any(|e| e.element == Element::Fire && e.kind == Kind::Plant),
        "Plant prey should still be grazed — grazing is unconditional on hunt_weight"
    );
}

#[test]
fn a_plant_never_moves() {
    let mut w = World::new(22, 32);
    let start = V2::new(Fx::from_int(16), Fx::from_int(16));
    let id = w.spawn(Race { element: Element::Earth, kind: Kind::Plant }, start);

    let log = InputLog::new();
    for _ in 0..50 {
        w.step(&log);
    }

    let e = w.entities.iter().find(|e| e.id == id).expect("plant should still be alive");
    assert_eq!(e.pos, start, "a rooted plant must never move, bit-for-bit");
}

#[test]
fn the_fsm_actually_drives_something_over_a_run() {
    let mut w = World::new(77, 64);
    w.seed_population(10);
    let log = InputLog::new();
    for _ in 0..3000 {
        w.step(&log);
    }
    assert!(w.stats.grazed > 0, "grazed should have fired at least once");
}

#[test]
fn feed_gain_is_clamped_at_max_hp() {
    let mut w = World::new(14, 32);
    w.retune_ecology(EcologyTuning {
        satiation: PerElement::filled(0),
        feed_gain: PerElement::filled(MAX_HP),
        hunt_weight: PerRace::filled(1000),
        ..EcologyTuning::default()
    });
    let center = V2::new(Fx::from_int(16), Fx::from_int(16));
    let pred_id = w.spawn(Race { element: Element::Fire, kind: Kind::Animal }, center);
    w.spawn(Race { element: Element::Wood, kind: Kind::Animal }, center);

    let log = InputLog::new();
    w.step(&log);

    let pred = w.entities.iter().find(|e| e.id == pred_id).unwrap();
    assert_eq!(pred.hp, MAX_HP, "hp must clamp at MAX_HP rather than overshoot");
}

#[test]
fn a_meal_that_crosses_repro_threshold_spawns_an_offspring() {
    let mut w = World::new(3, 32);

    w.retune_ecology(EcologyTuning { hunt_weight: PerRace::filled(1000), ..EcologyTuning::default() });
    let center = V2::new(Fx::from_int(16), Fx::from_int(16));
    let pred_id = w.spawn(Race { element: Element::Fire, kind: Kind::Animal }, center);
    w.spawn(Race { element: Element::Wood, kind: Kind::Animal }, center);
    let pi = w.entities.iter().position(|e| e.id == pred_id).unwrap();
    w.entities[pi].hunger = w.ecology.satiation[Element::Fire];
    let births_before = w.stats.births;

    let log = InputLog::new();
    w.step(&log);

    assert!(
        w.stats.births > births_before,
        "a meal crossing repro_threshold should spawn offspring through the ordinary spawn path"
    );
}

#[test]
fn starvation_kills_after_the_grace_period_with_no_meal_available() {
    let mut w = World::new(2, 32);
    w.retune_ecology(EcologyTuning {
        forage_radius: PerElement::filled(Fx::zero()),
        starve_after: PerElement::filled(50),
        starve_rate: PerElement::filled(1000),
        ..EcologyTuning::default()
    });
    let id = w.spawn(Race { element: Element::Fire, kind: Kind::Animal }, V2::new(Fx::from_int(16), Fx::from_int(16)));

    let log = InputLog::new();
    for _ in 0..51 {
        w.step(&log);
    }

    assert!(!w.entities.iter().any(|e| e.id == id), "should have starved to death");
    assert_eq!(w.stats.starved, 1);
}

#[test]
fn a_fed_body_never_starves() {
    let mut w = World::new(6, 32);

    let margin = 3;
    w.retune_ecology(EcologyTuning {
        starve_after: PerElement::filled(w.ecology.satiation[Element::Fire] + margin),
        starve_rate: PerElement::filled(1000),
        hunt_weight: PerRace::filled(1000),
        ..EcologyTuning::default()
    });
    let center = V2::new(Fx::from_int(16), Fx::from_int(16));
    let pred_id = w.spawn(Race { element: Element::Fire, kind: Kind::Animal }, center);
    let pi = w.entities.iter().position(|e| e.id == pred_id).unwrap();
    w.entities[pi].hunger = w.ecology.satiation[Element::Fire];
    w.spawn(Race { element: Element::Wood, kind: Kind::Animal }, center);

    let log = InputLog::new();
    w.step(&log);
    assert_eq!(w.stats.feedings, 1, "setup failed to feed the body");

    for _ in 0..(margin - 1) {
        w.step(&log);
    }
    assert!(
        w.entities.iter().any(|e| e.id == pred_id),
        "a body fed just before the grace period should not have starved"
    );
}

#[test]
fn phase_flora_roots_a_seedling_under_favourable_conditions() {
    let mut w = World::new(31, 32);
    w.retune_propagation(PropagationTuning {
        period: PerElement::filled(1),
        chance: PerElement::filled(1000),
        root_min: PerElement::filled(0),
        crowd_max: PerElement::filled(100),
        dispersal: PerElement::filled(Fx::zero()),
        ..PropagationTuning::default()
    });
    let center = V2::new(Fx::from_int(16), Fx::from_int(16));
    let parent_id = w.spawn(Race { element: Element::Wood, kind: Kind::Plant }, center);

    let log = InputLog::new();
    for _ in 0..TERRAIN_PERIOD {
        w.step(&log);
    }

    assert!(w.stats.propagated > 0, "a favourable roll should have produced at least one offspring");
    assert!(
        w.entities.iter().any(|e| e.id != parent_id
            && e.element == Element::Wood
            && e.kind == Kind::Plant
            && e.size < 1000),
        "a smaller-than-full-size Wood seedling, distinct from the parent, should have rooted"
    );
}

#[test]
fn root_min_actually_gates_propagation() {
    let mut w = World::new(32, 32);
    w.retune_propagation(PropagationTuning {
        period: PerElement::filled(1),
        chance: PerElement::filled(1000),
        root_min: PerElement::filled(u16::MAX),
        crowd_max: PerElement::filled(100),
        dispersal: PerElement::filled(Fx::zero()),
        ..PropagationTuning::default()
    });
    let center = V2::new(Fx::from_int(16), Fx::from_int(16));
    let parent_id = w.spawn(Race { element: Element::Wood, kind: Kind::Plant }, center);

    let log = InputLog::new();
    for _ in 0..TERRAIN_PERIOD {
        w.step(&log);
    }

    assert!(w.stats.rooted_rejected > 0, "an unreachable root_min should reject every attempt");
    assert!(
        !w.entities.iter().any(|e| e.id != parent_id),
        "no seedling should have rooted against an unreachable root_min"
    );
}

#[test]
fn crowd_max_actually_gates_propagation() {
    let mut w = World::new(33, 32);
    w.retune_propagation(PropagationTuning {
        period: PerElement::filled(1),
        chance: PerElement::filled(1000),
        root_min: PerElement::filled(0),
        crowd_max: PerElement::filled(0),
        dispersal: PerElement::filled(Fx::zero()),
        ..PropagationTuning::default()
    });
    let center = V2::new(Fx::from_int(16), Fx::from_int(16));
    let parent_id = w.spawn(Race { element: Element::Wood, kind: Kind::Plant }, center);

    let log = InputLog::new();
    for _ in 0..TERRAIN_PERIOD {
        w.step(&log);
    }

    assert!(
        w.stats.rooted_rejected > 0,
        "a zero crowd_max should reject every attempt even though root_min alone would pass"
    );
    assert!(
        !w.entities.iter().any(|e| e.id != parent_id),
        "no seedling should have rooted against a zero crowd_max"
    );
}

#[test]
fn entity_size_actually_grows_via_phase_aging() {
    let mut w = World::new(34, 32);
    w.retune_terrain(TerrainTuning {
        diffuse_rate: PerElement::filled(0),
        diffuse_cap: PerElement::filled(0),
        ground_decay: w.terrain_tuning.ground_decay,
    });
    let race = Race { element: Element::Fire, kind: Kind::Plant };
    let center = V2::new(Fx::from_int(16), Fx::from_int(16));
    let (cx, cy) = w.terrain.cell_of(center);
    w.terrain.cell_mut(cx, cy)[Element::Fire] = w.propagation.growth_ref[Element::Fire];
    let id = w.spawn_sized(race, center, 100);

    let log = InputLog::new();
    for _ in 0..1000 {
        w.step(&log);
    }

    let e = w.entities.iter().find(|e| e.id == id);
    assert!(e.is_some(), "the seedling should not have died of old age or starvation mid-test");
    assert_eq!(e.unwrap().size, 1000, "size should have reached full growth well past maturity");
}

const SMELT_RATIO_IN: u64 = 50;
const SMELT_RATIO_OUT: u64 = 1;

#[test]
fn mine_transfers_terrain_into_carried_exactly() {
    let mut w = World::new(1, 8);
    let race = Race { element: Element::Fire, kind: Kind::Animal };
    let pos = V2::new(Fx::from_int(2), Fx::from_int(2));
    let id = w.spawn(race, pos);
    let (x, y) = w.terrain.cell_of(pos);
    w.terrain.cell_mut(x, y)[Element::Wood] = 1000;
    let before_terrain = w.terrain.total(Element::Wood);

    w.mine(id, Element::Wood);

    let rate = match w.races[race].action(ActionSlot::Mine).unwrap().rate {
        RateLaw::Flat(n) => n as u64,
        RateLaw::NeighborScaled { .. } => panic!("test assumes Mine ships a flat rate"),
    };
    assert!(rate > 0, "test assumes the shipped table gives Fire-Animal a nonzero Mine rate");
    let e = w.entities.iter().find(|e| e.id == id).unwrap();
    assert_eq!(e.carried[Element::Wood], rate, "carried should gain exactly the mining rate");
    assert_eq!(
        w.terrain.total(Element::Wood),
        before_terrain - rate,
        "terrain should lose exactly what carried gained -- a pure transfer"
    );
}

#[test]
fn mine_never_draws_more_than_the_cell_actually_holds() {
    let mut w = World::new(2, 8);
    let race = Race { element: Element::Fire, kind: Kind::Animal };
    let pos = V2::new(Fx::from_int(2), Fx::from_int(2));
    let id = w.spawn(race, pos);
    let (x, y) = w.terrain.cell_of(pos);
    w.terrain.cell_mut(x, y)[Element::Wood] = 3;

    w.mine(id, Element::Wood);

    let e = w.entities.iter().find(|e| e.id == id).unwrap();
    assert_eq!(e.carried[Element::Wood], 3, "must not mine more than the cell held");
    assert_eq!(w.terrain.cell(x, y)[Element::Wood], 0, "cell should be fully, not over-, drained");
}

#[test]
fn a_plant_can_never_mine() {
    let mut w = World::new(3, 8);
    let race = Race { element: Element::Fire, kind: Kind::Plant };
    let pos = V2::new(Fx::from_int(2), Fx::from_int(2));
    let id = w.spawn(race, pos);
    let (x, y) = w.terrain.cell_of(pos);
    w.terrain.cell_mut(x, y)[Element::Wood] = 1000;

    w.mine(id, Element::Wood);

    let e = w.entities.iter().find(|e| e.id == id).unwrap();
    assert_eq!(e.carried[Element::Wood], 0, "a rooted Plant must never mine");
    assert_eq!(w.terrain.cell(x, y)[Element::Wood], 1000, "terrain must be untouched");
}

#[test]
fn smelt_converts_whole_batches_and_returns_tailings_conserving_total() {
    let mut w = World::new(4, 8);
    let race = Race { element: Element::Metal, kind: Kind::Animal };
    let pos = V2::new(Fx::from_int(3), Fx::from_int(3));
    let id = w.spawn(race, pos);
    {
        let i = w.find(id).unwrap();
        let e = &mut w.entities[i];
        e.carried[Element::Wood] = 125;
    }

    w.smelt(id, Element::Wood);

    let (x, y) = w.terrain.cell_of(pos);
    let e = w.entities.iter().find(|e| e.id == id).unwrap();
    assert_eq!(e.carried[Element::Wood], 25, "leftover under one batch stays untouched");
    assert_eq!(e.carried[Element::Fire], 2, "Wood.generates() == Fire, 2 batches -> 2 units out");
    assert_eq!(
        w.terrain.cell(x, y)[Element::Wood],
        2 * (SMELT_RATIO_IN - SMELT_RATIO_OUT) as u16,
        "tailings (49 per batch) return to terrain at the smelter's position"
    );

    assert_eq!(25 + 2 * SMELT_RATIO_IN, 125);
}

#[test]
fn smelt_is_a_noop_below_one_whole_batch() {
    let mut w = World::new(5, 8);
    let race = Race { element: Element::Metal, kind: Kind::Animal };
    let pos = V2::new(Fx::from_int(3), Fx::from_int(3));
    let id = w.spawn(race, pos);
    {
        let i = w.find(id).unwrap();
        let e = &mut w.entities[i];
        e.carried[Element::Wood] = SMELT_RATIO_IN - 1;
    }

    w.smelt(id, Element::Wood);

    let e = w.entities.iter().find(|e| e.id == id).unwrap();
    assert_eq!(e.carried[Element::Wood], SMELT_RATIO_IN - 1, "nothing consumed below one batch");
    assert_eq!(e.carried[Element::Fire], 0);
}

#[test]
fn make_item_then_break_item_round_trips_exactly() {
    let mut w = World::new(6, 8);
    let race = Race { element: Element::Metal, kind: Kind::Animal };
    let pos = V2::new(Fx::from_int(5), Fx::from_int(5));
    let id = w.spawn(race, pos);
    {
        let i = w.find(id).unwrap();
        let e = &mut w.entities[i];
        e.carried[Element::Wood] = 500;
    }

    w.make_item(id, Element::Wood, 300);
    {
        let e = w.entities.iter().find(|e| e.id == id).unwrap();
        assert_eq!(e.carried[Element::Wood], 200, "spent from carried");
        assert_eq!(e.items.len(), 1);
        assert_eq!(e.items[0], Item { element: Element::Wood, quantity: 300 });
    }

    let (x, y) = w.terrain.cell_of(pos);
    let before = w.terrain.cell(x, y)[Element::Wood];
    w.break_item(id, 0);
    let e = w.entities.iter().find(|e| e.id == id).unwrap();
    assert!(e.items.is_empty(), "the item should be gone");
    assert_eq!(
        w.terrain.cell(x, y)[Element::Wood],
        before + 300,
        "breaking must return the item's full quantity to terrain at the breaker's position"
    );
}

#[test]
fn make_item_is_a_noop_without_enough_carried_material() {
    let mut w = World::new(7, 8);
    let race = Race { element: Element::Metal, kind: Kind::Animal };
    let id = w.spawn(race, V2::new(Fx::from_int(1), Fx::from_int(1)));
    w.make_item(id, Element::Wood, 50);
    let e = w.entities.iter().find(|e| e.id == id).unwrap();
    assert!(e.items.is_empty(), "must not fabricate an item from nothing");
}

#[test]
fn break_item_out_of_range_index_is_a_noop() {
    let mut w = World::new(8, 8);
    let race = Race { element: Element::Metal, kind: Kind::Animal };
    let id = w.spawn(race, V2::new(Fx::from_int(1), Fx::from_int(1)));
    w.break_item(id, 0);
    let e = w.entities.iter().find(|e| e.id == id).unwrap();
    assert!(e.items.is_empty());
}

#[test]
fn charge_death_deposits_material_carried_and_items_at_the_death_position() {
    let mut w = World::new(1, 16);

    w.terrain.seed_uniform(Element::Earth, 0);
    let race = Race { element: Element::Fire, kind: Kind::Animal };
    let pos = V2::new(Fx::from_int(3), Fx::from_int(3));
    let mut carried = PerElement::filled(0u64);
    carried[Element::Wood] = 40;
    carried[Element::Water] = 7;
    let items = vec![
        Item { element: Element::Metal, quantity: 12 },
        Item { element: Element::Earth, quantity: 3 },
    ];

    w.charge_death(race, pos, 25, &carried, &items);

    let (x, y) = w.terrain.cell_of(pos);
    assert_eq!(w.terrain.cell(x, y)[Element::Fire], 25, "material, as before this fix");
    assert_eq!(w.terrain.cell(x, y)[Element::Wood], 40, "carried Wood reaches terrain");
    assert_eq!(w.terrain.cell(x, y)[Element::Water], 7, "carried Water reaches terrain");

    assert_eq!(w.terrain.cell(x, y)[Element::Metal], 0, "bundled items no longer reach terrain directly");
    assert_eq!(w.terrain.cell(x, y)[Element::Earth], 0, "bundled items no longer reach terrain directly");
    assert_eq!(
        w.ground_items,
        vec![
            GroundItem { element: Element::Metal, quantity: 12, pos },
            GroundItem { element: Element::Earth, quantity: 3, pos },
        ],
        "bundled items land in ground_items instead"
    );
}

#[test]
fn charge_death_banks_a_saturated_deposits_shortfall_instead_of_losing_it() {
    let mut w = World::new(11, 16);
    let race = Race { element: Element::Fire, kind: Kind::Animal };
    let pos = V2::new(Fx::from_int(6), Fx::from_int(6));
    let (x, y) = w.terrain.cell_of(pos);
    w.terrain.cell_mut(x, y)[Element::Water] = u16::MAX - 100;
    let mut carried = PerElement::filled(0u64);
    carried[Element::Water] = 68_000;

    w.charge_death(race, pos, 0, &carried, &vec![]);

    assert_eq!(w.terrain.cell(x, y)[Element::Water], u16::MAX, "the cell fills to exactly its ceiling, no more");
    assert_eq!(
        w.terrain.overflow_of(race, Element::Water),
        68_000 - 100,
        "the shortfall a saturated cell couldn't absorb on death must be banked, not destroyed"
    );

    w.terrain.cell_mut(x, y)[Element::Water] = 0;
    let log = InputLog::new();
    for _ in 0..TERRAIN_PERIOD {
        w.step(&log);
    }
    assert_eq!(w.terrain.overflow_of(race, Element::Water), 68_000 - 100, "nothing drains the bank on its own");
}

#[test]
fn smelt_banks_a_saturated_tailings_shortfall_and_it_lands_on_retry() {
    let mut w = World::new(21, 16);
    let race = Race { element: Element::Metal, kind: Kind::Animal };
    let pos = V2::new(Fx::from_int(6), Fx::from_int(6));
    let id = w.spawn(race, pos);
    {
        let i = w.find(id).unwrap();
        w.entities[i].carried[Element::Wood] = 2000 * SMELT_RATIO_IN;
    }
    let (x, y) = w.terrain.cell_of(pos);
    w.terrain.cell_mut(x, y)[Element::Wood] = u16::MAX - 100;

    w.smelt(id, Element::Wood);

    let batches = (u16::MAX as u64) / SMELT_RATIO_IN;
    let tailings = batches * (SMELT_RATIO_IN - SMELT_RATIO_OUT);
    assert_eq!(w.terrain.cell(x, y)[Element::Wood], u16::MAX, "cell fills to exactly its ceiling");
    assert_eq!(
        w.terrain.overflow_of(race, Element::Wood),
        tailings - 100,
        "smelt's tailings shortfall on a saturated cell must be banked, not destroyed"
    );

    w.terrain.cell_mut(x, y)[Element::Wood] = 0;
    let log = InputLog::new();
    for _ in 0..TERRAIN_PERIOD {
        w.step(&log);
    }
    assert_eq!(w.terrain.overflow_of(race, Element::Wood), tailings - 100, "nothing drains the bank on its own");
}

#[test]
fn reviewer8_probe_extreme_carried_and_item_quantities_do_not_panic_or_lose_material() {
    let mut w = World::new(31, 16);

    w.terrain.seed_uniform(Element::Earth, 0);
    let race = Race { element: Element::Metal, kind: Kind::Animal };
    let pos = V2::new(Fx::from_int(4), Fx::from_int(4));
    let id = w.spawn(race, pos);

    let huge: u64 = u64::MAX / 4;
    {
        let i = w.find(id).unwrap();
        w.entities[i].carried[Element::Wood] = huge;
    }

    w.smelt(id, Element::Wood);
    let batches = (u16::MAX as u64) / SMELT_RATIO_IN;
    let consumed = batches * SMELT_RATIO_IN;
    let produced = batches * SMELT_RATIO_OUT;
    let tailings = consumed - produced;
    {
        let i = w.find(id).unwrap();
        assert_eq!(w.entities[i].carried[Element::Wood], huge - consumed, "only one firing's capped batch converts, the rest stays carried");
        assert_eq!(w.entities[i].carried[Element::Fire], produced, "Wood.generates() == Fire, exact batch conversion");
    }

    let (x, y) = w.terrain.cell_of(pos);
    let landed = w.terrain.cell(x, y)[Element::Wood] as u64;
    let banked = w.terrain.overflow_of(race, Element::Wood);
    assert_eq!(landed + banked, tailings, "every tailings unit is either on terrain or banked -- none vanished");

    let mut carried = PerElement::filled(0u64);
    carried[Element::Water] = huge;
    let items = vec![Item { element: Element::Earth, quantity: huge }];
    w.charge_death(race, pos, 0, &carried, &items);

    {
        let i = w.find(id).unwrap();
        w.entities[i].alive = false;
    }
    let water_landed = w.terrain.cell(x, y)[Element::Water] as u64;
    let water_banked = w.terrain.overflow_of(race, Element::Water);
    assert_eq!(water_landed + water_banked, huge, "carried Water: every unit is either on terrain or banked");

    let earth_on_ground: u64 = w.ground_items.iter().filter(|g| g.element == Element::Earth).map(|g| g.quantity).sum();
    assert_eq!(earth_on_ground, huge, "item Earth quantity: lands whole in ground_items, not on terrain");

    let log = InputLog::new();
    for _ in 0..TERRAIN_PERIOD {
        w.step(&log);
    }
    let grand_total = |e: Element| -> u64 {
        let on_terrain: u64 = (0..w.terrain.side)
            .flat_map(|yy| (0..w.terrain.side).map(move |xx| (xx, yy)))
            .map(|(xx, yy)| w.terrain.cell(xx, yy)[e] as u64)
            .sum();
        on_terrain + w.terrain.overflow_of(race, e)
    };
    assert_eq!(grand_total(Element::Wood), tailings, "Wood: still exactly conserved, nothing drains or vanishes");
    assert_eq!(grand_total(Element::Water), huge, "Water: still exactly conserved, nothing drains or vanishes");

    let big: u64 = 200_000;
    let mut carried2 = PerElement::filled(0u64);
    carried2[Element::Fire] = big;
    w.terrain.cell_mut(x, y)[Element::Fire] = u16::MAX - 50;
    w.charge_death(race, pos, 0, &carried2, &vec![]);
    assert_eq!(w.terrain.overflow_of(race, Element::Fire), big - 50, "shortfall banked as expected");
    w.terrain.cell_mut(x, y)[Element::Fire] = 0;
    for _ in 0..TERRAIN_PERIOD {
        w.step(&log);
    }
    assert_eq!(w.terrain.overflow_of(race, Element::Fire), big - 50, "a banked shortfall stays banked -- nothing drains it anymore, at any magnitude");
}

#[test]
fn reviewer1_break_item_banks_a_saturated_shortfall_and_it_lands_on_retry() {
    let mut w = World::new(22, 16);
    let race = Race { element: Element::Earth, kind: Kind::Animal };
    let pos = V2::new(Fx::from_int(9), Fx::from_int(9));
    let id = w.spawn(race, pos);
    {
        let i = w.find(id).unwrap();
        w.entities[i].items.push(Item { element: Element::Metal, quantity: 68_000 });
    }
    let (x, y) = w.terrain.cell_of(pos);
    w.terrain.cell_mut(x, y)[Element::Metal] = u16::MAX - 100;

    w.break_item(id, 0);

    assert_eq!(w.terrain.cell(x, y)[Element::Metal], u16::MAX, "cell fills to exactly its ceiling");
    assert_eq!(
        w.terrain.overflow_of(race, Element::Metal),
        68_000 - 100,
        "break_item's returned-quantity shortfall on a saturated cell must be banked, not destroyed"
    );

    w.terrain.cell_mut(x, y)[Element::Metal] = 0;
    let log = InputLog::new();

    for _ in 0..(TERRAIN_PERIOD * 2) {
        w.step(&log);
    }

    assert_eq!(w.terrain.overflow_of(race, Element::Metal), 68_000 - 100, "nothing drains the bank on its own");
}

#[test]
fn reviewer2_concurrent_saturating_deposits_at_one_cell_in_one_tick_neither_double_count_nor_lose_material() {
    let mut w = World::new(23, 16);
    let race = Race { element: Element::Fire, kind: Kind::Animal };
    let other_race = Race { element: Element::Metal, kind: Kind::Animal };
    let pos = V2::new(Fx::from_int(11), Fx::from_int(11));
    let (x, y) = w.terrain.cell_of(pos);
    let fire_baseline = u64::from(u16::MAX - 50);
    let water_baseline = u64::from(u16::MAX - 30);
    w.terrain.cell_mut(x, y)[Element::Fire] = u16::MAX - 50;
    w.terrain.cell_mut(x, y)[Element::Water] = u16::MAX - 30;
    w.terrain.cell_mut(x, y)[Element::Earth] = 0;

    let material = 400u64;
    let mut carried = PerElement::filled(0u64);
    carried[Element::Water] = 5_000;
    carried[Element::Earth] = 3_000;
    let items = vec![
        Item { element: Element::Water, quantity: 1_200 },
        Item { element: Element::Water, quantity: 800 },
        Item { element: Element::Fire, quantity: 600 },
    ];

    let fire_total = material;
    let water_total = 5_000u64;
    let earth_total = 3_000;

    w.charge_death(race, pos, material, &carried, &items);

    assert_eq!(
        w.ground_items,
        vec![
            GroundItem { element: Element::Water, quantity: 1_200, pos },
            GroundItem { element: Element::Water, quantity: 800, pos },
            GroundItem { element: Element::Fire, quantity: 600, pos },
        ],
        "items land whole in ground_items, unaffected by terrain saturation"
    );

    assert_eq!(w.terrain.cell(x, y)[Element::Fire], u16::MAX);
    assert_eq!(w.terrain.cell(x, y)[Element::Water], u16::MAX);
    assert!(w.terrain.cell(x, y)[Element::Earth] as u64 <= earth_total, "control channel never over-filled");

    let fire_landed = w.terrain.cell(x, y)[Element::Fire] as u64;
    let fire_banked = w.terrain.overflow_of(race, Element::Fire);
    assert_eq!(fire_landed + fire_banked, fire_baseline + fire_total, "Fire: material + item, same channel, must sum exactly (including the cell's pre-existing baseline)");

    let water_landed = w.terrain.cell(x, y)[Element::Water] as u64;
    let water_banked = w.terrain.overflow_of(race, Element::Water);
    assert_eq!(water_landed + water_banked, water_baseline + water_total, "Water: carried + two items, same channel, must sum exactly (including the cell's pre-existing baseline)");

    let earth_landed = w.terrain.cell(x, y)[Element::Earth] as u64;
    let earth_banked = w.terrain.overflow_of(race, Element::Earth);
    assert_eq!(earth_landed, earth_total, "Earth had full headroom: nothing should have been banked at all");
    assert_eq!(earth_banked, 0);

    assert_eq!(w.terrain.overflow_of(other_race, Element::Fire), 0);
    assert_eq!(w.terrain.overflow_of(other_race, Element::Water), 0);
    assert_eq!(w.terrain.overflow_of(other_race, Element::Earth), 0);

    assert_eq!(w.terrain.overflow_of(race, Element::Wood), 0);
    assert_eq!(w.terrain.overflow_of(race, Element::Metal), 0);

    w.terrain.cell_mut(x, y)[Element::Fire] = 0;
    w.terrain.cell_mut(x, y)[Element::Water] = 0;
    let log = InputLog::new();
    for _ in 0..TERRAIN_PERIOD {
        w.step(&log);
    }

    assert_eq!(w.terrain.overflow_of(race, Element::Fire), fire_banked, "nothing drains the Fire bank on its own");
    assert_eq!(w.terrain.overflow_of(race, Element::Water), water_banked, "nothing drains the Water bank on its own");
}

#[test]
fn natural_death_deposits_the_dying_bodys_carried_stock_and_items_to_terrain() {
    let mut w = World::new(2, 16);
    let race = Race { element: Element::Water, kind: Kind::Animal };
    let pos = V2::new(Fx::from_int(4), Fx::from_int(4));
    let id = w.spawn(race, pos);
    let idx = w.entities.iter().position(|e| e.id == id).unwrap();
    w.entities[idx].carried[Element::Wood] = 15;
    w.entities[idx].items.push(Item { element: Element::Fire, quantity: 9 });

    w.entities[idx].age = w.entities[idx].lifespan - 1;

    w.phase_aging();

    assert!(!w.entities[idx].alive, "test setup should have killed the body of old age this tick");
    let (x, y) = w.terrain.cell_of(pos);
    assert_eq!(w.terrain.cell(x, y)[Element::Wood], 15, "carried stock reaches terrain on natural death");
    assert_eq!(w.terrain.cell(x, y)[Element::Fire], 0, "bundled items no longer reach terrain directly");
    assert_eq!(
        w.ground_items,
        vec![GroundItem { element: Element::Fire, quantity: 9, pos }],
        "bundled item lands in ground_items instead"
    );
}

#[test]
fn predation_death_drops_the_preys_carried_and_items_to_terrain_not_to_the_predator() {
    let mut w = World::new(3, 16);

    w.terrain.seed_uniform(Element::Earth, 0);
    w.retune_ecology(EcologyTuning {
        satiation: PerElement::filled(0),
        hunt_weight: PerRace::filled(1000),
        ..EcologyTuning::default()
    });
    let pos = V2::new(Fx::from_int(5), Fx::from_int(5));
    let pred_id = w.spawn(Race { element: Element::Fire, kind: Kind::Animal }, pos);
    let prey_id = w.spawn(Race { element: Element::Wood, kind: Kind::Animal }, pos);
    let pred_idx = w.entities.iter().position(|e| e.id == pred_id).unwrap();
    let prey_idx = w.entities.iter().position(|e| e.id == prey_id).unwrap();
    w.entities[prey_idx].carried[Element::Earth] = 30;
    w.entities[prey_idx].items.push(Item { element: Element::Metal, quantity: 6 });
    w.entities[pred_idx].carried[Element::Water] = 99;

    w.phase_feeding();

    assert!(!w.entities[prey_idx].alive, "test setup should have the predator eat this tick");
    assert_eq!(w.entities[pred_idx].carried[Element::Water], 99, "predator's own carried stock is untouched");
    assert_eq!(w.entities[pred_idx].carried[Element::Earth], 0, "predator does not inherit prey's carried stock");
    assert!(w.entities[pred_idx].items.is_empty(), "predator does not inherit prey's items");

    let (x, y) = w.terrain.cell_of(pos);
    assert_eq!(w.terrain.cell(x, y)[Element::Earth], 30, "prey's carried stock falls to terrain");
    assert_eq!(w.terrain.cell(x, y)[Element::Metal], 0, "prey's item no longer falls to terrain directly");
    assert_eq!(
        w.ground_items,
        vec![GroundItem { element: Element::Metal, quantity: 6, pos }],
        "prey's item lands in ground_items instead"
    );
}

#[test]
fn a_three_body_predation_chain_resolves_in_causal_order_not_array_index() {
    let mut w = World::new(0x5EED, 32);

    w.terrain.seed_uniform(Element::Earth, 0);
    w.retune_ecology(EcologyTuning {
        satiation: PerElement::filled(0),
        hunt_weight: PerRace::filled(1000),
        ..EcologyTuning::default()
    });
    let pos = V2::new(Fx::from_int(10), Fx::from_int(10));
    let z_id = w.spawn(Race { element: Element::Fire, kind: Kind::Animal }, pos);
    let x_id = w.spawn(Race { element: Element::Metal, kind: Kind::Animal }, pos);
    let y_id = w.spawn(Race { element: Element::Earth, kind: Kind::Animal }, pos);
    let z_idx = w.entities.iter().position(|e| e.id == z_id).unwrap();
    let x_idx = w.entities.iter().position(|e| e.id == x_id).unwrap();
    let y_idx = w.entities.iter().position(|e| e.id == y_id).unwrap();
    assert_eq!((z_idx, x_idx, y_idx), (0, 1, 2), "test setup requires this exact array order");

    w.entities[z_idx].material = 100;
    w.entities[y_idx].material = 50;
    w.entities[x_idx].material = 0;

    w.phase_feeding();

    assert!(!w.entities[z_idx].alive, "Z should have been eaten (by Y)");
    assert!(!w.entities[y_idx].alive, "Y should have been eaten (by X)");
    assert!(w.entities[x_idx].alive, "X is the surviving top predator");
    assert_eq!(
        w.entities[x_idx].material, 150,
        "X must inherit the full chain: its own 0 + Y's 50 + Z's 100, regardless of array index order"
    );
    assert_eq!(w.entities[y_idx].material, 0, "Y's material transferred out in full, none left to leak to terrain");
    assert_eq!(w.entities[z_idx].material, 0, "Z's material transferred out in full");

    assert_eq!(w.terrain.total(Element::Fire), 0, "no phantom Fire deposit from the chain");
    assert_eq!(w.terrain.total(Element::Earth), 0, "no phantom Earth deposit from the chain");
    assert_eq!(w.terrain.total(Element::Metal), 0, "X is alive -- none of its material has hit terrain yet");
}

#[test]
fn exist_grows_body_material_once_per_terrain_tick_for_races_that_have_it() {
    let mut w = World::new(60, 8);
    let race = Race { element: Element::Fire, kind: Kind::Animal };
    let pos = V2::new(Fx::from_int(3), Fx::from_int(3));

    for y in 0..8i32 {
        for x in 0..8i32 {
            w.terrain.cell_mut(x, y)[Element::Fire.habitat()] = 20_000;
        }
    }
    let id = w.spawn(race, pos);

    let log = InputLog::new();
    for _ in 0..TERRAIN_PERIOD {
        w.step(&log);
    }

    let e = w.entities.iter().find(|e| e.id == id).unwrap();
    assert!(e.material > 0, "Exist should have grown this body's own material by the first terrain tick");
}

#[test]
fn a_race_with_no_exist_recipe_never_grows_material_from_existing() {
    let mut w = World::new(61, 8);
    let race = Race { element: Element::Fire, kind: Kind::Animal };
    let mut races = w.races.clone();
    races[race].actions.retain(|a| a.slot != ActionSlot::Exist);
    w.retune(races);
    let pos = V2::new(Fx::from_int(3), Fx::from_int(3));
    for y in 0..8i32 {
        for x in 0..8i32 {
            w.terrain.cell_mut(x, y)[Element::Fire.habitat()] = 20_000;
        }
    }
    let id = w.spawn(race, pos);

    let log = InputLog::new();
    for _ in 0..TERRAIN_PERIOD {
        w.step(&log);
    }

    let e = w.entities.iter().find(|e| e.id == id).unwrap();
    assert_eq!(e.material, 0, "no Exist recipe means existence does nothing");
}

fn race_with_pickup(w: &World, race: Race, reach: Fx) -> PerRace<RaceAttrs> {
    let mut races = w.races.clone();
    races[race].actions.push(ActionRecipe {
        slot: ActionSlot::Pickup,
        input: RecipeSlot::Ground,
        output: RecipeSlot::Carried,
        transform: ElementTransform::Identity,
        ratio_in: 1,
        ratio_out: 1,
        rate: RateLaw::Flat(u16::MAX),
        cooldown_ticks: 0,
        reach,
    });
    races
}

#[test]
fn pickup_draws_from_ground_items_within_reach_and_ignores_out_of_reach() {
    let mut w = World::new(62, 16);
    let race = Race { element: Element::Fire, kind: Kind::Animal };
    let races = race_with_pickup(&w, race, Fx::one());
    w.retune(races);
    let pos = V2::new(Fx::from_int(5), Fx::from_int(5));
    let id = w.spawn(race, pos);
    w.ground_items.push(GroundItem { element: Element::Water, quantity: 40, pos });
    w.ground_items.push(GroundItem {
        element: Element::Water,
        quantity: 999,
        pos: V2::new(Fx::from_int(15), Fx::from_int(15)),
    });

    let occ = Occupancy::build(&w.entities, &w.terrain);
    w.apply_action_recipe(id, ActionSlot::Pickup, Element::Water, &occ);

    let e = w.entities.iter().find(|e| e.id == id).unwrap();
    assert_eq!(e.carried[Element::Water], 40, "picked up the whole in-reach pile");
    let still_on_ground: u64 = w.ground_items.iter().filter(|g| g.element == Element::Water).map(|g| g.quantity).sum();
    assert_eq!(still_on_ground, 999, "the out-of-reach pile is untouched");
}

#[test]
fn pickup_is_a_noop_with_nothing_in_reach() {
    let mut w = World::new(63, 16);
    let race = Race { element: Element::Fire, kind: Kind::Animal };
    let races = race_with_pickup(&w, race, Fx::one());
    w.retune(races);
    let pos = V2::new(Fx::from_int(5), Fx::from_int(5));
    let id = w.spawn(race, pos);

    let occ = Occupancy::build(&w.entities, &w.terrain);
    w.apply_action_recipe(id, ActionSlot::Pickup, Element::Water, &occ);

    let e = w.entities.iter().find(|e| e.id == id).unwrap();
    assert_eq!(e.carried[Element::Water], 0);
}

#[test]
fn ground_items_decay_back_into_terrain_at_a_bounded_rate() {
    let mut w = World::new(64, 8);
    let pos = V2::new(Fx::from_int(3), Fx::from_int(3));
    w.ground_items.push(GroundItem { element: Element::Wood, quantity: 10_000, pos });

    let log = InputLog::new();
    for _ in 0..TERRAIN_PERIOD {
        w.step(&log);
    }

    let remaining: u64 = w.ground_items.iter().filter(|g| g.element == Element::Wood).map(|g| g.quantity).sum();
    assert!(remaining < 10_000, "one terrain tick of decay should have moved something back to terrain");
    let (x, y) = w.terrain.cell_of(pos);
    let landed = w.terrain.cell(x, y)[Element::Wood] as u64;
    assert_eq!(landed + remaining, 10_000, "every unit is either landed on terrain or still on the ground -- none vanished");
}
