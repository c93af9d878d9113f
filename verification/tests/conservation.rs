use pentagram::ecology::EcologyTuning;
use pentagram::element::{Element, PerElement};
use pentagram::entity::Item;
use pentagram::fx::{Fx, V2};
use pentagram::input::{CmdKind, Command, InputLog};
use pentagram::race::{ActionSlot, Kind, PerRace, Race, RateLaw, TERRAIN_PERIOD};
use pentagram::world::World;

fn total_material(w: &World) -> PerElement<u64> {
    let mut total = PerElement::filled(0u64);
    for e in Element::ALL {
        total[e] += w.terrain.total(e);
    }
    for ent in &w.entities {
        if !ent.alive {
            continue;
        }
        total[ent.element] += ent.material;
        for e in Element::ALL {
            total[e] += ent.carried[e];
        }
        for item in &ent.items {
            total[item.element] += item.quantity;
        }
    }
    for g in &w.ground_items {
        total[g.element] += g.quantity;
    }
    total
}

#[test]
fn material_is_conserved_across_growth_death_mining_smelting_and_items() {
    let mut w = World::new(0xBEEF, 24);

    w.retune_ecology(EcologyTuning { forage_radius: PerElement::filled(Fx::zero()), ..EcologyTuning::default() });

    for y in 0..24i32 {
        for x in 0..24i32 {
            for e in Element::ALL {
                w.terrain.cell_mut(x, y)[e] = 20_000;
            }
        }
    }

    let wood_animal = w.spawn(Race { element: Element::Wood, kind: Kind::Animal }, V2::new(Fx::from_int(2), Fx::from_int(2)));
    let earth_animal = w.spawn(Race { element: Element::Earth, kind: Kind::Animal }, V2::new(Fx::from_int(10), Fx::from_int(10)));

    w.seed_population(3);

    let mut log = InputLog::new();

    for t in [5u64, 6, 7] {
        log.push(Command { tick: t, entity: wood_animal, kind: CmdKind::Mine { element: Element::Water } });
    }

    log.push(Command { tick: 40, entity: wood_animal, kind: CmdKind::Smelt { element: Element::Water } });

    log.push(Command { tick: 45, entity: wood_animal, kind: CmdKind::MakeItem { element: Element::Water, quantity: 20 } });
    log.push(Command { tick: 46, entity: wood_animal, kind: CmdKind::BreakItem { index: 0 } });

    for t in [5u64, 6] {
        log.push(Command { tick: t, entity: earth_animal, kind: CmdKind::Mine { element: Element::Fire } });
    }
    log.finalize();

    let before = total_material(&w);
    let mut expected_delta: PerElement<i64> = PerElement::filled(0);

    let ticks = TERRAIN_PERIOD * 3;
    for t in 0..ticks {
        if t == 40 {
            let idx = w.entities.iter().position(|e| e.id == wood_animal).expect("wood_animal still alive at tick 40");
            let have = w.entities[idx].carried[Element::Water];
            let smelt = w.races[Race { element: Element::Wood, kind: Kind::Animal }].action(ActionSlot::Smelt).unwrap();
            let batches = have / smelt.ratio_in as u64;
            let produced = batches * smelt.ratio_out as u64;
            expected_delta[Element::Water] -= produced as i64;
            expected_delta[Element::Water.generates()] += produced as i64;
        }

        w.step(&log);

        if w.tick % TERRAIN_PERIOD == 0 && w.tick > 0 {
            let mut living: PerRace<u64> = PerRace::filled(0);
            for e in &w.entities {
                if e.alive {
                    *living.get_mut(e.race()) += 1;
                }
            }
            for race in Race::all() {
                let n = living[race];
                if n == 0 {
                    continue;
                }
                let Some(exist) = w.races[race].action(ActionSlot::Exist) else { continue };
                let rate = match exist.rate {
                    RateLaw::Flat(r) => r as u64,
                    RateLaw::NeighborScaled { .. } => panic!("test assumes every shipped Exist recipe is Flat"),
                };
                let batches_per_body = rate / exist.ratio_in as u64;
                let produced_per_body = batches_per_body * exist.ratio_out as u64;
                if produced_per_body == 0 {
                    continue;
                }
                let produced = produced_per_body * n;
                expected_delta[race.element.habitat()] -= produced as i64;
                expected_delta[race.element] += produced as i64;
            }
        }
    }

    let after = total_material(&w);

    let mut any_conversion = false;
    for e in Element::ALL {
        let observed = after[e] as i64 - before[e] as i64;
        assert_eq!(
            observed,
            expected_delta[e],
            "{}: observed delta {} != expected {} accounting for every conversion this run \
             (per-entity Exist draws plus smelting)",
            e.name(),
            observed,
            expected_delta[e]
        );
        if expected_delta[e] != 0 {
            any_conversion = true;
        }
    }
    assert!(any_conversion, "test is vacuous -- no conversion actually fired during the run");

    let grand_before: u64 = Element::ALL.iter().map(|e| before[*e]).sum();
    let grand_after: u64 = Element::ALL.iter().map(|e| after[*e]).sum();
    assert_eq!(grand_before, grand_after, "grand total across all five elements must be exactly conserved");
}

#[test]
fn material_is_conserved_through_a_natural_death_and_a_predation_chain() {
    let mut w = World::new(0xDEAD, 24);
    w.retune_ecology(EcologyTuning {
        forage_radius: PerElement::filled(Fx::from_int(6)),
        hunt_weight: PerRace::filled(1000),
        satiation: PerElement::filled(0),
        ..EcologyTuning::default()
    });

    let dying = w.spawn(Race { element: Element::Wood, kind: Kind::Animal }, V2::new(Fx::from_int(2), Fx::from_int(2)));
    {
        let idx = w.entities.iter().position(|e| e.id == dying).unwrap();
        w.entities[idx].carried[Element::Water] = 40;
        w.entities[idx].carried[Element::Fire] = 5;
        w.entities[idx].items.push(Item { element: Element::Metal, quantity: 17 });
        w.entities[idx].items.push(Item { element: Element::Earth, quantity: 3 });

        w.entities[idx].age = w.entities[idx].lifespan - 1;
    }

    let chain_pos = V2::new(Fx::from_int(20), Fx::from_int(20));
    let z_fire = w.spawn(Race { element: Element::Fire, kind: Kind::Animal }, chain_pos);
    let x_metal = w.spawn(Race { element: Element::Metal, kind: Kind::Animal }, chain_pos);
    let y_earth = w.spawn(Race { element: Element::Earth, kind: Kind::Animal }, chain_pos);
    {
        let zi = w.entities.iter().position(|e| e.id == z_fire).unwrap();
        w.entities[zi].material = 100;
        w.entities[zi].carried[Element::Wood] = 11;
        let yi = w.entities.iter().position(|e| e.id == y_earth).unwrap();
        w.entities[yi].material = 50;
        w.entities[yi].items.push(Item { element: Element::Water, quantity: 9 });
    }

    let before = total_material(&w);
    let mut expected_delta: PerElement<i64> = PerElement::filled(0);

    expected_delta[Element::Fire] -= 100;
    expected_delta[Element::Earth] -= 50;
    expected_delta[Element::Metal] += 150;

    let empty_log = InputLog::new();

    for _ in 0..10 {
        w.step(&empty_log);
    }

    assert!(!w.entities.iter().any(|e| e.id == dying), "the old-age death must have actually reaped the body");
    assert!(!w.entities.iter().any(|e| e.id == z_fire), "Z must have been eaten (by Y) this run");
    assert!(!w.entities.iter().any(|e| e.id == y_earth), "Y must have been eaten (by X) this run");
    let x = w.entities.iter().find(|e| e.id == x_metal).expect("X is the surviving top predator");
    assert_eq!(x.material, 150, "X must inherit the full chain: its own 0 + Y's 50 + Z's 100");

    let after = total_material(&w);
    for e in Element::ALL {
        let observed = after[e] as i64 - before[e] as i64;
        assert_eq!(
            observed,
            expected_delta[e],
            "{}: observed delta {} != expected {} -- every unit of the natural death's carried/items and the \
             predation chain's material transfer must be traceable to a pool `total_material` sums over, with the \
             chain's cross-element retyping landing exactly on Metal",
            e.name(),
            observed,
            expected_delta[e]
        );
    }

    let grand_before: u64 = Element::ALL.iter().map(|e| before[*e]).sum();
    let grand_after: u64 = Element::ALL.iter().map(|e| after[*e]).sum();
    assert_eq!(grand_before, grand_after, "grand total across all five elements must be exactly conserved");
}
