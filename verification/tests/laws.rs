use pentagram::apportion::{apportion, Claim};
use pentagram::behavior::{ai_decide_move, drive, steer, BehaviorTuning, Drive};
use pentagram::climate::{Climate, ClimateTuning};
use pentagram::ecology::EcologyTuning;
use pentagram::element::{Element, PerElement};
use pentagram::entity::{grown_size, Item};
use pentagram::fx::{Fx, V2};
use pentagram::governor::Governor;
use pentagram::hash::Hasher;
use pentagram::input::{CmdKind, Command, InputLog, LogError};
use pentagram::order::sort;
use pentagram::race::{attrs, seeded_races, Edge, Kind, PerRace, Race, RateBand, RateLaw, RecipeSlot};
use pentagram::rand::{rand_below, rand_chance, rand_range, rand_signed, rand_unit, Channel};
use pentagram::replay::{build, try_record, try_verify, verify, Divergence};
use pentagram::spatial::{Occupancy, SpatialIndex};
use pentagram::terrain::{apply_diffusion, blend_rgb, deposit_at, render_ppm, rgb, Terrain, TerrainTuning};
use pentagram::tile::{chebyshev_dist, step_toward, Tile};
use pentagram::world::{GroundItem, World};
use std::collections::BTreeMap;

fn animal(e: Element) -> Race {
    Race { element: e, kind: Kind::Animal }
}

fn at(x: i32, y: i32) -> V2 {
    V2::new(Fx::from_int(x), Fx::from_int(y))
}

#[test]
fn the_ring_closes_after_five_steps_and_its_edges_are_inverse() {
    for e in Element::ALL {
        assert_eq!(e.eats().eaten_by(), e);
        assert_eq!(e.suppresses().suppressed_by(), e);
        assert_eq!(Element::from_index(e.index()), e);
        let mut x = e;
        for _ in 0..5 {
            x = x.generates();
        }
        assert_eq!(x, e);
    }
    assert_eq!(Element::Wood.generates(), Element::Fire);
    assert_eq!(Element::Fire.eats(), Element::Wood);
}

#[test]
fn an_advantage_goes_one_way_only() {
    for a in Element::ALL {
        assert!(!a.beats(a));
        for b in Element::ALL {
            assert!(!(a.beats(b) && b.beats(a)), "{} and {}", a.name(), b.name());
        }
    }
}

#[test]
fn iteration_goes_in_ring_order() {
    let names: Vec<&str> = PerElement([1, 2, 3, 4, 5]).iter().iter().map(|(e, _)| e.name()).collect();
    assert_eq!(names, vec!["Wood", "Fire", "Earth", "Metal", "Water"]);
    let races = PerRace([0, 1, 2, 3, 4, 5, 6, 7, 8, 9]);
    for (r, v) in races.iter() {
        assert_eq!(r.index(), *v);
    }
}

#[test]
fn hashing_in_pieces_is_hashing_the_whole() {
    let mut a = Hasher::new();
    a.bytes(b"foo").bytes(b"bar");
    let mut b = Hasher::new();
    b.bytes(b"foobar");
    assert_eq!(a.finish(), b.finish());
    let mut c = Hasher::new();
    c.u32(0x0403_0201);
    let mut d = Hasher::new();
    d.u16(0x0201).u8(3).u8(4);
    assert_eq!(c.finish(), d.finish());
}

#[test]
fn sorting_is_stable() {
    assert_eq!(sort(&vec![3u32, 1, 2, 1]), vec![1, 1, 2, 3]);
    let claims = vec![
        Claim { at: 0, frac: 5, tie: 9 },
        Claim { at: 1, frac: 7, tie: 9 },
        Claim { at: 2, frac: 5, tie: 9 },
        Claim { at: 3, frac: 5, tie: 1 },
    ];
    let order: Vec<usize> = sort(&claims).iter().map(|c| c.at).collect();
    assert_eq!(order, vec![1, 3, 0, 2]);
}

#[test]
fn a_step_approaches_its_target() {
    let (mut a, b) = (Tile::new(2, 9), Tile::new(7, 3));
    let mut d = chebyshev_dist(a, b);
    assert_eq!(d, 6);
    while d > 0 {
        a = step_toward(a, b);
        assert_eq!(chebyshev_dist(a, b), d - 1);
        d -= 1;
    }
    assert_eq!(step_toward(b, b), b);
    assert_eq!(Tile::new(-3, 40).clamp(10), Tile::new(0, 9));
}

#[test]
fn draws_stay_in_range_and_depend_on_nothing_else() {
    for t in 0..200u64 {
        assert!(rand_below(7, t, 3, Channel::Wander, 5) < 5);
        let r = rand_range(7, t, 3, Channel::Wander, -4, 9);
        assert!((-4..9).contains(&r), "{r}");
        let u = rand_unit(7, t, 3, Channel::Wander).raw();
        assert!((0..65_536).contains(&u));
        let s = rand_signed(7, t, 3, Channel::Wander).raw();
        assert!((-65_536..=65_536).contains(&s));
        assert!(!rand_chance(7, t, 3, Channel::Hunt, 0, 1000));
        assert!(rand_chance(7, t, 3, Channel::Hunt, 1000, 1000));
        assert_eq!(
            rand_below(7, t, 3, Channel::Wander, 5),
            rand_below(7, t, 3, Channel::Wander, 5)
        );
    }
    assert_eq!(rand_below(7, 1, 3, Channel::Wander, 0), 0);
}

#[test]
fn moving_an_edge_drags_the_others_along() {
    let b = RateBand::new(10, 20, 30, 4);
    let mut c = b;
    c.set_edge(Edge::Floor, 50);
    assert_eq!(c, RateBand::new(50, 50, 50, 4));
    let mut c = b;
    c.set_edge(Edge::Nominal, 5);
    assert_eq!(c, RateBand::new(5, 5, 30, 4));
    let mut c = b;
    c.set_edge(Edge::Ceiling, 15);
    assert_eq!(c, RateBand::new(10, 15, 15, 4));
    assert!(c.is_valid());
    assert_eq!(b.burst_cap(), 80);
    assert!(!RateBand::new(3, 2, 9, 1).is_valid());
}

#[test]
fn a_settlement_pays_from_the_bucket_down_to_its_reserve() {
    let mut g = Governor::new(RateBand::new(100, 1000, 5000, 2));
    assert_eq!(g.bucket(), 2000);
    let a = g.settle(10_000);
    assert_eq!((a.granted, a.clipped, a.forced), (1900, 8100, 0));
    assert_eq!(g.bucket(), 100);
    let b = g.settle(10_000);
    assert_eq!((b.granted, b.clipped), (1000, 9000));
}

#[test]
fn a_smaller_band_takes_the_surplus_from_the_bucket() {
    let mut g = Governor::new(RateBand::new(0, 1000, 5000, 4));
    assert_eq!(g.bucket(), 4000);
    g.set_band(RateBand::new(0, 100, 500, 3));
    assert_eq!(g.bucket(), 300);
    g.set_band(RateBand::new(0, 1000, 5000, 4));
    assert_eq!(g.bucket(), 300);
}

#[test]
fn halves_round_upward() {
    assert_eq!(Fx::ratio(5, 2).round_int(), 3);
    assert_eq!(Fx::ratio(-5, 2).round_int(), -2);
    assert_eq!(Fx(32_767).round_int(), 0);
    assert_eq!(Fx(-1).signum(), -1);
    assert_eq!(Fx(0).signum(), 0);
    assert_eq!(Fx(9).signum(), 1);
}

#[test]
fn adding_in_place_is_adding() {
    let mut x = Fx::from_int(3);
    x += Fx::from_int(4);
    assert_eq!(x, Fx::from_int(7));
    x -= Fx::from_int(9);
    assert_eq!(x, Fx::from_int(-2));
    assert_eq!(Fx::from_int(7) / Fx::from_int(2), Fx(229_376));
}

#[test]
fn growth_never_goes_back() {
    let mut last = 0;
    for age in 0..2000 {
        let s = grown_size(150, age, 4000, 900);
        assert!(s >= last && (150..=900).contains(&s));
        last = s;
    }
    assert_eq!(last, 900);
}

#[test]
fn every_shipped_row_is_valid() {
    let table = seeded_races();
    for r in Race::all() {
        assert!(table[r].is_valid());
        assert_eq!(table[r], attrs(r));
    }
    let mut bad = attrs(animal(Element::Fire));
    bad.actions[0].ratio_out = bad.actions[0].ratio_in + 1;
    assert!(!bad.is_valid());
    bad = attrs(animal(Element::Fire));
    bad.speed = Fx::zero();
    assert!(!bad.is_valid());
}

#[test]
fn a_crowd_raises_a_scaled_rate() {
    let law = RateLaw::NeighborScaled { base: 10, per_neighbor: 3, per_size: 40 };
    assert_eq!(law.requested(1, 1000), 50);
    assert_eq!(law.requested(4, 500), 39);
    assert_eq!(RateLaw::Flat(7).requested(9, 1000), 7);
}

#[test]
fn level_ground_stays_level() {
    let mut t = Terrain::new(6);
    t.seed_uniform(Element::Water, 1234);
    let before = t.state_hash();
    apply_diffusion(&mut t, &TerrainTuning::default());
    assert_eq!(t.state_hash(), before);
}

#[test]
fn diffusion_moves_a_share_of_the_difference() {
    let mut t = Terrain::new(8);
    t.cell_mut(4, 4)[Element::Fire] = 100;
    let tuning = TerrainTuning {
        diffuse_rate: PerElement::filled(100),
        diffuse_cap: PerElement::filled(1000),
        ground_decay: RateBand::new(1, 1, 1, 1),
    };
    apply_diffusion(&mut t, &tuning);
    assert_eq!(t.cell(4, 4)[Element::Fire], 60);
    for (x, y) in [(3, 4), (5, 4), (4, 3), (4, 5)] {
        assert_eq!(t.cell(x, y)[Element::Fire], 10);
    }
}

#[test]
fn what_is_spread_is_what_is_reported() {
    let mut weight: BTreeMap<u32, u32> = BTreeMap::new();
    weight.insert(0, 2);
    weight.insert(1, 1);
    let mut t = Terrain::new(4);
    assert_eq!(apportion(&mut t, Element::Fire, 9, &weight, 1, 1, true, animal(Element::Fire)), 9);
    assert_eq!(t.cell(0, 0)[Element::Fire], 6);
    assert_eq!(t.cell(1, 0)[Element::Fire], 3);

    t.cell_mut(0, 0)[Element::Fire] = u16::MAX - 1;
    let moved = apportion(&mut t, Element::Fire, 9, &weight, 1, 1, true, animal(Element::Fire));
    assert_eq!(moved, 4, "a full cell moves less than its share");

    let before = t.total(Element::Fire);
    let taken = apportion(&mut t, Element::Fire, 9, &weight, 1, 1, false, animal(Element::Fire));
    assert_eq!(t.total(Element::Fire), before - taken);
    assert_eq!(taken, 9);
}

#[test]
fn a_cell_beyond_the_grid_stands_for_one_on_its_edge() {
    let mut weight: BTreeMap<u32, u32> = BTreeMap::new();
    weight.insert(4 * 4 + 2, 1);
    let mut t = Terrain::new(4);
    assert_eq!(apportion(&mut t, Element::Wood, 5, &weight, 1, 1, true, animal(Element::Wood)), 5);
    assert_eq!(t.cell(2, 3)[Element::Wood], 5);
}

#[test]
fn a_deposit_is_landed_or_banked() {
    let mut t = Terrain::new(3);
    let r = animal(Element::Metal);
    t.cell_mut(1, 1)[Element::Water] = 65_000;
    deposit_at(&mut t, r, Element::Water, 1_000, at(1, 1));
    assert_eq!(t.cell(1, 1)[Element::Water], 65_535);
    assert_eq!(t.overflow_of(r, Element::Water), 465);
    assert_eq!(t.overflow(r), 0, "none of its own element");
    t.cell_mut(1, 1)[Element::Metal] = u16::MAX;
    deposit_at(&mut t, r, Element::Metal, 7, at(1, 1));
    assert_eq!(t.overflow(r), 7);
}

#[test]
fn a_blend_is_the_weighted_mean_of_the_colours() {
    let mut s = PerElement::filled(0u64);
    assert_eq!(blend_rgb(&s), (18, 18, 24));
    s[Element::Wood] = 1;
    assert_eq!(blend_rgb(&s), rgb(Element::Wood));
    s[Element::Fire] = 1;
    assert_eq!(blend_rgb(&s), (176, 140, 89));
}

#[test]
fn a_picture_has_a_header_and_three_bytes_per_cell() {
    let t = Terrain::new(12);
    let p = render_ppm(&t);
    assert_eq!(&p[..13], b"P6\n12 12\n255\n");
    assert_eq!(p.len(), 13 + 3 * 144);
    assert_eq!(&p[13..16], &[18, 18, 24]);
}

#[test]
fn climate_peaks_in_the_middle_of_its_season() {
    let t = ClimateTuning {
        base_range: PerElement::filled((100, 100)),
        floor: PerElement::filled(2),
        season_peak: PerElement::filled(1000),
        season_ticks: 100,
    };
    let c = Climate::new(3, 4, &t);
    assert_eq!(c.base_at(-5, 99)[Element::Metal], 100);
    assert_eq!(c.influx_at(0, 0, 50, &t)[Element::Wood], 102);
    assert_eq!(c.influx_at(0, 0, 25, &t)[Element::Wood], 52);
    assert_eq!(c.influx_at(0, 0, 75, &t)[Element::Wood], 52);
    assert_eq!(c.influx_at(0, 0, 150, &t)[Element::Fire], 102);
    assert_eq!(c.influx_at(0, 0, 150, &t)[Element::Wood], 2);
}

#[test]
fn overlapping_bodies_part_by_equal_amounts() {
    let mut w = World::new(1, 32);
    w.spawn(animal(Element::Wood), at(10, 10));
    w.spawn(animal(Element::Wood), V2::new(Fx::ratio(21, 2), Fx::from_int(10)));
    w.phase_collisions();
    assert_eq!(w.stats.collisions, 1);
    assert_eq!(w.entities[0].pos.x.raw(), 10 * 65_536 - 22_937);
    assert_eq!(w.entities[1].pos.x.raw(), 10 * 65_536 + 32_768 + 22_937);
    assert_eq!(w.entities[0].pos.y, Fx::from_int(10));
}

#[test]
fn flight_comes_before_the_hunt_and_the_hunt_before_grazing() {
    let mut w = World::new(5, 32);
    w.spawn(animal(Element::Wood), at(8, 8));
    w.spawn(animal(Element::Wood.eats_animal()), at(9, 8));
    let (b, ec) = (BehaviorTuning::default(), EcologyTuning::default());
    let look = |w: &World| {
        let index = SpatialIndex::build(&w.entities, &w.terrain);
        drive(&w.entities, &w.terrain, &index, &ec, &b, 0).0
    };
    assert_eq!(look(&w), Drive::Graze);
    w.entities[0].hunger = ec.satiation[Element::Wood];
    assert_eq!(look(&w), Drive::Hunt);
    w.terrain.cell_mut(8, 8)[Element::Wood.eaten_by()] = 9_000;
    assert_eq!(look(&w), Drive::Flee);
}

#[test]
fn a_turn_is_a_part_of_the_way() {
    let east = V2::new(Fx::one(), Fx::zero());
    let north = V2::new(Fx::zero(), Fx::one());
    assert_eq!(steer(east, north, Fx::zero()), east);
    assert_eq!(steer(east, north, Fx::one()), north);
    let half = steer(east, north, Fx::half());
    assert_eq!(half.x, half.y);
}

#[test]
fn occupancy_counts_the_living_of_a_race_in_a_cell() {
    let mut w = World::new(2, 16);
    for _ in 0..3 {
        w.spawn(animal(Element::Fire), at(4, 4));
    }
    w.entities[1].alive = false;
    let occ = Occupancy::build(&w.entities, &w.terrain);
    let cell = w.terrain.index(4, 4) as u32;
    assert_eq!(occ.count(animal(Element::Fire), cell), 2);
    assert_eq!(occ.count(animal(Element::Fire), cell + 1), 0);
    assert_eq!(occ.count(Race { element: Element::Fire, kind: Kind::Plant }, cell), 0);
}

#[test]
fn decay_takes_piles_in_turn_and_moves_the_last_one_up() {
    let mut w = World::new(3, 8);
    for (e, q) in [(Element::Wood, 30), (Element::Fire, 5000), (Element::Metal, 900)] {
        w.ground_items.push(GroundItem { element: e, quantity: q, pos: at(2, 2) });
    }
    w.decay_ground_items();
    assert_eq!(
        w.ground_items,
        vec![GroundItem { element: Element::Fire, quantity: 4380, pos: at(2, 2) }]
    );
    assert_eq!(w.terrain.total(Element::Wood), 30);
    assert_eq!(w.terrain.total(Element::Metal), 900);
    assert_eq!(w.terrain.total(Element::Fire), 620);
}

#[test]
fn reaping_keeps_the_living_in_order() {
    let mut w = World::new(3, 8);
    for _ in 0..6 {
        w.spawn(animal(Element::Water), at(2, 2));
    }
    for i in [0, 3, 4] {
        w.entities[i].alive = false;
    }
    w.phase_reap();
    let ids: Vec<u32> = w.entities.iter().map(|e| e.id).collect();
    assert_eq!(ids, vec![2, 3, 6]);
}

#[test]
fn a_world_with_full_counters_cannot_go_on() {
    let log = InputLog::new();
    let mut w = build(1, 16, 2);
    assert!(w.can_step(&log));
    w.next_id = u32::MAX - 10;
    assert!(!w.can_step(&log));
    w.next_id = 100;
    w.stats.fled = u64::MAX;
    assert!(!w.can_step(&log));
    w.stats.fled = 0;
    w.tick = u64::MAX - 3;
    assert!(!w.can_step(&log));
}

#[test]
fn a_recording_replays_and_a_change_is_found() {
    let log = InputLog::new();
    let mut t = try_record(9, 24, 2, &log, 40).expect("a short run");
    assert_eq!((t.ticks(), t.seed, t.size, t.per_race), (40, 9, 24, 2));
    assert_eq!(try_verify(&t, &log), Some(Ok(())));
    let was = t.hashes[12];
    t.hashes[12] = !was;
    assert_eq!(verify(&t, &log), Err(Divergence { tick: 12, expected: !was, actual: was }));
    t.hashes.clear();
    assert_eq!(t.final_hash(), 0);
    assert_eq!(verify(&t, &log), Ok(()));
}

#[test]
fn a_divergence_says_where_and_what() {
    let d = Divergence { tick: 57, expected: 0xBEEF, actual: u64::MAX };
    assert_eq!(
        d.text(),
        "diverged at tick 57: expected 0x000000000000beef, got 0xffffffffffffffff"
    );
}

#[test]
fn a_meal_turns_prey_into_predator_and_the_rest_stays_what_it_was() {
    let mut w = World::new(11, 16);
    w.spawn(animal(Element::Fire), at(5, 5));
    w.spawn(animal(Element::Wood), at(5, 5));
    w.retune_ecology(EcologyTuning {
        satiation: PerElement::filled(0),
        hunt_weight: PerRace::filled(1000),
        ..EcologyTuning::default()
    });
    w.entities[0].material = 6;
    w.entities[1].material = 40;
    w.entities[1].carried[Element::Water] = 9;
    let wood = w.terrain.total(Element::Wood);
    let water = w.terrain.total(Element::Water);
    w.step(&InputLog::new());
    assert_eq!(w.stats.feedings, 1);
    let fed = w.entities.iter().find(|e| e.element == Element::Fire).unwrap();
    assert_eq!(fed.material, 46);
    assert_eq!(w.terrain.total(Element::Wood), wood);
    assert_eq!(w.terrain.total(Element::Water), water + 9);
}

#[test]
fn a_plant_starves_to_the_tick() {
    let mut w = World::new(12, 16);
    w.retune_ecology(EcologyTuning {
        starve_after: PerElement::filled(3),
        starve_rate: PerElement::filled(10),
        ..EcologyTuning::default()
    });
    let id = w.spawn(Race { element: Element::Wood, kind: Kind::Plant }, at(8, 8));
    let span = w.entities[0].lifespan;
    let log = InputLog::new();
    for _ in 0..7 {
        w.step(&log);
    }
    assert_eq!((w.entities[0].id, w.entities[0].age, w.entities[0].lifespan), (id, 7, span));
    assert_eq!((w.entities[0].hunger, w.entities[0].hp), (7, 10));
    w.step(&log);
    assert!(w.entities.is_empty());
    assert_eq!(w.stats.starved, 1);
}

#[test]
fn a_body_dies_when_it_reaches_its_span() {
    let mut w = World::new(13, 16);
    w.spawn(animal(Element::Earth), at(8, 8));
    w.entities[0].age = w.entities[0].lifespan - 2;
    let log = InputLog::new();
    w.step(&log);
    assert_eq!(w.entities[0].age, w.entities[0].lifespan - 1);
    w.step(&log);
    assert!(w.entities.is_empty());
    assert_eq!((w.stats.deaths, w.stats.starved), (1, 0));
}

#[test]
fn carried_stock_becomes_an_item_and_goes_back_to_the_ground() {
    let mut w = World::new(6, 8);
    let id = w.spawn(animal(Element::Metal), at(5, 5));
    w.entities[0].carried[Element::Fire] = 80;
    w.make_item(id, Element::Fire, 80);
    assert_eq!(w.entities[0].items, vec![Item { element: Element::Fire, quantity: 80 }]);
    w.make_item(id, Element::Fire, 1);
    assert_eq!(w.entities[0].items.len(), 1);
    w.break_item(id, 0);
    assert_eq!(w.terrain.cell(5, 5)[Element::Fire], 80);
    w.make_item(999, Element::Fire, 1);
    w.break_item(999, 0);
}

fn bytes_of(kind: CmdKind) -> Vec<u8> {
    let mut l = InputLog::new();
    l.push(Command { tick: 3, entity: 4, kind });
    l.finalize();
    l.to_bytes()
}

#[test]
fn each_corruption_of_a_log_is_named() {
    let spawn = CmdKind::Spawn { element: Element::Wood, kind: Kind::Plant, at: V2::zero() };
    let good = bytes_of(spawn);
    assert_eq!(good.len(), 16 + 13 + 10);
    assert_eq!(InputLog::from_bytes(&good).expect("good").as_slice()[0].kind, spawn);

    let mut bad = good.clone();
    bad[28] = 200;
    assert_eq!(InputLog::from_bytes(&bad), Err(LogError::BadTag(200)));
    let mut bad = good.clone();
    bad[29] = 5;
    assert_eq!(InputLog::from_bytes(&bad), Err(LogError::BadElement(5)));
    let mut bad = good.clone();
    bad[30] = 2;
    assert_eq!(InputLog::from_bytes(&bad), Err(LogError::BadKind(2)));
    let mut bad = good.clone();
    bad[0] ^= 1;
    assert_eq!(InputLog::from_bytes(&bad), Err(LogError::BadMagic));
    let mut bad = good.clone();
    bad[4] = 0;
    assert_eq!(InputLog::from_bytes(&bad), Err(LogError::BadVersion(0)));
    for n in 0..good.len() {
        assert_eq!(InputLog::from_bytes(&good[..n]), Err(LogError::Truncated), "{n} bytes");
    }
}

#[test]
fn the_byte_format_has_no_place_for_gathering() {
    let b = bytes_of(CmdKind::Pickup { element: Element::Water });
    assert_eq!(b[4], 3);
    assert_eq!(InputLog::from_bytes(&b), Err(LogError::BadTag(7)));
    let mut newer = bytes_of(CmdKind::Kill);
    assert_eq!(newer[4], 3);
    newer[4] = 4;
    assert_eq!(InputLog::from_bytes(&newer), Err(LogError::BadVersion(4)));
}

#[test]
fn no_prefix_of_a_log_is_read_as_a_shorter_one() {
    let mut l = InputLog::new();
    let kinds = [
        CmdKind::SetHeading { dir: at(1, -2) },
        CmdKind::Spawn { element: Element::Water, kind: Kind::Plant, at: at(3, 4) },
        CmdKind::Kill,
        CmdKind::Mine { element: Element::Fire },
        CmdKind::Smelt { element: Element::Earth },
        CmdKind::MakeItem { element: Element::Metal, quantity: 300 },
        CmdKind::BreakItem { index: 1 },
    ];
    for (i, kind) in kinds.into_iter().enumerate() {
        l.push(Command { tick: i as u64, entity: 7, kind });
    }
    l.finalize();
    let b = l.to_bytes();
    for k in 0..b.len() {
        assert_eq!(InputLog::from_bytes(&b[..k]), Err(LogError::Truncated), "{k} bytes");
    }
    assert_eq!(InputLog::from_bytes(&b).unwrap().as_slice(), l.as_slice());
}

#[test]
fn a_withdrawal_goes_through_the_piles_in_order() {
    let mut w = World::new(6, 16);
    w.spawn(animal(Element::Metal), at(5, 5));
    let pile = |element, quantity, x| GroundItem { element, quantity, pos: at(x, 5) };
    w.ground_items = vec![
        pile(Element::Fire, 3, 5),
        pile(Element::Wood, 10, 5),
        pile(Element::Wood, 99, 15),
        pile(Element::Wood, 10, 6),
        pile(Element::Earth, 4, 5),
        pile(Element::Wood, 10, 5),
    ];
    let reach = Fx::from_int(2);
    assert_eq!(w.recipe_stock(0, RecipeSlot::Ground, Element::Wood, reach), 30);
    w.recipe_withdraw(0, RecipeSlot::Ground, Element::Wood, reach, 14);
    assert_eq!(w.recipe_stock(0, RecipeSlot::Ground, Element::Wood, reach), 16);
    assert_eq!(w.recipe_stock(0, RecipeSlot::Ground, Element::Fire, reach), 3);
    assert_eq!(
        w.ground_items,
        vec![
            pile(Element::Fire, 3, 5),
            pile(Element::Wood, 99, 15),
            pile(Element::Wood, 6, 6),
            pile(Element::Earth, 4, 5),
            pile(Element::Wood, 10, 5),
        ]
    );
}

#[test]
fn the_order_of_arrival_leaves_no_trace() {
    let spawn = |element, kind, x| Command {
        tick: 1,
        entity: 0,
        kind: CmdKind::Spawn { element, kind, at: at(x, 2) },
    };
    let commands = [
        Command { tick: 1, entity: 1, kind: CmdKind::Mine { element: Element::Wood } },
        Command { tick: 1, entity: 1, kind: CmdKind::Kill },
        spawn(Element::Fire, Kind::Animal, 3),
        spawn(Element::Fire, Kind::Animal, -3),
        spawn(Element::Wood, Kind::Plant, 9),
        spawn(Element::Fire, Kind::Plant, 3),
        Command { tick: 1, entity: 2, kind: CmdKind::MakeItem { element: Element::Wood, quantity: u64::MAX } },
        Command { tick: 1, entity: 2, kind: CmdKind::MakeItem { element: Element::Fire, quantity: 0 } },
        Command { tick: 1, entity: 3, kind: CmdKind::SetHeading { dir: at(1, -1) } },
        Command { tick: 1, entity: 3, kind: CmdKind::SetHeading { dir: at(-1, 1) } },
        Command { tick: 1, entity: 4, kind: CmdKind::BreakItem { index: 2 } },
        Command { tick: 1, entity: 4, kind: CmdKind::BreakItem { index: 1 } },
    ];
    let mut x = InputLog::new();
    let mut y = InputLog::new();
    for c in commands {
        x.push(c);
    }
    for c in commands.iter().rev() {
        y.push(*c);
    }
    x.finalize();
    y.finalize();
    assert_eq!(x.as_slice(), y.as_slice());
    assert_eq!(x.last_tick(), 1);
    assert_eq!(x.len(), 12);
    assert_eq!(x.as_slice()[0], spawn(Element::Wood, Kind::Plant, 9));
    assert_eq!(x.as_slice()[1], spawn(Element::Fire, Kind::Plant, 3));
    assert_eq!(x.as_slice()[2], spawn(Element::Fire, Kind::Animal, -3));
    assert_eq!(x.as_slice()[3], spawn(Element::Fire, Kind::Animal, 3));
}

#[test]
fn a_ratio_out_of_range_saturates() {
    assert_eq!(Fx::ratio(40_000, 1), Fx::largest());
    assert_eq!(Fx::ratio(-40_000, 1), Fx::smallest());
    assert_eq!(Fx::ratio(i32::MIN, -1), Fx::largest());
    assert_eq!(Fx::ratio(-32_768, 1), Fx(i32::MIN));
    assert_eq!(Fx::ratio(7, 0), Fx(0));
    assert_eq!(Fx::largest().round_int(), 32_767);
    assert_eq!(Fx(i32::MAX - 32_768).round_int(), 32_767);
    assert_eq!(Fx::smallest().round_int(), -32_768);
}

#[test]
fn flight_goes_to_the_first_of_the_safest_cells() {
    let mut w = World::new(5, 5);
    w.spawn(animal(Element::Wood), at(2, 2));
    let danger = Element::Wood.eaten_by();
    for y in 0..5 {
        for x in 0..5 {
            w.terrain.cell_mut(x, y)[danger] = 0;
        }
    }
    w.terrain.cell_mut(2, 2)[danger] = 9_000;
    w.terrain.cell_mut(2, 1)[danger] = 5;
    let (b, ec) = (BehaviorTuning::default(), EcologyTuning::default());
    let look = |w: &World| {
        let index = SpatialIndex::build(&w.entities, &w.terrain);
        ai_decide_move(&w.entities, &w.terrain, &index, &ec, &b, 1, 2, 0, None)
    };
    assert_eq!(look(&w), (Drive::Flee, Some(Tile::new(3, 2))));
    for (x, y) in [(3, 2), (2, 3), (1, 2)] {
        w.terrain.cell_mut(x, y)[danger] = 5;
    }
    assert_eq!(look(&w), (Drive::Flee, Some(Tile::new(3, 1))));
}

#[test]
fn a_new_decay_band_holds_at_once() {
    let mut w = World::new(64, 8);
    w.retune_terrain(TerrainTuning { ground_decay: RateBand::new(0, 1, 1, 1), ..TerrainTuning::default() });
    w.ground_items.push(GroundItem { element: Element::Wood, quantity: 10_000, pos: at(3, 3) });
    w.decay_ground_items();
    assert_eq!(w.ground_items[0].quantity, 9_999);
    assert_eq!(w.terrain.cell(3, 3)[Element::Wood], 1);
}

#[test]
fn strength_stays_between_nothing_and_one_hundred() {
    let mut w = build(21, 24, 6);
    let log = InputLog::new();
    for _ in 0..400 {
        w.step(&log);
        assert!(w.entities.iter().all(|e| e.alive && (0..=100).contains(&e.hp)));
    }
}

#[test]
fn a_tick_leaves_the_tables_alone() {
    let mut w = build(22, 24, 3);
    let before = w.clone();
    for _ in 0..100 {
        w.step(&InputLog::new());
    }
    assert_eq!(w.races, before.races);
    assert_eq!(w.terrain_tuning, before.terrain_tuning);
    assert_eq!(w.ecology, before.ecology);
    assert_eq!(w.behavior, before.behavior);
    assert_eq!(w.propagation, before.propagation);
}

#[test]
fn a_longer_recording_extends_a_shorter_one() {
    let log = InputLog::new();
    let t = try_record(3, 16, 2, &log, 40).unwrap();
    let u = try_record(3, 16, 2, &log, 90).unwrap();
    assert_eq!(t.hashes[..], u.hashes[..40]);
    assert_eq!((t.seed, t.size, t.per_race, t.ticks()), (3, 16, 2, 40));
}
