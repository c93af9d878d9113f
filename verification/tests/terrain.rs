use pentagram::apportion::apportion;
use pentagram::element::{Element, PerElement};
use pentagram::entity::Entity;
use pentagram::fx::{Fx, V2};
use pentagram::race::{attrs, Kind, Race, RateBand};
use pentagram::spatial::SpatialIndex;
use pentagram::terrain::{apply_diffusion, deposit_at, Terrain, TerrainTuning};
use std::collections::BTreeMap;

fn animal(e: Element) -> Race {
    Race { element: e, kind: Kind::Animal }
}

#[test]
fn new_terrain_is_all_zero() {
    let t = Terrain::new(8);
    for e in Element::ALL {
        assert_eq!(t.total(e), 0);
    }
}

#[test]
fn seed_uniform_sets_every_cell_of_one_element_and_leaves_the_rest_alone() {
    let mut t = Terrain::new(6);
    t.seed_uniform(Element::Earth, 1000);
    for y in 0..6i32 {
        for x in 0..6i32 {
            assert_eq!(t.cell(x, y)[Element::Earth], 1000, "every cell must hold exactly the seeded amount");
            for e in Element::ALL {
                if e != Element::Earth {
                    assert_eq!(t.cell(x, y)[e], 0, "{} must be untouched by seeding a different element", e.name());
                }
            }
        }
    }
}

#[test]
fn hash_changes_when_a_cell_changes() {
    let mut t = Terrain::new(8);
    let a = t.state_hash();
    t.cell_mut(3, 3)[Element::Fire] = 5;
    let b = t.state_hash();
    assert_ne!(a, b);
}

#[test]
fn apportion_weighted_sums_to_exactly_total() {
    let t = Terrain::new(8);
    let mut weight = BTreeMap::new();
    weight.insert(t.index(0, 0) as u32, 3);
    weight.insert(t.index(1, 0) as u32, 1);
    weight.insert(t.index(2, 0) as u32, 1);
    for total in [0u64, 1, 7, 100, 9_999] {
        let mut tt = Terrain::new(8);
        apportion(&mut tt, Element::Fire, total, &weight, 0xABC, 1, true, animal(Element::Fire));
        assert_eq!(tt.total(Element::Fire), total, "total={total}");
    }
}

#[test]
fn spatial_index_query_ring_finds_exactly_the_brute_force_candidates() {
    let terrain = Terrain::new(20);
    let race = Race { element: Element::Wood, kind: Kind::Animal };
    let a = &attrs(race);
    let mut entities = Vec::new();
    for seed in 0..200u64 {
        let x = Fx::from_int(((seed * 7919) % 20) as i32);
        let y = Fx::from_int(((seed * 104729) % 20) as i32);
        let mut e = Entity::spawn(seed as u32 + 1, Element::Wood, V2::new(x, y), seed, 0, a);
        e.alive = seed % 11 != 0;
        entities.push(e);
    }
    let index = SpatialIndex::build(&entities, &terrain);

    for trial in 0..50i32 {
        let cx = trial % 20;
        let cy = (trial * 3) % 20;
        let reach = Fx::ratio(300 + trial * 17, 100);
        let reach_sq = reach * reach;
        let center = V2::new(Fx::from_int(cx), Fx::from_int(cy));

        let mut brute: Vec<u32> = (0..entities.len())
            .filter(|&j| entities[j].alive && (entities[j].pos - center).len_sq() <= reach_sq)
            .map(|j| j as u32)
            .collect();
        brute.sort_unstable();

        let r = SpatialIndex::radius_cells(reach);
        let mut indexed: Vec<u32> = index
            .query_ring(cx, cy, r)
            .into_iter()
            .filter(|&j| {
                let e = &entities[j as usize];
                e.alive && (e.pos - center).len_sq() <= reach_sq
            })
            .collect();
        indexed.sort_unstable();

        assert_eq!(indexed, brute, "trial {trial}: cx={cx} cy={cy} reach={reach:?}");
    }
}

#[test]
fn apportion_uniform_fallback_sums_to_exactly_total() {
    let empty = BTreeMap::new();
    for total in [0u64, 1, 5, 1_000, 50_000] {
        let mut tt = Terrain::new(6);
        apportion(&mut tt, Element::Water, total, &empty, 0xDEF, 42, true, animal(Element::Water));
        assert_eq!(tt.total(Element::Water), total, "total={total}");
    }
}

#[test]
fn uniform_fallback_rotates_which_cell_wins_the_remainder() {
    let empty = BTreeMap::new();
    let mut winners = std::collections::BTreeSet::new();
    for tick in 0..20u64 {
        let mut t = Terrain::new(5);
        apportion(&mut t, Element::Earth, 26, &empty, 0x1234, tick, true, animal(Element::Earth));
        for y in 0..5 {
            for x in 0..5 {
                if t.cell(x, y)[Element::Earth] == 2 {
                    winners.insert((x, y));
                }
            }
        }
    }
    assert!(winners.len() > 1, "the remainder cell never rotated: {:?}", winners);
}

#[test]
fn apportion_decorrelates_two_races_sharing_the_same_element_layer() {
    let empty = BTreeMap::new();
    let mut winners = std::collections::BTreeSet::new();
    for kind in [Kind::Plant, Kind::Animal] {
        let race = Race { element: Element::Wood, kind };
        let mut t = Terrain::new(5);
        apportion(&mut t, Element::Wood, 26, &empty, 0x1234, 7, true, race);
        for y in 0..5 {
            for x in 0..5 {
                if t.cell(x, y)[Element::Wood] == 2 {
                    winners.insert((x, y));
                }
            }
        }
    }
    assert!(
        winners.len() > 1,
        "two races sharing the same element layer drew the identical fallback pattern: {:?}",
        winners
    );
}

#[test]
fn deposit_at_banks_a_saturated_cells_shortfall_instead_of_losing_it() {
    let race = Race { element: Element::Fire, kind: Kind::Animal };
    let mut t = Terrain::new(4);
    t.cell_mut(2, 2)[Element::Water] = u16::MAX - 5;
    let pos = V2::new(Fx::from_int(2), Fx::from_int(2));

    deposit_at(&mut t, race, Element::Water, 68_000, pos);

    assert_eq!(t.cell(2, 2)[Element::Water], u16::MAX, "the cell fills to exactly its ceiling, no more");
    assert_eq!(
        t.overflow_of(race, Element::Water),
        68_000 - 5,
        "everything the cell couldn't absorb must be banked under (race, element), not destroyed"
    );
}

#[test]
fn deposit_at_shortfall_stays_banked_even_after_headroom_reopens() {
    let race = Race { element: Element::Metal, kind: Kind::Plant };
    let mut t = Terrain::new(4);
    t.cell_mut(0, 0)[Element::Earth] = u16::MAX;
    let pos = V2::new(Fx::from_int(0), Fx::from_int(0));

    deposit_at(&mut t, race, Element::Earth, 500, pos);
    assert_eq!(t.overflow_of(race, Element::Earth), 500, "zero headroom banks the whole amount");

    t.cell_mut(0, 0)[Element::Earth] = 0;
    assert_eq!(t.overflow_of(race, Element::Earth), 500, "nothing drains the bank on its own");
    assert_eq!(t.cell(0, 0)[Element::Earth], 0, "and the reopened cell stays untouched -- no automatic retry lands here either");
}

#[test]
fn diffusion_conserves_total_mass_across_the_grid() {
    let mut t = Terrain::new(6);
    t.cell_mut(2, 2)[Element::Metal] = 60_000;
    t.cell_mut(4, 1)[Element::Metal] = 500;
    let before = t.total(Element::Metal);
    let tuning = TerrainTuning::default();
    for _ in 0..5 {
        apply_diffusion(&mut t, &tuning);
    }
    assert_eq!(t.total(Element::Metal), before, "diffusion must not create or destroy mass");
}

#[test]
fn diffusion_never_moves_further_than_one_cell_per_call() {
    let mut t = Terrain::new(9);
    t.cell_mut(4, 4)[Element::Water] = 60_000;
    let tuning = TerrainTuning { diffuse_rate: PerElement::filled(1000), diffuse_cap: PerElement::filled(60_000), ground_decay: RateBand::new(1, 1, 1, 1) };
    apply_diffusion(&mut t, &tuning);
    for y in 0..9i32 {
        for x in 0..9i32 {
            let manhattan = (x - 4).abs() + (y - 4).abs();
            if manhattan > 1 {
                assert_eq!(
                    t.cell(x, y)[Element::Water],
                    0,
                    "cell ({x},{y}) is more than one edge away from the source and must be untouched"
                );
            }
        }
    }
}

#[test]
fn diffusion_never_exceeds_the_flat_cap_per_edge() {
    let mut t = Terrain::new(4);
    t.cell_mut(0, 0)[Element::Wood] = 65_000;
    let tuning = TerrainTuning { diffuse_rate: PerElement::filled(1000), diffuse_cap: PerElement::filled(10), ground_decay: RateBand::new(1, 1, 1, 1) };
    apply_diffusion(&mut t, &tuning);

    assert!(t.cell(1, 0)[Element::Wood] <= 10);
    assert!(t.cell(0, 1)[Element::Wood] <= 10);
    assert!(t.cell(3, 0)[Element::Wood] <= 10, "west neighbour via wraparound");
    assert!(t.cell(0, 3)[Element::Wood] <= 10, "north neighbour via wraparound");
}

#[test]
fn diffusion_does_not_panic_at_extreme_tuning_values() {
    let mut t = Terrain::new(4);
    t.cell_mut(0, 0)[Element::Wood] = 65_535;
    let tuning = TerrainTuning {
        diffuse_rate: PerElement::filled(u16::MAX),
        diffuse_cap: PerElement::filled(u16::MAX),
        ground_decay: RateBand::new(1, 1, 1, 1),
    };
    apply_diffusion(&mut t, &tuning);
}

#[test]
fn diffusion_never_fabricates_mass_even_when_rate_exceeds_one_hundred_percent() {
    let mut t = Terrain::new(4);
    t.cell_mut(0, 0)[Element::Wood] = 40_000;
    let before = t.total(Element::Wood);
    let tuning = TerrainTuning {
        diffuse_rate: PerElement::filled(1500),
        diffuse_cap: PerElement::filled(60_000),
        ground_decay: RateBand::new(1, 1, 1, 1),
    };
    apply_diffusion(&mut t, &tuning);
    assert_eq!(t.total(Element::Wood), before, "diffusion must not create mass even at rate > 1000‰");
}

#[test]
fn diffusion_never_fabricates_mass_when_a_cell_has_four_simultaneous_outgoing_edges() {
    let mut t = Terrain::new(5);
    t.cell_mut(2, 2)[Element::Water] = 40_000;
    let before = t.total(Element::Water);
    let tuning = TerrainTuning {
        diffuse_rate: PerElement::filled(1000),
        diffuse_cap: PerElement::filled(u16::MAX),
        ground_decay: RateBand::new(1, 1, 1, 1),
    };
    apply_diffusion(&mut t, &tuning);
    assert_eq!(t.total(Element::Water), before, "diffusion must not create mass across a cell's combined edges");
    assert_eq!(t.cell(2, 2)[Element::Water], 0, "the source should be fully (not over-) drained");
}

#[test]
fn diffusion_respects_the_cap_on_a_side_two_torus() {
    let mut t = Terrain::new(2);
    t.cell_mut(0, 0)[Element::Metal] = 65_000;
    let before = t.total(Element::Metal);
    let tuning = TerrainTuning {
        diffuse_rate: PerElement::filled(1000),
        diffuse_cap: PerElement::filled(40),
        ground_decay: RateBand::new(1, 1, 1, 1),
    };
    apply_diffusion(&mut t, &tuning);
    assert!(t.cell(1, 0)[Element::Metal] <= 40, "east neighbour exceeded the cap: {}", t.cell(1, 0)[Element::Metal]);
    assert!(t.cell(0, 1)[Element::Metal] <= 40, "south neighbour exceeded the cap: {}", t.cell(0, 1)[Element::Metal]);
    assert_eq!(t.total(Element::Metal), before, "diffusion must not create mass on a side-2 torus either");
}

#[test]
fn diffusion_never_fabricates_mass_when_several_sources_overpack_one_destination() {
    let mut t = Terrain::new(5);
    t.cell_mut(2, 2)[Element::Fire] = u16::MAX - 10;
    t.cell_mut(1, 2)[Element::Fire] = u16::MAX;
    t.cell_mut(3, 2)[Element::Fire] = u16::MAX;
    t.cell_mut(2, 1)[Element::Fire] = u16::MAX;
    t.cell_mut(2, 3)[Element::Fire] = u16::MAX;
    let before = t.total(Element::Fire);
    let tuning = TerrainTuning { diffuse_rate: PerElement::filled(1000), diffuse_cap: PerElement::filled(1000), ground_decay: RateBand::new(1, 1, 1, 1) };

    apply_diffusion(&mut t, &tuning);

    let gained = t.cell(2, 2)[Element::Fire] - (u16::MAX - 10);
    assert!(gained >= 8, "destination should absorb nearly all of its 10 units of headroom, got {gained}");
    assert!(t.cell(2, 2)[Element::Fire] <= u16::MAX);
    assert_eq!(
        t.total(Element::Fire),
        before,
        "diffusion must not create or destroy mass even when several sources overpack one destination"
    );
}

#[test]
fn apportion_fallback_decorrelates_across_elements_and_channels() {
    let empty = BTreeMap::new();
    let mut winners = std::collections::BTreeSet::new();
    for e in Element::ALL {
        let mut t = Terrain::new(5);
        apportion(&mut t, e, 26, &empty, 0x1234, 7, true, animal(e));
        for y in 0..5 {
            for x in 0..5 {
                if t.cell(x, y)[e] == 2 {
                    winners.insert((x, y));
                }
            }
        }
    }
    assert!(
        winners.len() > 1,
        "every element's fallback remainder landed on the same cell: {:?}",
        winners
    );
}

#[test]
fn apportion_decorrelates_deposit_from_consume_for_the_same_element() {
    let empty = BTreeMap::new();
    let mut t_add = Terrain::new(5);
    apportion(&mut t_add, Element::Fire, 26, &empty, 0x1234, 7, true, animal(Element::Fire));
    let mut t_sub = Terrain::new(5);
    for y in 0..5 {
        for x in 0..5 {
            t_sub.cell_mut(x, y)[Element::Fire] = u16::MAX;
        }
    }
    apportion(&mut t_sub, Element::Fire, 26, &empty, 0x1234, 7, false, animal(Element::Fire));

    let winner = |t: &Terrain, target_amount: u16| {
        let mut found = None;
        for y in 0..5 {
            for x in 0..5 {
                if t.cell(x, y)[Element::Fire] == target_amount {
                    found = Some((x, y));
                }
            }
        }
        found
    };
    let add_winner = winner(&t_add, 2);
    let sub_winner = winner(&t_sub, u16::MAX - 2);
    assert!(add_winner.is_some() && sub_winner.is_some());
    assert_ne!(
        add_winner, sub_winner,
        "deposit and consume for the same element must not draw the identical fallback pattern"
    );
}
