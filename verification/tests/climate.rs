use pentagram::climate::{apply_influx, Climate, ClimateTuning};
use pentagram::element::{Element, PerElement};
use pentagram::hash::{Hashable, Hasher};
use pentagram::terrain::Terrain;

#[test]
fn is_pure_given_the_same_coordinates() {
    let c = Climate::new(7, 16, &ClimateTuning::default());
    let a = c.influx_at(3, 5, 100, &ClimateTuning::default());
    let b = c.influx_at(3, 5, 100, &ClimateTuning::default());
    assert_eq!(a, b);
}

#[test]
fn static_geography_does_not_vary_with_terrain_tick() {
    let t = ClimateTuning { season_peak: PerElement::filled(0), ..ClimateTuning::default() };
    let c = Climate::new(1, 8, &t);

    let a = c.influx_at(2, 2, 0, &t);
    let b = c.influx_at(2, 2, 999_999, &t);
    assert_eq!(a, b);
}

#[test]
fn floor_is_always_on_regardless_of_season() {
    let t = ClimateTuning { floor: PerElement::filled(5), season_peak: PerElement::filled(0), ..ClimateTuning::default() };
    let c = Climate::new(2, 4, &t);
    for tick in [0u64, 1, 8_640, 43_199] {
        let v = c.influx_at(0, 0, tick, &t);
        for e in Element::ALL {
            assert_eq!(v[e], 5, "floor missing at tick {tick}");
        }
    }
}

#[test]
fn season_advances_through_every_element_across_one_lap() {
    let t = ClimateTuning::default();
    let season_len = t.season_ticks;
    let mut seen = std::collections::BTreeSet::new();
    for lap_step in 0..Element::COUNT as u64 {
        let mid_season_tick = lap_step * season_len + season_len / 2;
        let in_season = Element::from_index(((mid_season_tick / season_len) % 5) as usize);
        seen.insert(in_season);
    }
    assert_eq!(seen.len(), 5, "one lap must touch every element exactly once");
}

#[test]
fn peak_bonus_only_applies_to_the_in_season_element() {
    let t = ClimateTuning {
        base_range: PerElement::filled((100, 100)),
        floor: PerElement::filled(0),
        season_peak: PerElement::filled(1000),
        season_ticks: 100,
    };
    let c = Climate::new(3, 4, &t);

    let mid = 50u64;
    let v = c.influx_at(0, 0, mid, &t);
    assert!(v[Element::Wood] > 0, "in-season element should get a bonus");
    for e in Element::ALL {
        if e != Element::Wood {
            assert_eq!(v[e], 0, "{:?} is out of season and floor is zero", e);
        }
    }
}

#[test]
fn apply_influx_touches_every_cell() {
    let tuning = ClimateTuning { floor: PerElement::filled(3), season_peak: PerElement::filled(0), ..ClimateTuning::default() };
    let climate = Climate::new(4, 5, &tuning);
    let mut terrain = Terrain::new(5);
    apply_influx(&mut terrain, &climate, &tuning, 1);
    for y in 0..5 {
        for x in 0..5 {
            for e in Element::ALL {
                assert_eq!(terrain.cell(x, y)[e], 3);
            }
        }
    }
}

#[test]
fn hash_changes_when_tuning_changes() {
    let mut h1 = Hasher::new();
    ClimateTuning::default().hash_into(&mut h1);
    let mut h2 = Hasher::new();
    let mut t = ClimateTuning::default();
    t.floor[Element::Wood] = 9;
    t.hash_into(&mut h2);
    assert_ne!(h1.finish(), h2.finish());
}

#[test]
fn full_width_base_range_span_is_computed_without_rounding_loss() {
    let (lo, hi): (u16, u16) = (0, u16::MAX);
    let span = (hi as u32).saturating_sub(lo as u32).saturating_add(1);
    assert_eq!(span, 65_536);
}

#[test]
fn full_width_base_range_can_actually_reach_its_documented_maximum() {
    let t = ClimateTuning { base_range: PerElement::filled((0, u16::MAX)), ..ClimateTuning::default() };
    let mut max_seen = 0u16;
    for seed in 0..20_000u64 {
        let c = Climate::new(seed, 4, &t);
        for y in 0..4i32 {
            for x in 0..4i32 {
                for e in Element::ALL {
                    max_seen = max_seen.max(c.base_at(x, y)[e]);
                }
            }
        }
    }
    assert_eq!(max_seen, u16::MAX, "the documented inclusive top of base_range must be reachable");
}

#[test]
fn geography_draw_does_not_panic_at_a_cell_count_that_would_overflow_u32_unwrapped() {
    let cell = u32::MAX / 5 + 10;
    let _ = cell.wrapping_mul(5).wrapping_add(4);
}
