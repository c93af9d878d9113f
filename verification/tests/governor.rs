use pentagram::governor::Governor;
use pentagram::race::RateBand;
use pentagram::rand::{rand_below, Channel};
use pentagram::terrain::TerrainTuning;

fn band() -> RateBand {
    RateBand::new(100, 1000, 5000, 10)
}

#[test]
fn zero_demand_grants_nothing() {
    let mut g = Governor::new(band());
    for _ in 0..1000 {
        let grant = g.settle(0);
        assert_eq!(grant.granted, 0);
        assert_eq!(grant.forced, 0);
        assert_eq!(grant.clipped, 0);
    }
}

#[test]
fn floor_reserves_a_slice_of_the_bucket_from_being_spent_in_one_tick() {
    let b = RateBand::new(200, 1000, 100_000, 1);
    let mut g = Governor::new(b);
    let grant = g.settle(100_000);
    assert_eq!(
        grant.granted, 800,
        "bucket starts at nominal (1000); floor (200) must stay unspent"
    );
    assert_eq!(g.bucket(), 200, "the reserve itself must remain banked");
}

#[test]
fn ceiling_holds_against_unbounded_demand() {
    let mut g = Governor::new(band());
    for _ in 0..10_000 {
        let grant = g.settle(u64::MAX / 2);
        assert!(
            grant.granted <= 5000,
            "ceiling breached: {} > 5000",
            grant.granted
        );
    }
}

#[test]
fn granted_never_exceeds_the_ceiling_or_the_demand_for_any_pattern() {
    let b = band();
    let mut g = Governor::new(b);
    for t in 0..50_000u64 {
        let demand = match rand_below(0xABCD, t, 0, Channel::Governor, 10) {
            0..=5 => 0,
            6..=8 => rand_below(0xABCD, t, 1, Channel::Governor, 2000) as u64,
            _ => u64::from(u32::MAX),
        };
        let grant = g.settle(demand);
        assert!(
            grant.granted <= b.ceiling as u64 && grant.granted <= demand,
            "tick {}: granted {} outside [0, {}] or exceeded demand {}",
            t,
            grant.granted,
            b.ceiling,
            demand
        );
    }
}

#[test]
fn sustained_maximum_effort_converges_to_nominal() {
    let b = band();
    let mut g = Governor::new(b);
    let ticks = 20_000u64;
    let mut total = 0u64;
    for _ in 0..ticks {
        total += g.settle(u64::MAX / 2).granted;
    }
    let avg = total / ticks;
    assert!(
        avg >= b.nominal as u64 && avg <= (b.nominal as u64) * 105 / 100,
        "average {} should converge to nominal {}",
        avg,
        b.nominal
    );
}

#[test]
fn a_burst_is_available_then_spent() {
    let mut g = Governor::new(band());

    let first = g.settle(u64::MAX / 2);
    assert_eq!(first.granted, 5000);

    for _ in 0..50 {
        g.settle(u64::MAX / 2);
    }
    let settled = g.settle(u64::MAX / 2);
    assert_eq!(
        settled.granted, 1000,
        "after the bucket drains, throughput is nominal"
    );
}

#[test]
fn clipped_reports_refused_demand() {
    let mut g = Governor::new(band());
    for _ in 0..100 {
        g.settle(u64::MAX / 2);
    }
    let grant = g.settle(10_000);
    assert!(grant.clipped > 0, "over-demand should register as clipped");
    assert_eq!(grant.granted + grant.clipped, 10_000);
}

#[test]
fn forced_is_always_zero_now_that_the_floor_no_longer_forces_emission() {
    let mut g = Governor::new(band());
    for demand in [0u64, 500, 10_000, u64::from(u32::MAX)] {
        let grant = g.settle(demand);
        assert_eq!(grant.forced, 0, "demand {demand}");
    }
}

#[test]
fn the_shipped_ground_decay_band_survives_the_hostile_pattern() {
    let b = TerrainTuning::default().ground_decay;
    let mut g = Governor::new(b);
    for t in 0..5_000u64 {
        let demand = if rand_below(1, t, 0, Channel::Governor, 3) == 0 { 0 } else { u64::from(u32::MAX) };
        let grant = g.settle(demand);
        assert!(
            grant.granted <= b.ceiling as u64 && grant.granted <= demand,
            "tick {}: {} outside [0, {}] or exceeded demand {}",
            t,
            grant.granted,
            b.ceiling,
            demand
        );
    }
}

#[test]
fn forecast_bounds_hold_over_a_window() {
    let b = band();
    let mut g = Governor::new(b);
    let k = 500u64;
    let mut total = 0u64;
    for t in 0..k {
        total += g.settle(if t % 7 == 0 { 99_999 } else { 0 }).granted;
    }
    assert!(total <= (b.ceiling as u64) * k);
}
