//! The course of the seasons.
use crate::climate::{
    geography, half_season, in_season, influx, season_len, span, watered, wave, Climate,
    ClimateTuning,
};
use crate::element::{element_at, Element};
use crate::fx::min_int;
use crate::rand::{draw, law_draw_below_bound, Channel};
use crate::terrain::{sat_u64, TerrainV};
use vstd::prelude::*;

verus! {

/// Seasons follow the ring, one element after another, from its first; each
/// lasts the set number of terrain ticks.
pub proof fn law_seasons_follow_the_ring(terrain_tick: u64, t: ClimateTuning)
    requires
        t.season_ticks > 0,
    ensures
        in_season(terrain_tick, t).at() == (terrain_tick as int / t.season_ticks as int) % 5,
{
    let k = (terrain_tick as int / t.season_ticks as int) % 5;
    crate::element::law_ring_positions(element_at(k), k);
}

/// How far into its season a terrain tick is.
pub open spec fn into_season(terrain_tick: u64, t: ClimateTuning) -> int {
    terrain_tick as int % t.season_ticks as int
}

/// What an element gains in its season swells and ebbs: it begins at the floor,
/// rises until the middle of the season, is then up by the cell's base times the
/// peak in per-mille, and falls as it rose.
pub proof fn law_a_season_swells_and_ebbs(
    base: u16,
    e: Element,
    t: ClimateTuning,
    a: u64,
    b: u64,
)
    requires
        2 <= t.season_ticks <= 0x1_0000_0000,
        in_season(a, t) == e,
        in_season(b, t) == e,
    ensures
        ({
            let n = t.season_ticks as int;
            let (p, q) = (into_season(a, t), into_season(b, t));
            let floor = t.floor@[e.at()];
            let peak = t.season_peak@[e.at()];
            &&& p == 0 ==> influx(base, e, a, t) == floor
            &&& p <= q <= n / 2 ==> influx(base, e, a, t) <= influx(base, e, b, t)
            &&& p == n / 2 ==> influx(base, e, a, t) == min_int(floor + base * peak / 1000, 65535)
            &&& p > 0 && q == n - p ==> influx(base, e, a, t) == influx(base, e, b, t)
        }),
{
    let n = t.season_ticks as int;
    let h = n / 2;
    let (p, q) = (into_season(a, t), into_season(b, t));
    assert(0 <= p < n && 0 <= q < n) by (nonlinear_arith)
        requires
            p == a as int % n,
            q == b as int % n,
            n >= 1,
    ;
    let k = base * t.season_peak@[e.at()];
    assert(0 <= k <= 65535 * 65535) by (nonlinear_arith)
        requires
            k == base * t.season_peak@[e.at()],
            0 <= base <= 65535,
            0 <= t.season_peak@[e.at()] <= 65535,
    ;
    let (x, y) = (wave(a, t), wave(b, t));
    assert(0 <= x <= h + 1 && 0 <= y <= h + 1);
    assert(0 <= k * x <= 65535 * 65535 * 0x1_0000_0000) by (nonlinear_arith)
        requires
            0 <= k <= 65535 * 65535,
            0 <= x <= 0x1_0000_0000,
    ;
    assert(0 <= k * y <= 65535 * 65535 * 0x1_0000_0000) by (nonlinear_arith)
        requires
            0 <= k <= 65535 * 65535,
            0 <= y <= 0x1_0000_0000,
    ;
    let (u, v) = ((k * x) / h, (k * y) / h);
    lemma_ratio(k, x, h);
    lemma_ratio(k, y, h);
    if p <= q <= h {
        assert(k * x <= k * y) by (nonlinear_arith)
            requires
                0 <= k,
                x <= y,
        ;
        vstd::arithmetic::div_mod::lemma_div_is_ordered(k * x, k * y, h);
    }
    if p == 0 {
        assert(k * 0 == 0);
    }
    if p == h {
        vstd::arithmetic::div_mod::lemma_div_multiples_vanish(k, h);
        assert(k * h == h * k) by (nonlinear_arith);
    }
}

proof fn lemma_ratio(k: int, x: int, h: int)
    requires
        0 <= k,
        0 <= x,
        1 <= h,
    ensures
        0 <= (k * x) / h,
        x == 0 ==> (k * x) / h == 0,
{
    assert(0 <= k * x) by (nonlinear_arith)
        requires
            0 <= k,
            0 <= x,
    ;
    vstd::arithmetic::div_mod::lemma_div_pos_is_pos(k * x, h);
    if x == 0 {
        assert(k * x == 0) by (nonlinear_arith)
            requires
                x == 0,
        ;
        vstd::arithmetic::div_mod::lemma_div_of0(h);
    }
}

/// Better ground never gains less.
pub proof fn law_fertile_ground_gains_more(
    poor: u16,
    rich: u16,
    e: Element,
    t: ClimateTuning,
    terrain_tick: u64,
)
    requires
        poor <= rich,
    ensures
        influx(poor, e, terrain_tick, t) <= influx(rich, e, terrain_tick, t),
{
    let w = wave(terrain_tick, t);
    let h = half_season(t);
    let n = season_len(t);
    assert(0 <= terrain_tick as int % n < n) by (nonlinear_arith)
        requires
            n >= 1,
    ;
    let peak = t.season_peak@[e.at()] as int;
    assert(poor * peak <= rich * peak && 0 <= poor * peak) by (nonlinear_arith)
        requires
            0 <= poor <= rich,
            0 <= peak,
    ;
    let (a, b) = (poor * peak, rich * peak);
    assert(0 <= a * w <= b * w) by (nonlinear_arith)
        requires
            0 <= a <= b,
            0 <= w,
    ;
    vstd::arithmetic::div_mod::lemma_div_is_ordered(
        sat_u64(a * w) as int,
        sat_u64(b * w) as int,
        h,
    );
    vstd::arithmetic::div_mod::lemma_div_pos_is_pos(sat_u64(a * w) as int, h);
}

/// Every cell gains what its own base brings it this terrain tick, of each
/// element, as far as it has room; and nothing else changes.
pub proof fn law_every_cell_gets_its_own_weather(
    g: TerrainV,
    c: Climate,
    terrain_tick: u64,
    t: ClimateTuning,
    i: int,
    k: int,
)
    requires
        g.wf(),
        c.wf(),
        c.side == g.side,
        0 <= i < g.cells.len(),
        0 <= k < 5,
    ensures
        watered(g, c, terrain_tick, t).cells[i][k] == min_int(
            g.cells[i][k] + influx(c.base@[i]@[k], element_at(k), terrain_tick, t),
            65535,
        ),
        watered(g, c, terrain_tick, t).overflow == g.overflow,
        watered(g, c, terrain_tick, t).side == g.side,
{
    crate::diffusion::lemma_cell_split(g.side, i);
}

/// The base of a cell is drawn from the range of its element, the lower end and the
/// upper one included: it is as far into the range as the raw draw is into all that
/// it can be. Cells and elements draw each for themselves.
pub proof fn law_ground_is_drawn_from_its_range(seed: u64, c: int, e: int, lo: u16, hi: u16)
    requires
        lo <= hi,
        0 <= c < 0x3000_0000,
        0 <= e < 5,
    ensures
        ({
            let g = geography(seed, c, e, (lo, hi));
            let d = draw(seed, 0, (5 * c + e) as u32, Channel::Climate);
            &&& lo <= g <= hi
            &&& (g - lo) * 0x1_0000_0000 <= d * (hi - lo + 1) < (g - lo + 1) * 0x1_0000_0000
        }),
{
    let salt = (c as u32).wrapping_mul(5).wrapping_add(e as u32);
    assert(salt == 5 * c + e);
    law_draw_below_bound(seed, 0, salt, Channel::Climate, span(lo, hi) as u32);
}

} // verus!
