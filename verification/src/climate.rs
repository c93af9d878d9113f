//! A per-cell background influx of each element, with seasons.
use crate::element::{element_at, Element, PerElement};
use crate::fx::min_int;
use crate::hash::{digest_u16s, fnv, le16, le64, Hashable, Hasher};
use crate::rand::{draw_below, law_draw_below_bound, rand_below, Channel};
use crate::terrain::{cell_index, lemma_cell_index, sat_u64, Terrain, TerrainV};
use vstd::prelude::*;

verus! {

#[derive(Clone, Copy, PartialEq, Eq, Debug)]
pub struct ClimateTuning {
    /// How much each element's base can vary from cell to cell: lowest and
    /// highest, both included.
    pub base_range: PerElement<(u16, u16)>,
    /// Added every terrain tick, whatever the season.
    pub floor: PerElement<u16>,
    /// Peak bonus of the element in season, scaled by the cell's base.
    pub season_peak: PerElement<u16>,
    /// Terrain ticks per season. Five seasons, one per element, make a lap.
    pub season_ticks: u64,
}

impl ClimateTuning {
    /// The shipped climate.
    pub open spec fn is_shipped(self) -> bool {
        &&& self.base_range@ == Seq::new(5, |i: int| (0u16, 40u16))
        &&& self.floor@ == Seq::new(5, |i: int| 1u16)
        &&& self.season_peak@ == Seq::new(5, |i: int| 3000u16)
        &&& self.season_ticks == 8640
    }
}

impl Default for ClimateTuning {
    fn default() -> (r: ClimateTuning)
        ensures
            r.is_shipped(),
    {
        ClimateTuning {
            base_range: PerElement::filled((0u16, 40u16)),
            floor: PerElement::filled(1u16),
            season_peak: PerElement::filled(3000u16),
            season_ticks: crate::race::TICKS_PER_DAY * 6 / crate::race::TERRAIN_PERIOD,
        }
    }
}

/// The state after hashing pairs in order.
pub open spec fn pairs_digest(h: u64, s: Seq<(u16, u16)>) -> u64
    decreases s.len(),
{
    if s.len() == 0 {
        h
    } else {
        fnv(fnv(pairs_digest(h, s.drop_last()), le16(s.last().0)), le16(s.last().1))
    }
}

impl Hashable for ClimateTuning {
    open spec fn digest(&self, h: u64) -> u64 {
        let h = pairs_digest(h, self.base_range@);
        let h = digest_u16s(h, self.floor@);
        let h = digest_u16s(h, self.season_peak@);
        fnv(h, le64(self.season_ticks))
    }

    fn hash_into(&self, h: &mut Hasher) {
        let ghost s = self.base_range@;
        let ghost start = h.0;
        let mut i: usize = 0;
        while i < 5
            invariant
                s == self.base_range@,
                i <= 5,
                h.0 == pairs_digest(start, s.take(i as int)),
            decreases 5 - i,
        {
            assert(s.take(i + 1).drop_last() =~= s.take(i as int));
            let (lo, hi): (u16, u16) = self.base_range.0[i];
            h.u16(lo).u16(hi);
            i = i + 1;
        }
        assert(s.take(5) =~= s);
        h.u16s(&self.floor.0).u16s(&self.season_peak.0).u64(self.season_ticks);
    }
}

/// How many values a range has, both ends included; a range that is upside
/// down has one.
pub open spec fn span(lo: u16, hi: u16) -> int {
    if hi < lo {
        1
    } else {
        hi - lo + 1
    }
}

/// The base of element number `e` in cell number `c`: drawn once, from the
/// place alone.
pub open spec fn geography(seed: u64, c: int, e: int, range: (u16, u16)) -> u16 {
    let salt = (c as u32).wrapping_mul(5).wrapping_add(e as u32);
    min_int(
        range.0 + draw_below(seed, 0, salt, Channel::Climate, span(range.0, range.1) as u32),
        65535,
    ) as u16
}

/// The bases of all cells.
#[derive(Clone, Debug)]
pub struct Climate {
    pub side: i32,
    pub base: Vec<PerElement<u16>>,
}

/// The length of a season, at least one terrain tick.
pub open spec fn season_len(t: ClimateTuning) -> int {
    if t.season_ticks == 0 {
        1
    } else {
        t.season_ticks as int
    }
}

/// The element in season.
pub open spec fn in_season(terrain_tick: u64, t: ClimateTuning) -> Element {
    element_at((terrain_tick as int / season_len(t)) % 5)
}

/// Half a season, at least one terrain tick.
pub open spec fn half_season(t: ClimateTuning) -> int {
    if season_len(t) / 2 < 1 {
        1
    } else {
        season_len(t) / 2
    }
}

/// A triangle wave over the season: up to the middle and down again.
pub open spec fn wave(terrain_tick: u64, t: ClimateTuning) -> int {
    let phase = terrain_tick as int % season_len(t);
    if phase <= half_season(t) {
        phase
    } else {
        season_len(t) - phase
    }
}

/// What the element in season gains on top of its floor, from a given base.
pub open spec fn bonus(base: u16, peak: u16, terrain_tick: u64, t: ClimateTuning) -> int {
    sat_u64(base * peak * wave(terrain_tick, t)) as int / half_season(t) / 1000
}

/// The influx of one element into a cell of the given base.
pub open spec fn influx(base: u16, e: Element, terrain_tick: u64, t: ClimateTuning) -> u16 {
    min_int(
        t.floor@[e.at()] + (if e == in_season(terrain_tick, t) {
            bonus(base, t.season_peak@[e.at()], terrain_tick, t)
        } else {
            0
        }),
        65535,
    ) as u16
}

/// The influx into a cell of the given bases.
pub open spec fn influxes(base: Seq<u16>, terrain_tick: u64, t: ClimateTuning) -> Seq<u16> {
    Seq::new(5, |e: int| influx(base[e], element_at(e), terrain_tick, t))
}

/// The grid after one influx.
pub open spec fn watered(g: TerrainV, c: Climate, terrain_tick: u64, t: ClimateTuning) -> TerrainV {
    TerrainV {
        cells: Seq::new(
            g.cells.len(),
            |i: int|
                Seq::new(
                    5,
                    |e: int|
                        min_int(
                            g.cells[i][e] + influxes(
                                c.base@[cell_index(c.side as int, i % g.side, i / g.side)]@,
                                terrain_tick,
                                t,
                            )[e],
                            65535,
                        ) as u16,
                ),
        ),
        ..g
    }
}

proof fn lemma_wave(terrain_tick: u64, t: ClimateTuning)
    ensures
        0 <= wave(terrain_tick, t) <= u64::MAX,
        1 <= half_season(t) <= u64::MAX,
{
    let (k, n) = (terrain_tick as int, season_len(t));
    assert(0 <= k % n < n) by (nonlinear_arith)
        requires
            n >= 1,
    ;
}

/// The floor is always on: whatever the season, each element gains at least
/// its floor, and one out of season gains exactly that.
pub proof fn law_floor_is_always_on(base: u16, e: Element, terrain_tick: u64, t: ClimateTuning)
    ensures
        influx(base, e, terrain_tick, t) >= t.floor@[e.at()],
        e != in_season(terrain_tick, t) ==> influx(base, e, terrain_tick, t) == t.floor@[e.at()],
        t.season_peak@[e.at()] == 0 ==> influx(base, e, terrain_tick, t) == t.floor@[e.at()],
{
    lemma_bonus(base, t.season_peak@[e.at()], terrain_tick, t);
}

proof fn lemma_bonus(base: u16, peak: u16, terrain_tick: u64, t: ClimateTuning)
    ensures
        0 <= base * peak * wave(terrain_tick, t) <= 65535 * 65535 * u64::MAX,
        0 <= bonus(base, peak, terrain_tick, t) <= u64::MAX,
        peak == 0 ==> bonus(base, peak, terrain_tick, t) == 0,
{
    lemma_wave(terrain_tick, t);
    let (b, p, w, h) = (base as int, peak as int, wave(terrain_tick, t), half_season(t));
    assert(0 <= b * p <= 65535 * 65535) by (nonlinear_arith)
        requires
            0 <= b <= 65535,
            0 <= p <= 65535,
    ;
    let bp = b * p;
    assert(0 <= bp * w <= 65535 * 65535 * 0xFFFF_FFFF_FFFF_FFFF) by (nonlinear_arith)
        requires
            0 <= bp <= 65535 * 65535,
            0 <= w <= 0xFFFF_FFFF_FFFF_FFFF,
    ;
    let x = sat_u64(bp * w) as int;
    assert(0 <= x / h <= x) by (nonlinear_arith)
        requires
            0 <= x,
            1 <= h,
    ;
    if p == 0 {
        assert(b * p == 0) by (nonlinear_arith)
            requires
                p == 0,
        ;
        assert(bp * w == 0) by (nonlinear_arith)
            requires
                bp == 0,
        ;
    }
}

/// One lap of five seasons puts each element in season once, in ring order.
pub proof fn law_seasons_go_round(terrain_tick: u64, t: ClimateTuning)
    requires
        terrain_tick + season_len(t) <= u64::MAX,
    ensures
        in_season((terrain_tick + season_len(t)) as u64, t) == element_at(
            (terrain_tick as int / season_len(t) + 1) % 5,
        ),
{
    let (k, n) = (terrain_tick as int, season_len(t));
    assert((k + n) / n == k / n + 1) by (nonlinear_arith)
        requires
            n >= 1,
            k >= 0,
    ;
}

impl Climate {
    /// The shape of a climate.
    pub open spec fn wf(self) -> bool {
        1 <= self.side <= 65535 && self.base@.len() == self.side * self.side
    }

    pub fn new(seed: u64, side_cells: i32, tuning: &ClimateTuning) -> (r: Climate)
        requires
            side_cells <= 65535,
        ensures
            r.wf(),
            r.side == (if side_cells < 1 {
                1
            } else {
                side_cells as int
            }),
            forall|c: int, e: int|
                0 <= c < r.base@.len() && 0 <= e < 5 ==> #[trigger] r.base@[c]@[e] == geography(
                    seed,
                    c,
                    e,
                    tuning.base_range@[e],
                ),
    {
        let side: i32 = if side_cells < 1 {
            1
        } else {
            side_cells
        };
        proof {
            crate::diffusion::lemma_grid(side as int);
        }
        let n: u32 = side as u32 * side as u32;
        let mut base: Vec<PerElement<u16>> = Vec::new();
        let mut cell: u32 = 0;
        while cell < n
            invariant
                cell <= n,
                base@.len() == cell,
                forall|c: int, e: int|
                    0 <= c < cell && 0 <= e < 5 ==> #[trigger] base@[c]@[e] == geography(
                        seed,
                        c,
                        e,
                        tuning.base_range@[e],
                    ),
            decreases n - cell,
        {
            let mut row: PerElement<u16> = PerElement::filled(0u16);
            let mut k: usize = 0;
            while k < 5
                invariant
                    k <= 5,
                    forall|e: int|
                        0 <= e < k ==> #[trigger] row@[e] == geography(
                            seed,
                            cell as int,
                            e,
                            tuning.base_range@[e],
                        ),
                decreases 5 - k,
            {
                let (lo, hi): (u16, u16) = tuning.base_range.0[k];
                let wide: u32 = if hi < lo {
                    1
                } else {
                    hi as u32 - lo as u32 + 1
                };
                let salt: u32 = cell.wrapping_mul(5).wrapping_add(k as u32);
                proof {
                    law_draw_below_bound(seed, 0, salt, Channel::Climate, wide);
                }
                let r: u32 = rand_below(seed, 0, salt, Channel::Climate, wide);
                let ghost before = row@;
                let v: u16 = lo.saturating_add(r as u16);
                assert(v == geography(seed, cell as int, k as int, tuning.base_range@[k as int]));
                row.set(Element::from_index(k), v);
                assert(row@ =~= before.update(k as int, v));
                k = k + 1;
            }
            base.push(row);
            cell = cell + 1;
        }
        Climate { side, base }
    }

    fn index(&self, x: i32, y: i32) -> (r: usize)
        requires
            self.wf(),
        ensures
            r == cell_index(self.side as int, x as int, y as int),
            r < self.base@.len(),
    {
        let yc: i32 = crate::tile::clamp_i32(y, 0, self.side - 1);
        let xc: i32 = crate::tile::clamp_i32(x, 0, self.side - 1);
        proof {
            lemma_cell_index(self.side as int, x as int, y as int);
            crate::diffusion::lemma_grid(self.side as int);
            assert(0 <= yc * self.side) by (nonlinear_arith)
                requires
                    0 <= yc,
                    1 <= self.side,
            ;
        }
        yc as usize * self.side as usize + xc as usize
    }

    /// The influx into the cell at `(x, y)`, coordinates clamped to the grid.
    pub fn influx_at(&self, x: i32, y: i32, terrain_tick: u64, t: &ClimateTuning) -> (r: PerElement<
        u16,
    >)
        requires
            self.wf(),
        ensures
            r@ == influxes(
                self.base@[cell_index(self.side as int, x as int, y as int)]@,
                terrain_tick,
                *t,
            ),
    {
        self.seasoned(&self.base[self.index(x, y)], terrain_tick, t)
    }

    /// The base of the cell at `(x, y)`, coordinates clamped to the grid.
    pub fn base_at(&self, x: i32, y: i32) -> (r: PerElement<u16>)
        requires
            self.wf(),
        ensures
            r@ == self.base@[cell_index(self.side as int, x as int, y as int)]@,
    {
        self.base[self.index(x, y)]
    }

    pub fn seasoned(&self, base: &PerElement<u16>, terrain_tick: u64, t: &ClimateTuning) -> (r:
        PerElement<u16>)
        ensures
            r@ == influxes(base@, terrain_tick, *t),
    {
        let len: u64 = if t.season_ticks == 0 {
            1
        } else {
            t.season_ticks
        };
        let now: Element = Element::from_index(((terrain_tick / len) % 5) as usize);
        let phase: u64 = terrain_tick % len;
        let half: u64 = if len / 2 < 1 {
            1
        } else {
            len / 2
        };
        let tri: u64 = if phase <= half {
            phase
        } else {
            len - phase
        };
        proof {
            lemma_wave(terrain_tick, *t);
        }
        let mut out: PerElement<u16> = PerElement::filled(0u16);
        let mut k: usize = 0;
        while k < 5
            invariant
                k <= 5,
                half == half_season(*t),
                1 <= half,
                tri == wave(terrain_tick, *t),
                now == in_season(terrain_tick, *t),
                forall|e: int|
                    0 <= e < k ==> #[trigger] out@[e] == influxes(base@, terrain_tick, *t)[e],
            decreases 5 - k,
        {
            let e: Element = Element::from_index(k);
            let mut v: u64 = t.floor.0[k] as u64;
            if e == now {
                let peak: u16 = t.season_peak.0[k];
                proof {
                    lemma_bonus(base@[k as int], peak, terrain_tick, *t);
                    let x = sat_u64(base@[k as int] * peak * tri) as int;
                    assert(0 <= x / half as int <= x) by (nonlinear_arith)
                        requires
                            0 <= x,
                            1 <= half,
                    ;
                    assert(base@[k as int] * peak <= 65535 * 65535) by (nonlinear_arith)
                        requires
                            base@[k as int] <= 65535,
                            peak <= 65535,
                    ;
                }
                let whole: u128 = (base.0[k] as u128 * peak as u128) * tri as u128;
                let bounded: u64 = if whole > u64::MAX as u128 {
                    u64::MAX
                } else {
                    whole as u64
                };
                v = v + bounded / half / 1000;
            }
            let v: u16 = if v > 65535 {
                65535
            } else {
                v as u16
            };
            assert(v == influx(base@[k as int], element_at(k as int), terrain_tick, *t));
            let ghost before = out@;
            out.set(e, v);
            assert(out@ =~= before.update(k as int, v));
            k = k + 1;
        }
        assert(out@ =~= influxes(base@, terrain_tick, *t));
        out
    }
}

/// Add one terrain tick's influx to every cell.
pub fn apply_influx(
    terrain: &mut Terrain,
    climate: &Climate,
    tuning: &ClimateTuning,
    terrain_tick: u64,
)
    requires
        old(terrain)@.wf(),
        climate.wf(),
    ensures
        final(terrain)@ == watered(old(terrain)@, *climate, terrain_tick, *tuning),
        final(terrain)@.wf(),
{
    let ghost g = terrain@;
    let ghost want = watered(g, *climate, terrain_tick, *tuning);
    let n: usize = terrain.cells.len();
    proof {
        crate::diffusion::lemma_grid(g.side);
    }
    let mut i: usize = 0;
    while i < n
        invariant
            i <= n,
            n == g.cells.len(),
            n <= u32::MAX,
            g.wf(),
            climate.wf(),
            want == watered(g, *climate, terrain_tick, *tuning),
            terrain@.side == g.side,
            terrain@.overflow == g.overflow,
            terrain.cells@.len() == n,
            forall|c: int|
                0 <= c < n ==> (#[trigger] terrain.cells@[c])@ == (if c < i {
                    want.cells[c]
                } else {
                    g.cells[c]
                }),
        decreases n - i,
    {
        proof {
            crate::diffusion::lemma_cell_split(g.side, i as int);
        }
        let side: u32 = terrain.side as u32;
        let x: i32 = (i as u32 % side) as i32;
        let y: i32 = (i as u32 / side) as i32;
        let gain: PerElement<u16> = climate.influx_at(x, y, terrain_tick, tuning);
        let mut cell: PerElement<u16> = terrain.cells[i];
        let ghost was = cell@;
        let mut k: usize = 0;
        while k < 5
            invariant
                k <= 5,
                was.len() == 5,
                forall|e: int|
                    0 <= e < 5 ==> #[trigger] cell@[e] == (if e < k {
                        min_int(was[e] + gain@[e], 65535) as u16
                    } else {
                        was[e]
                    }),
            decreases 5 - k,
        {
            let ghost before = cell@;
            let v: u16 = cell.0[k].saturating_add(gain.0[k]);
            assert(v == min_int(was[k as int] + gain@[k as int], 65535));
            cell.set(Element::from_index(k), v);
            assert(cell@ =~= before.update(k as int, v));
            k = k + 1;
        }
        assert(cell@ =~= want.cells[i as int]);
        terrain.cells[i] = cell;
        i = i + 1;
    }
    assert(terrain@.cells =~= want.cells);
}

} // verus!
