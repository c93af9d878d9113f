//! The terrain field: five `u16` stocks per cell of a square grid.
//!
//! Terrain changes only through what bodies do (an action at the body's own
//! cell, or a direct single-cell return, [`deposit_at`]) and through bounded
//! diffusion. A write never exceeds what a cell can hold: what does not fit
//! is banked, so that no material is lost from the books.
use crate::diffusion::{diffuse, lemma_cell_bound, lemma_grid, Field};
use crate::element::{element_at, Element, PerElement};
use crate::fx::{min_int, V2};
use crate::hash::{digest_u16s, digest_u64s, fnv, le32, Hashable, Hasher, FNV_OFFSET};
use crate::race::{PerRace, Race, RateBand};
use crate::sums::{lemma_sum_update, sum_by};
use crate::text::{decimal_ascii, push_decimal_ascii};
use crate::tile::{clamp_i32, clamp_int};
use vstd::prelude::*;

verus! {

/// Element colours.
pub open spec fn colour(e: Element) -> (u8, u8, u8) {
    match e {
        Element::Wood => (127, 176, 105),
        Element::Fire => (226, 105, 74),
        Element::Earth => (211, 164, 69),
        Element::Metal => (173, 164, 206),
        Element::Water => (89, 160, 198),
    }
}

/// The colour an element is drawn in.
pub fn rgb(e: Element) -> (r: (u8, u8, u8))
    ensures
        r == colour(e),
{
    match e {
        Element::Wood => (127, 176, 105),
        Element::Fire => (226, 105, 74),
        Element::Earth => (211, 164, 69),
        Element::Metal => (173, 164, 206),
        Element::Water => (89, 160, 198),
    }
}

/// The rates that the terrain operators read.
#[derive(Clone, Copy, PartialEq, Debug)]
pub struct TerrainTuning {
    /// Per-mille of the difference between two neighbouring cells that moves
    /// across their edge each terrain tick.
    pub diffuse_rate: PerElement<u16>,
    /// The most that one edge carries in one terrain tick.
    pub diffuse_cap: PerElement<u16>,
    /// How much ground-dropped material may return to terrain per terrain tick.
    pub ground_decay: RateBand,
}

impl TerrainTuning {
    /// The shipped rates.
    pub open spec fn is_shipped(self) -> bool {
        &&& self.diffuse_rate@ == Seq::new(5, |i: int| 200u16)
        &&& self.diffuse_cap@ == Seq::new(5, |i: int| 40u16)
        &&& self.ground_decay == (RateBand {
            floor: 50,
            nominal: 200,
            ceiling: 2000,
            burst_ticks: 8,
        })
    }
}

impl Default for TerrainTuning {
    fn default() -> (r: TerrainTuning)
        ensures
            r.is_shipped(),
    {
        TerrainTuning {
            diffuse_rate: PerElement::filled(200u16),
            diffuse_cap: PerElement::filled(40u16),
            ground_decay: RateBand::new(50, 200, 2000, 8),
        }
    }
}

impl Hashable for TerrainTuning {
    open spec fn digest(&self, h: u64) -> u64 {
        let h = digest_u16s(h, self.diffuse_rate@);
        let h = digest_u16s(h, self.diffuse_cap@);
        self.ground_decay.digest(h)
    }

    fn hash_into(&self, h: &mut Hasher) {
        h.u16s(self.diffuse_rate.0.as_slice()).u16s(self.diffuse_cap.0.as_slice());
        self.ground_decay.hash_into(h);
    }
}

/// The grid, row by row: the cell at `(x, y)` is number `y * side + x`.
#[derive(Clone, Debug)]
pub struct Terrain {
    /// Cells per side.
    pub side: i32,
    pub cells: Vec<PerElement<u16>>,
    /// What a deposit could not fit into a full cell, by race and element.
    pub overflow: PerRace<PerElement<u64>>,
}

/// The value of a [`Terrain`].
#[verifier::ext_equal]
pub struct TerrainV {
    pub side: int,
    pub cells: Seq<Seq<u16>>,
    pub overflow: Seq<Seq<u64>>,
}

impl TerrainV {
    /// The shape of a grid whose cell numbers fit in a `u32`.
    pub open spec fn wf(self) -> bool {
        &&& 1 <= self.side <= 65535
        &&& self.cells.len() == self.side * self.side
        &&& forall|i: int| 0 <= i < self.cells.len() ==> (#[trigger] self.cells[i]).len() == 5
        &&& self.overflow.len() == 10
        &&& forall|i: int| 0 <= i < 10 ==> (#[trigger] self.overflow[i]).len() == 5
    }

    /// The stock of `e` in cell number `c`.
    pub open spec fn stock(self, c: int, e: Element) -> u16 {
        self.cells[c][e.at()]
    }

    /// The same grid with the stock of `e` in cell `c` replaced.
    pub open spec fn with_stock(self, c: int, e: Element, v: u16) -> TerrainV {
        TerrainV { cells: self.cells.update(c, self.cells[c].update(e.at(), v)), ..self }
    }

    /// The same grid with the amount banked for race `r` and element `e` replaced.
    pub open spec fn with_overflow(self, r: Race, e: Element, v: u64) -> TerrainV {
        TerrainV {
            overflow: self.overflow.update(r.at(), self.overflow[r.at()].update(e.at(), v)),
            ..self
        }
    }
}

/// Number of the cell at `(x, y)`, coordinates clamped to the grid.
pub open spec fn cell_index(side: int, x: int, y: int) -> int {
    clamp_int(y, 0, side - 1) * side + clamp_int(x, 0, side - 1)
}

/// Coordinates of the cell that a position falls in, clamped to the grid.
pub open spec fn cell_xy(side: int, pos: V2) -> (int, int) {
    (clamp_int(pos.x.floor(), 0, side - 1), clamp_int(pos.y.floor(), 0, side - 1))
}

/// Number of the cell that a position falls in.
pub open spec fn cell_at(side: int, pos: V2) -> int {
    cell_index(side, cell_xy(side, pos).0, cell_xy(side, pos).1)
}

/// Number of the cell that a number, which may lie beyond the grid, stands for:
/// a row beyond it is the last one.
pub open spec fn spot(side: int, index: u32) -> int {
    cell_index(side, index as int % side, index as int / side)
}

pub proof fn lemma_cell_index(side: int, x: int, y: int)
    requires
        1 <= side,
    ensures
        0 <= cell_index(side, x, y) < side * side,
{
    lemma_cell_bound(side, clamp_int(x, 0, side - 1), clamp_int(y, 0, side - 1));
}

/// The stock of one element in one cell, as a number.
pub open spec fn layer(e: int) -> spec_fn(Seq<u16>) -> int {
    |c: Seq<u16>| c[e] as int
}

/// All of one element on the grid.
pub open spec fn layer_total(t: TerrainV, e: int) -> int {
    sum_by(t.cells, layer(e))
}

/// All material in one cell.
pub open spec fn cell_mass() -> spec_fn(Seq<u16>) -> int {
    |c: Seq<u16>| c[0] + c[1] + c[2] + c[3] + c[4]
}

/// All material banked for one race.
pub open spec fn bank_mass() -> spec_fn(Seq<u64>) -> int {
    |c: Seq<u64>| c[0] + c[1] + c[2] + c[3] + c[4]
}

/// All material on the grid or banked.
pub open spec fn terrain_mass(t: TerrainV) -> int {
    sum_by(t.cells, cell_mass()) + sum_by(t.overflow, bank_mass())
}

/// What a deposit of `amount` puts into the cell: at most the room there is.
pub open spec fn deposit_applied(t: TerrainV, e: Element, amount: u64, pos: V2) -> int {
    min_int(amount as int, 65535 - t.stock(cell_at(t.side, pos), e))
}

pub open spec fn sat_u64(v: int) -> u64 {
    if v > u64::MAX {
        u64::MAX
    } else {
        v as u64
    }
}

/// The grid after `amount` of `e` is returned to the cell at `pos` on account
/// of race `r`: the cell takes what it has room for, the rest is banked.
pub open spec fn deposited(t: TerrainV, r: Race, e: Element, amount: u64, pos: V2) -> TerrainV {
    let c = cell_at(t.side, pos);
    let applied = deposit_applied(t, e, amount, pos);
    let u = t.with_stock(c, e, (t.stock(c, e) + applied) as u16);
    if amount > applied {
        u.with_overflow(r, e, sat_u64(t.overflow[r.at()][e.at()] + (amount - applied)))
    } else {
        u
    }
}

/// A deposit keeps the shape of the grid.
pub proof fn lemma_deposited_wf(t: TerrainV, r: Race, e: Element, amount: u64, pos: V2)
    requires
        t.wf(),
    ensures
        deposited(t, r, e, amount, pos).wf(),
        deposited(t, r, e, amount, pos).side == t.side,
{
    lemma_cell_index(t.side, cell_xy(t.side, pos).0, cell_xy(t.side, pos).1);
    crate::race::law_race_positions(r, 0);
    let c = cell_at(t.side, pos);
    let u = deposited(t, r, e, amount, pos);
    assert forall|i: int| 0 <= i < u.cells.len() implies (#[trigger] u.cells[i]).len() == 5 by {
        assert(t.cells[i].len() == 5);
        assert(t.cells[c].len() == 5);
    }
    assert forall|i: int| 0 <= i < 10 implies (#[trigger] u.overflow[i]).len() == 5 by {
        assert(t.overflow[i].len() == 5);
        assert(t.overflow[r.at()].len() == 5);
    }
}

/// A deposit adds exactly the deposited amount to the books.
pub proof fn law_deposit_is_conserved(t: TerrainV, r: Race, e: Element, amount: u64, pos: V2)
    requires
        t.wf(),
        terrain_mass(t) + amount <= u64::MAX,
    ensures
        terrain_mass(deposited(t, r, e, amount, pos)) == terrain_mass(t) + amount,
{
    let c = cell_at(t.side, pos);
    lemma_cell_index(t.side, cell_xy(t.side, pos).0, cell_xy(t.side, pos).1);
    let applied = deposit_applied(t, e, amount, pos);
    let cell = t.cells[c].update(e.at(), (t.stock(c, e) + applied) as u16);
    lemma_sum_update(t.cells, c, cell, cell_mass());
    let u = t.with_stock(c, e, (t.stock(c, e) + applied) as u16);
    lemma_terrain_mass_parts(t);
    if amount > applied {
        crate::race::law_race_positions(r, 0);
        let bank = t.overflow[r.at()];
        assert(bank_mass()(bank) <= sum_by(t.overflow, bank_mass()));
        assert(bank[e.at()] <= bank_mass()(bank));
        let v = sat_u64(bank[e.at()] + (amount - applied));
        lemma_sum_update(t.overflow, r.at(), bank.update(e.at(), v), bank_mass());
    }
}

/// Both parts of the mass are non-negative, and no race's bank exceeds its part.
pub proof fn lemma_terrain_mass_parts(t: TerrainV)
    requires
        t.wf(),
    ensures
        0 <= sum_by(t.cells, cell_mass()),
        0 <= sum_by(t.overflow, bank_mass()),
        forall|i: int|
            0 <= i < t.overflow.len() ==> bank_mass()(#[trigger] t.overflow[i]) <= sum_by(
                t.overflow,
                bank_mass(),
            ),
        forall|i: int|
            0 <= i < t.cells.len() ==> cell_mass()(#[trigger] t.cells[i]) <= sum_by(
                t.cells,
                cell_mass(),
            ),
{
    crate::sums::lemma_sum_bounds(t.cells, cell_mass());
    crate::sums::lemma_sum_bounds(t.overflow, bank_mass());
}

/// One layer of the grid, about to diffuse.
pub open spec fn layer_field(t: TerrainV, tuning: TerrainTuning, e: int) -> Field {
    Field {
        side: t.side,
        stock: Seq::new(t.cells.len(), |i: int| t.cells[i][e]),
        rate: tuning.diffuse_rate@[e] as int,
        cap: tuning.diffuse_cap@[e] as int,
    }
}

/// The grid after every layer has diffused.
pub open spec fn diffused(t: TerrainV, tuning: TerrainTuning) -> TerrainV {
    TerrainV {
        cells: Seq::new(
            t.cells.len(),
            |i: int| Seq::new(5, |e: int| layer_field(t, tuning, e).result()[i]),
        ),
        ..t
    }
}

impl View for Terrain {
    type V = TerrainV;

    open spec fn view(&self) -> TerrainV {
        TerrainV {
            side: self.side as int,
            cells: self.cell_views(),
            overflow: self.overflow_views(),
        }
    }
}

impl Terrain {
    pub open spec fn cell_views(&self) -> Seq<Seq<u16>> {
        Seq::new(self.cells@.len(), |i: int| self.cells@[i]@)
    }

    pub open spec fn overflow_views(&self) -> Seq<Seq<u64>> {
        Seq::new(10, |i: int| self.overflow@[i]@)
    }

    /// An empty grid of `side_cells` cells per side, at least one.
    pub fn new(side_cells: i32) -> (r: Terrain)
        requires
            side_cells <= 65535,
        ensures
            r@.wf(),
            r@.side == (if side_cells < 1 {
                1
            } else {
                side_cells as int
            }),
            forall|c: int, e: int|
                0 <= c < r@.cells.len() && 0 <= e < 5 ==> #[trigger] r@.cells[c][e] == 0,
            forall|i: int, e: int| 0 <= i < 10 && 0 <= e < 5 ==> #[trigger] r@.overflow[i][e] == 0,
    {
        let side: i32 = if side_cells < 1 {
            1
        } else {
            side_cells
        };
        proof {
            lemma_grid(side as int);
        }
        let n: usize = side as usize * side as usize;
        let mut cells: Vec<PerElement<u16>> = Vec::new();
        let mut i: usize = 0;
        while i < n
            invariant
                i <= n,
                cells@.len() == i,
                forall|c: int| 0 <= c < i ==> (#[trigger] cells@[c])@ == Seq::new(5, |e: int| 0u16),
            decreases n - i,
        {
            cells.push(PerElement::filled(0u16));
            i = i + 1;
        }
        let overflow: PerRace<PerElement<u64>> = PerRace::filled(PerElement::filled(0u64));
        let t = Terrain { side, cells, overflow };
        assert forall|i: int, e: int| 0 <= i < 10 && 0 <= e < 5 implies #[trigger] t@.overflow[i][e]
            == 0 by {
            assert(t.overflow@[i]@ == Seq::new(5, |e: int| 0u64));
        }
        t
    }

    pub fn index(&self, x: i32, y: i32) -> (r: usize)
        requires
            self@.wf(),
        ensures
            r == cell_index(self.side as int, x as int, y as int),
            r < self@.cells.len(),
            r <= u32::MAX,
    {
        proof {
            lemma_cell_index(self.side as int, x as int, y as int);
            lemma_grid(self.side as int);
            let yc = clamp_int(y as int, 0, self.side - 1);
            assert(0 <= yc * self.side) by (nonlinear_arith)
                requires
                    0 <= yc,
                    1 <= self.side,
            ;
        }
        let side: usize = self.side as usize;
        clamp_i32(y, 0, self.side - 1) as usize * side + clamp_i32(x, 0, self.side - 1) as usize
    }

    /// Coordinates of cell number `index`. Those of a number beyond the grid
    /// lie beyond it too.
    pub fn xy_of(&self, index: u32) -> (r: (i32, i32))
        requires
            self@.wf(),
        ensures
            index < self@.cells.len() ==> 0 <= r.0 < self.side && 0 <= r.1 < self.side
                && cell_index(self.side as int, r.0 as int, r.1 as int) == index,
            r.0 == index % self.side as u32,
            index / self.side as u32 <= i32::MAX ==> r.1 == index / self.side as u32,
            cell_index(self.side as int, r.0 as int, r.1 as int) == spot(self.side as int, index),
    {
        proof {
            if index < self@.cells.len() {
                crate::diffusion::lemma_cell_split(self.side as int, index as int);
            }
        }
        let side: u32 = self.side as u32;
        proof {
            if side >= 2 {
                assert(index / side <= i32::MAX) by (nonlinear_arith)
                    requires
                        side >= 2,
                        index <= u32::MAX,
                ;
            }
        }
        ((index % side) as i32, #[verifier::truncate] ((index / side) as i32))
    }

    /// Which cell a position falls in.
    pub fn cell_of(&self, pos: V2) -> (r: (i32, i32))
        requires
            self@.wf(),
        ensures
            r.0 == cell_xy(self.side as int, pos).0,
            r.1 == cell_xy(self.side as int, pos).1,
            0 <= r.0 < self.side,
            0 <= r.1 < self.side,
    {
        (
            clamp_i32(pos.x.floor_int(), 0, self.side - 1),
            clamp_i32(pos.y.floor_int(), 0, self.side - 1),
        )
    }

    /// Number of the cell that a position falls in.
    pub fn index_at(&self, pos: V2) -> (r: usize)
        requires
            self@.wf(),
        ensures
            r == cell_at(self.side as int, pos),
            r < self@.cells.len(),
            r <= u32::MAX,
    {
        let (x, y): (i32, i32) = self.cell_of(pos);
        self.index(x, y)
    }

    pub fn cell(&self, x: i32, y: i32) -> (r: &PerElement<u16>)
        requires
            self@.wf(),
        ensures
            r@ == self@.cells[cell_index(self.side as int, x as int, y as int)],
    {
        &self.cells[self.index(x, y)]
    }

    pub fn cell_mut(&mut self, x: i32, y: i32) -> (r: &mut PerElement<u16>)
        requires
            old(self)@.wf(),
        ensures
            r@ == old(self)@.cells[cell_index(old(self).side as int, x as int, y as int)],
            final(self)@ == (TerrainV {
                cells: old(self)@.cells.update(
                    cell_index(old(self).side as int, x as int, y as int),
                    final(r)@,
                ),
                ..old(self)@
            }),
            final(self).side == old(self).side,
    {
        let i: usize = self.index(x, y);
        &mut self.cells[i]
    }

    /// The stock of `e` where a position falls.
    pub fn stock_at(&self, pos: V2, e: Element) -> (r: u16)
        requires
            self@.wf(),
        ensures
            r == self@.stock(cell_at(self.side as int, pos), e),
    {
        let (x, y): (i32, i32) = self.cell_of(pos);
        *self.cell(x, y).get(e)
    }

    /// Replace the stock of `e` where a position falls.
    pub fn set_stock_at(&mut self, pos: V2, e: Element, v: u16)
        requires
            old(self)@.wf(),
        ensures
            final(self)@ == old(self)@.with_stock(cell_at(old(self).side as int, pos), e, v),
            final(self)@.wf(),
            final(self).side == old(self).side,
    {
        proof {
            lemma_cell_index(
                self.side as int,
                cell_xy(self.side as int, pos).0,
                cell_xy(self.side as int, pos).1,
            );
        }
        let (x, y): (i32, i32) = self.cell_of(pos);
        self.cell_mut(x, y).set(e, v);
    }

    /// Total of one element over the whole grid.
    pub fn total(&self, e: Element) -> (r: u64)
        requires
            self@.wf(),
        ensures
            r == layer_total(self@, e.at()),
    {
        let mut sum: u64 = 0;
        let mut i: usize = 0;
        let ghost cells = self@.cells;
        proof {
            lemma_grid(self.side as int);
        }
        while i < self.cells.len()
            invariant
                cells == self@.cells,
                cells.len() == self.cells@.len(),
                cells.len() <= 4294836225,
                i <= self.cells@.len(),
                sum == sum_by(cells.take(i as int), layer(e.at())),
                sum <= i * 65535,
            decreases self.cells.len() - i,
        {
            assert(cells.take(i + 1).drop_last() =~= cells.take(i as int));
            assert(cells[i as int] == self.cells@[i as int]@);
            sum = sum + *self.cells[i].get(e) as u64;
            i = i + 1;
        }
        assert(cells.take(i as int) =~= cells);
        sum
    }

    /// Set every cell's stock of `element` to `amount`.
    pub fn seed_uniform(&mut self, element: Element, amount: u16)
        ensures
            final(self)@ == (TerrainV {
                cells: Seq::new(
                    old(self)@.cells.len(),
                    |c: int| old(self)@.cells[c].update(element.at(), amount),
                ),
                ..old(self)@
            }),
            final(self).side == old(self).side,
    {
        let ghost before = self@;
        let mut i: usize = 0;
        while i < self.cells.len()
            invariant
                i <= self.cells@.len(),
                self.cells@.len() == before.cells.len(),
                self.side == before.side,
                self@.overflow == before.overflow,
                forall|c: int|
                    0 <= c < self.cells@.len() ==> (#[trigger] self.cells@[c])@ == (if c < i {
                        before.cells[c].update(element.at(), amount)
                    } else {
                        before.cells[c]
                    }),
            decreases self.cells.len() - i,
        {
            let mut cell: PerElement<u16> = self.cells[i];
            cell.set(element, amount);
            self.cells[i] = cell;
            i = i + 1;
        }
        assert(self@.cells =~= Seq::new(
            before.cells.len(),
            |c: int| before.cells[c].update(element.at(), amount),
        ));
    }

    pub fn state_hash(&self) -> (r: u64)
        ensures
            r == terrain_digest(FNV_OFFSET, self@),
    {
        let mut h = Hasher::new();
        self.hash_into(&mut h);
        h.finish()
    }

    /// What is banked for a race on its own element.
    pub fn overflow(&self, r: Race) -> (v: u64)
        ensures
            v == self@.overflow[r.at()][r.element.at()],
    {
        proof {
            crate::race::law_race_positions(r, 0);
        }
        *self.overflow.get(r).get(r.element)
    }

    /// What is banked for a race on element `e`.
    pub fn overflow_of(&self, r: Race, e: Element) -> (v: u64)
        ensures
            v == self@.overflow[r.at()][e.at()],
    {
        proof {
            crate::race::law_race_positions(r, 0);
        }
        *self.overflow.get(r).get(e)
    }
}

/// The state after hashing the cells in order.
pub open spec fn cells_digest(h: u64, s: Seq<Seq<u16>>) -> u64
    decreases s.len(),
{
    if s.len() == 0 {
        h
    } else {
        digest_u16s(cells_digest(h, s.drop_last()), s.last())
    }
}

/// The state after hashing the banks in order.
pub open spec fn banks_digest(h: u64, s: Seq<Seq<u64>>) -> u64
    decreases s.len(),
{
    if s.len() == 0 {
        h
    } else {
        digest_u64s(banks_digest(h, s.drop_last()), s.last())
    }
}

pub open spec fn terrain_digest(h: u64, t: TerrainV) -> u64 {
    let h = fnv(h, le32(t.side as i32 as u32));
    let h = cells_digest(h, t.cells);
    banks_digest(h, t.overflow)
}

impl Hashable for Terrain {
    open spec fn digest(&self, h: u64) -> u64 {
        terrain_digest(h, self@)
    }

    fn hash_into(&self, h: &mut Hasher) {
        h.i32(self.side);
        let ghost mid = h.0;
        let ghost cells = self@.cells;
        let ghost banks = self@.overflow;
        let mut i: usize = 0;
        while i < self.cells.len()
            invariant
                cells == self@.cells,
                cells.len() == self.cells@.len(),
                i <= self.cells@.len(),
                h.0 == cells_digest(mid, cells.take(i as int)),
            decreases self.cells.len() - i,
        {
            assert(cells.take(i + 1).drop_last() =~= cells.take(i as int));
            assert(cells[i as int] == self.cells@[i as int]@);
            h.u16s(self.cells[i].0.as_slice());
            i = i + 1;
        }
        assert(cells.take(i as int) =~= cells);
        let ghost mid2 = h.0;
        let mut j: usize = 0;
        while j < 10
            invariant
                banks == self@.overflow,
                j <= 10,
                h.0 == banks_digest(mid2, banks.take(j as int)),
            decreases 10 - j,
        {
            assert(banks.take(j + 1).drop_last() =~= banks.take(j as int));
            assert(banks[j as int] == self.overflow@[j as int]@);
            h.u64s(self.overflow.0[j].0.as_slice());
            j = j + 1;
        }
        assert(banks.take(j as int) =~= banks);
    }
}

/// Return `amount` of `e` to the cell at `pos` on account of race `race`. The
/// cell takes what it has room for and the rest is banked.
pub fn deposit_at(terrain: &mut Terrain, race: Race, e: Element, amount: u64, pos: V2)
    requires
        old(terrain)@.wf(),
    ensures
        final(terrain)@ == deposited(old(terrain)@, race, e, amount, pos),
        final(terrain)@.wf(),
        final(terrain).side == old(terrain).side,
{
    let ghost before = terrain@;
    proof {
        lemma_cell_index(before.side, cell_xy(before.side, pos).0, cell_xy(before.side, pos).1);
        crate::race::law_race_positions(race, 0);
    }
    if amount == 0 {
        proof {
            let c = cell_at(before.side, pos);
            assert(before.cells[c].update(e.at(), before.stock(c, e)) =~= before.cells[c]);
            assert(deposited(before, race, e, amount, pos) =~= before);
        }
        return ;
    }
    let stock: u16 = terrain.stock_at(pos, e);
    let headroom: u64 = (65_535 - stock) as u64;
    let applied: u64 = if amount < headroom {
        amount
    } else {
        headroom
    };
    terrain.set_stock_at(pos, e, stock + applied as u16);
    let shortfall: u64 = amount - applied;
    if shortfall > 0 {
        let mut bank: PerElement<u64> = *terrain.overflow.get(race);
        let banked: u64 = *bank.get(e);
        bank.set(e, banked.saturating_add(shortfall));
        terrain.overflow.set(race, bank);
        assert(terrain@ =~= deposited(before, race, e, amount, pos));
    }
}

/// Let every layer diffuse once.
pub fn apply_diffusion(terrain: &mut Terrain, tuning: &TerrainTuning)
    requires
        old(terrain)@.wf(),
    ensures
        final(terrain)@ == diffused(old(terrain)@, *tuning),
        final(terrain)@.wf(),
        final(terrain).side == old(terrain).side,
{
    let ghost before = terrain@;
    let n: usize = terrain.cells.len();
    let mut e: usize = 0;
    while e < 5
        invariant
            e <= 5,
            before.wf(),
            terrain@.wf(),
            terrain@.side == before.side,
            terrain@.overflow == before.overflow,
            terrain.cells@.len() == n,
            n == before.cells.len(),
            forall|i: int, k: int|
                0 <= i < n && 0 <= k < 5 ==> #[trigger] terrain.cells@[i]@[k] == (if k < e {
                    layer_field(before, *tuning, k).result()[i]
                } else {
                    before.cells[i][k]
                }),
        decreases 5 - e,
    {
        let el: Element = Element::from_index(e);
        let mut stock: Vec<u16> = Vec::new();
        let mut i: usize = 0;
        while i < n
            invariant
                i <= n,
                e < 5,
                el.at() == e,
                terrain.cells@.len() == n,
                stock@.len() == i,
                forall|c: int| 0 <= c < i ==> #[trigger] stock@[c] == terrain.cells@[c]@[e as int],
            decreases n - i,
        {
            stock.push(*terrain.cells[i].get(el));
            i = i + 1;
        }
        let ghost f = layer_field(before, *tuning, e as int);
        assert(stock@ =~= f.stock);
        let out: Vec<u16> = diffuse(
            &stock,
            terrain.side as u64,
            *tuning.diffuse_rate.get(el),
            *tuning.diffuse_cap.get(el),
        );
        assert(out@ == f.result());
        let ghost mid = terrain.cells@;
        i = 0;
        while i < n
            invariant
                i <= n,
                e < 5,
                el.at() == e,
                out@.len() == n,
                before.wf(),
                terrain@.side == before.side,
                terrain@.overflow == before.overflow,
                terrain.cells@.len() == n,
                mid.len() == n,
                forall|c: int, k: int|
                    0 <= c < n && 0 <= k < 5 ==> #[trigger] terrain.cells@[c]@[k] == (if c < i && k
                        == e {
                        out@[c]
                    } else {
                        mid[c]@[k]
                    }),
            decreases n - i,
        {
            let mut cell: PerElement<u16> = terrain.cells[i];
            cell.set(el, out[i]);
            terrain.cells[i] = cell;
            i = i + 1;
        }
        e = e + 1;
    }
    proof {
        let want = diffused(before, *tuning);
        assert forall|i: int| 0 <= i < n implies #[trigger] terrain@.cells[i] =~= want.cells[i] by {
            assert forall|k: int| 0 <= k < 5 implies terrain@.cells[i][k] == want.cells[i][k] by {
                assert(terrain.cells@[i]@[k] == layer_field(before, *tuning, k).result()[i]);
            }
        }
        assert(terrain@.cells =~= want.cells);
    }
}

/// Every layer keeps its total when the grid diffuses, and so does the whole.
pub proof fn law_diffusion_is_conserved(t: TerrainV, tuning: TerrainTuning, e: int)
    requires
        t.wf(),
        0 <= e < 5,
    ensures
        layer_total(diffused(t, tuning), e) == layer_total(t, e),
        terrain_mass(diffused(t, tuning)) == terrain_mass(t),
        diffused(t, tuning).wf(),
{
    lemma_layer_kept(t, tuning, e);
    lemma_layer_kept(t, tuning, 0);
    lemma_layer_kept(t, tuning, 1);
    lemma_layer_kept(t, tuning, 2);
    lemma_layer_kept(t, tuning, 3);
    lemma_layer_kept(t, tuning, 4);
    lemma_mass_by_layers(t.cells);
    lemma_mass_by_layers(diffused(t, tuning).cells);
}

proof fn lemma_layer_kept(t: TerrainV, tuning: TerrainTuning, e: int)
    requires
        t.wf(),
        0 <= e < 5,
    ensures
        layer_total(diffused(t, tuning), e) == layer_total(t, e),
{
    let f = layer_field(t, tuning, e);
    crate::diffusion::law_diffusion_conserves_mass(f);
    let g = |v: u16| v as int;
    let u = diffused(t, tuning);
    assert forall|i: int| 0 <= i < u.cells.len() implies layer(e)(#[trigger] u.cells[i]) == g(
        f.result()[i],
    ) by {}
    assert forall|i: int| 0 <= i < t.cells.len() implies layer(e)(#[trigger] t.cells[i]) == g(
        f.stock[i],
    ) by {}
    crate::sums::lemma_sum_eq(u.cells, f.result(), layer(e), g);
    crate::sums::lemma_sum_eq(t.cells, f.stock, layer(e), g);
}

/// The material in the cells is the five layers' totals together.
pub proof fn lemma_mass_by_layers(s: Seq<Seq<u16>>)
    ensures
        sum_by(s, cell_mass()) == sum_by(s, layer(0)) + sum_by(s, layer(1)) + sum_by(s, layer(2))
            + sum_by(s, layer(3)) + sum_by(s, layer(4)),
    decreases s.len(),
{
    if s.len() > 0 {
        lemma_mass_by_layers(s.drop_last());
    }
}

/// The sum of the stocks.
pub open spec fn blend_total(s: Seq<u64>) -> int {
    s[0] + s[1] + s[2] + s[3] + s[4]
}

/// The sum of the stocks, each weighted by one channel of its element's colour.
pub open spec fn blend_channel(s: Seq<u64>, ch: int) -> int {
    let w = |e: int|
        if ch == 0 {
            colour(element_at(e)).0 as int
        } else if ch == 1 {
            colour(element_at(e)).1 as int
        } else {
            colour(element_at(e)).2 as int
        };
    w(0) * s[0] + w(1) * s[1] + w(2) * s[2] + w(3) * s[3] + w(4) * s[4]
}

/// One pixel for five stocks: the mean of the elements' colours weighted by
/// them, or the background colour when all are zero.
pub open spec fn blend(s: Seq<u64>) -> (u8, u8, u8) {
    let total = blend_total(s);
    if total == 0 {
        (18, 18, 24)
    } else {
        (
            (blend_channel(s, 0) / total) as u8,
            (blend_channel(s, 1) / total) as u8,
            (blend_channel(s, 2) / total) as u8,
        )
    }
}

proof fn lemma_mean(a: int, total: int)
    requires
        0 <= a <= 255 * total,
        total > 0,
    ensures
        0 <= a / total <= 255,
{
    assert(0 <= a / total <= 255) by (nonlinear_arith)
        requires
            0 <= a <= 255 * total,
            total > 0,
    ;
}

pub fn blend_rgb(sat: &PerElement<u64>) -> (r: (u8, u8, u8))
    ensures
        r == blend(sat@),
{
    let mut total: u128 = 0;
    let mut r: u128 = 0;
    let mut g: u128 = 0;
    let mut b: u128 = 0;
    let s0: u128 = *sat.get(Element::Wood) as u128;
    let s1: u128 = *sat.get(Element::Fire) as u128;
    let s2: u128 = *sat.get(Element::Earth) as u128;
    let s3: u128 = *sat.get(Element::Metal) as u128;
    let s4: u128 = *sat.get(Element::Water) as u128;
    total = s0 + s1 + s2 + s3 + s4;
    r = 127 * s0 + 226 * s1 + 211 * s2 + 173 * s3 + 89 * s4;
    g = 176 * s0 + 105 * s1 + 164 * s2 + 164 * s3 + 160 * s4;
    b = 105 * s0 + 74 * s1 + 69 * s2 + 206 * s3 + 198 * s4;
    if total == 0 {
        return (18, 18, 24);
    }
    proof {
        lemma_mean(r as int, total as int);
        lemma_mean(g as int, total as int);
        lemma_mean(b as int, total as int);
    }
    ((r / total) as u8, (g / total) as u8, (b / total) as u8)
}

/// The header of a binary PPM image of `side` by `side` pixels.
pub open spec fn ppm_header(side: int) -> Seq<u8> {
    seq![80u8, 54u8, 10u8] + decimal_ascii(side) + seq![32u8] + decimal_ascii(side) + seq![
        10u8,
        50u8,
        53u8,
        53u8,
        10u8,
    ]
}

/// The three bytes of cell `c`'s pixel.
pub open spec fn pixel(t: TerrainV, c: int) -> Seq<u8> {
    let p = blend(Seq::new(5, |e: int| t.cells[c][e] as u64));
    seq![p.0, p.1, p.2]
}

/// The pixels of the first `n` cells.
pub open spec fn pixels(t: TerrainV, n: int) -> Seq<u8>
    decreases n,
{
    if n <= 0 {
        Seq::empty()
    } else {
        pixels(t, n - 1) + pixel(t, n - 1)
    }
}

/// One binary PPM frame of the terrain, one pixel per cell, row by row.
pub fn render_ppm(terrain: &Terrain) -> (out: Vec<u8>)
    requires
        terrain@.wf(),
    ensures
        out@ == ppm_header(terrain.side as int) + pixels(terrain@, terrain@.cells.len() as int),
{
    let mut out: Vec<u8> = Vec::new();
    let side: u64 = terrain.side as u64;
    out.push(80);
    out.push(54);
    out.push(10);
    push_decimal_ascii(&mut out, side);
    out.push(32);
    push_decimal_ascii(&mut out, side);
    out.push(10);
    out.push(50);
    out.push(53);
    out.push(53);
    out.push(10);
    assert(out@ =~= ppm_header(terrain.side as int));
    let ghost header = out@;
    let mut i: usize = 0;
    while i < terrain.cells.len()
        invariant
            i <= terrain.cells@.len(),
            terrain@.wf(),
            out@ == header + pixels(terrain@, i as int),
        decreases terrain.cells.len() - i,
    {
        let cell: PerElement<u16> = terrain.cells[i];
        let mut sat: PerElement<u64> = PerElement::filled(0u64);
        sat.set(Element::Wood, *cell.get(Element::Wood) as u64);
        sat.set(Element::Fire, *cell.get(Element::Fire) as u64);
        sat.set(Element::Earth, *cell.get(Element::Earth) as u64);
        sat.set(Element::Metal, *cell.get(Element::Metal) as u64);
        sat.set(Element::Water, *cell.get(Element::Water) as u64);
        assert(sat@ =~= Seq::new(5, |e: int| terrain@.cells[i as int][e] as u64));
        let (r, g, b): (u8, u8, u8) = blend_rgb(&sat);
        out.push(r);
        out.push(g);
        out.push(b);
        assert(out@ =~= header + pixels(terrain@, i + 1));
        i = i + 1;
    }
    out
}

} // verus!
