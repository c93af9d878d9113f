//! Where bodies stand: how many of each race in each cell, and which bodies
//! near a cell.
use crate::diffusion::{lemma_cell_bound, lemma_grid};
use crate::entity::{views, Entity, EntityV};
use crate::fx::{abs_int, max_int, sat32, Fx, V2};
use crate::order::{
    is_sorted, Keyed, law_sorted_is_a_sorted_permutation, lemma_ascending_unique, sort,
};
use crate::race::{race_at, PerRace, Race};
use crate::terrain::{cell_at, cell_xy, lemma_cell_index, Terrain};
use crate::tile::clamp_int;
use std::collections::BTreeMap;
use vstd::prelude::*;

verus! {

/// How many living bodies of race `r` stand in cell `c`.
pub open spec fn crowd(ents: Seq<EntityV>, side: int, r: Race, c: int) -> int
    decreases ents.len(),
{
    if ents.len() == 0 {
        0
    } else {
        let e = ents.last();
        crowd(ents.drop_last(), side, r, c) + (if e.alive && e.race() == r && cell_at(side, e.pos)
            == c {
            1
        } else {
            0int
        })
    }
}

pub proof fn lemma_crowd_bound(ents: Seq<EntityV>, side: int, r: Race, c: int)
    ensures
        0 <= crowd(ents, side, r, c) <= ents.len(),
    decreases ents.len(),
{
    if ents.len() > 0 {
        lemma_crowd_bound(ents.drop_last(), side, r, c);
    }
}

/// For each race, the cells its living bodies stand in and how many in each.
pub struct Occupancy {
    pub weight: PerRace<BTreeMap<u32, u32>>,
    /// The bodies that were counted.
    pub bodies: Ghost<Seq<EntityV>>,
    /// The side of the grid they were counted on.
    pub side: Ghost<int>,
}

/// What `m` says of cell `c`.
pub open spec fn tally(m: Map<u32, u32>, c: u32) -> int {
    if m.contains_key(c) {
        m[c] as int
    } else {
        0
    }
}

/// The tallies are those of `ents` on a grid of the given side.
pub open spec fn tallies(weight: Seq<BTreeMap<u32, u32>>, ents: Seq<EntityV>, side: int) -> bool {
    forall|r: Race, c: u32| #[trigger] tally(weight[r.at()]@, c) == crowd(ents, side, r, c as int)
}

impl Occupancy {
    /// The tallies are those of the bodies that were counted.
    pub open spec fn wf(self) -> bool {
        tallies(self.weight@, self.bodies@, self.side@)
    }

    pub fn build(entities: &Vec<Entity>, terrain: &Terrain) -> (o: Occupancy)
        requires
            terrain@.wf(),
            entities@.len() <= u32::MAX,
        ensures
            o.wf(),
            o.bodies@ == views(entities@),
            o.side@ == terrain.side,
    {
        let mut weight: PerRace<BTreeMap<u32, u32>> = PerRace(
            [
                BTreeMap::new(),
                BTreeMap::new(),
                BTreeMap::new(),
                BTreeMap::new(),
                BTreeMap::new(),
                BTreeMap::new(),
                BTreeMap::new(),
                BTreeMap::new(),
                BTreeMap::new(),
                BTreeMap::new(),
            ],
        );
        let ghost all = views(entities@);
        let ghost side = terrain.side as int;
        proof {
            assert forall|r: Race, c: u32| #[trigger] tally(weight@[r.at()]@, c) == crowd(
                all.take(0),
                side,
                r,
                c as int,
            ) by {
                crate::race::law_race_positions(r, 0);
                assert(weight@[r.at()]@ == Map::<u32, u32>::empty());
            }
        }
        let mut i: usize = 0;
        while i < entities.len()
            invariant
                i <= entities@.len(),
                entities@.len() <= u32::MAX,
                terrain@.wf(),
                side == terrain.side,
                all == views(entities@),
                tallies(weight@, all.take(i as int), side),
            decreases entities.len() - i,
        {
            let ghost before = weight@;
            assert(all.take(i + 1).drop_last() =~= all.take(i as int));
            if entities[i].alive {
                let c: u32 = terrain.index_at(entities[i].pos) as u32;
                let race: Race = entities[i].race();
                proof {
                    crate::race::law_race_positions(race, 0);
                    lemma_crowd_bound(all.take(i as int), side, race, c as int);
                    assert(tally(before[race.at()]@, c) == crowd(
                        all.take(i as int),
                        side,
                        race,
                        c as int,
                    ));
                }
                let m: &mut BTreeMap<u32, u32> = weight.get_mut(race);
                let counted: u32 = match m.get(&c) {
                    Some(n) => *n,
                    None => 0,
                };
                m.insert(c, counted + 1);
                proof {
                    assert forall|r: Race, d: u32| #[trigger] tally(weight@[r.at()]@, d) == crowd(
                        all.take(i + 1),
                        side,
                        r,
                        d as int,
                    ) by {
                        crate::race::law_race_positions(r, 0);
                        assert(tally(before[r.at()]@, d) == crowd(
                            all.take(i as int),
                            side,
                            r,
                            d as int,
                        ));
                        if r.at() == race.at() {
                            assert(race_at(r.at()) == race_at(race.at()));
                        }
                    }
                }
            } else {
                proof {
                    assert forall|r: Race, d: u32| #[trigger] tally(weight@[r.at()]@, d) == crowd(
                        all.take(i + 1),
                        side,
                        r,
                        d as int,
                    ) by {
                        assert(tally(before[r.at()]@, d) == crowd(
                            all.take(i as int),
                            side,
                            r,
                            d as int,
                        ));
                    }
                }
            }
            i = i + 1;
        }
        assert(all.take(i as int) =~= all);
        Occupancy { weight, bodies: Ghost(all), side: Ghost(side) }
    }

    /// How many bodies of `race` stand in the cell numbered `cell_index`.
    pub fn count(&self, race: Race, cell_index: u32) -> (r: u32)
        requires
            self.wf(),
        ensures
            r == crowd(self.bodies@, self.side@, race, cell_index as int),
    {
        assert(tally(self.weight@[race.at()]@, cell_index) == crowd(
            self.bodies@,
            self.side@,
            race,
            cell_index as int,
        ));
        match self.weight.get(race).get(&cell_index) {
            Some(n) => *n,
            None => 0,
        }
    }
}

/// Body `j` is alive and stands in cell `c`.
pub open spec fn stands_in(ents: Seq<EntityV>, side: int, j: int, c: int) -> bool {
    ents[j].alive && cell_at(side, ents[j].pos) == c
}

/// How many of the first `n` bodies are alive and stand in cell `c`.
pub open spec fn rank(ents: Seq<EntityV>, side: int, c: int, n: int) -> int
    decreases n,
{
    if n <= 0 {
        0
    } else {
        rank(ents, side, c, n - 1) + (if stands_in(ents, side, n - 1, c) {
            1
        } else {
            0int
        })
    }
}

/// How many of the first `n` bodies are alive and stand in a cell before `c`.
pub open spec fn start(ents: Seq<EntityV>, side: int, c: int, n: int) -> int
    decreases c,
{
    if c <= 0 {
        0
    } else {
        start(ents, side, c - 1, n) + rank(ents, side, c - 1, n)
    }
}

proof fn lemma_rank_monotone(ents: Seq<EntityV>, side: int, c: int, m: int, n: int)
    requires
        0 <= m <= n,
    ensures
        0 <= rank(ents, side, c, m) <= rank(ents, side, c, n) <= n,
        m < n && stands_in(ents, side, m, c) ==> rank(ents, side, c, m) < rank(ents, side, c, n),
    decreases n,
{
    if m < n {
        lemma_rank_monotone(ents, side, c, m, n - 1);
    } else if n > 0 {
        lemma_rank_monotone(ents, side, c, n - 1, n - 1);
    }
}

proof fn lemma_start_step(ents: Seq<EntityV>, side: int, c: int, n: int)
    requires
        0 < n,
        0 <= c,
    ensures
        start(ents, side, c, n) == start(ents, side, c, n - 1) + (if ents[n - 1].alive && 0
            <= cell_at(side, ents[n - 1].pos) < c {
            1
        } else {
            0int
        }),
    decreases c,
{
    if c > 0 {
        lemma_start_step(ents, side, c - 1, n);
    }
}

proof fn lemma_start_bound(ents: Seq<EntityV>, side: int, c: int, n: int)
    requires
        0 <= n,
        0 <= c,
    ensures
        0 <= start(ents, side, c, n) <= n,
    decreases n,
{
    if n > 0 {
        lemma_start_bound(ents, side, c, n - 1);
        lemma_start_step(ents, side, c, n);
    } else {
        lemma_start_empty(ents, side, c);
    }
}

proof fn lemma_start_empty(ents: Seq<EntityV>, side: int, c: int)
    ensures
        start(ents, side, c, 0) == 0,
    decreases c,
{
    if c > 0 {
        lemma_start_empty(ents, side, c - 1);
    }
}

proof fn lemma_start_monotone(ents: Seq<EntityV>, side: int, c: int, d: int, n: int)
    requires
        0 <= c <= d,
        0 <= n,
    ensures
        start(ents, side, c, n) <= start(ents, side, d, n),
    decreases d,
{
    if c < d {
        lemma_start_monotone(ents, side, c, d - 1, n);
        lemma_rank_monotone(ents, side, d - 1, 0, n);
    }
}

/// Slot of body `j` in the packed list: bodies of earlier cells first, then
/// those of its own cell with smaller numbers.
pub open spec fn slot(ents: Seq<EntityV>, side: int, j: int) -> int {
    let c = cell_at(side, ents[j].pos);
    start(ents, side, c, ents.len() as int) + rank(ents, side, c, j)
}

proof fn lemma_slot_range(ents: Seq<EntityV>, side: int, j: int, cells: int)
    requires
        0 <= j < ents.len(),
        ents[j].alive,
        0 <= cell_at(side, ents[j].pos) < cells,
    ensures
        start(ents, side, cell_at(side, ents[j].pos), ents.len() as int) <= slot(ents, side, j),
        slot(ents, side, j) < start(
            ents,
            side,
            cell_at(side, ents[j].pos) + 1,
            ents.len() as int,
        ) <= start(ents, side, cells, ents.len() as int),
{
    let c = cell_at(side, ents[j].pos);
    let n = ents.len() as int;
    lemma_rank_monotone(ents, side, c, j, n);
    lemma_start_monotone(ents, side, c + 1, cells, n);
}

proof fn lemma_slots_differ(ents: Seq<EntityV>, side: int, j: int, k: int, cells: int)
    requires
        0 <= j < k < ents.len(),
        ents[j].alive,
        ents[k].alive,
        0 <= cell_at(side, ents[j].pos) < cells,
        0 <= cell_at(side, ents[k].pos) < cells,
    ensures
        slot(ents, side, j) != slot(ents, side, k),
{
    let (c, d) = (cell_at(side, ents[j].pos), cell_at(side, ents[k].pos));
    let n = ents.len() as int;
    lemma_slot_range(ents, side, j, cells);
    lemma_slot_range(ents, side, k, cells);
    if c == d {
        lemma_rank_monotone(ents, side, c, j, k);
    } else if c < d {
        lemma_start_monotone(ents, side, c + 1, d, n);
    } else {
        lemma_start_monotone(ents, side, d + 1, c, n);
    }
}

/// Every rank below the count of a cell is some body's.
proof fn lemma_rank_inverse(ents: Seq<EntityV>, side: int, c: int, n: int, t: int) -> (j: int)
    requires
        0 <= t < rank(ents, side, c, n),
    ensures
        0 <= j < n,
        stands_in(ents, side, j, c),
        rank(ents, side, c, j) == t,
    decreases n,
{
    if t == rank(ents, side, c, n - 1) {
        n - 1
    } else {
        lemma_rank_inverse(ents, side, c, n - 1, t)
    }
}

/// A grid of living bodies, held as one packed list: the bodies in cell `c`
/// are `packed[offsets[c]..offsets[c + 1]]`, ascending.
pub struct SpatialIndex {
    pub side: i32,
    pub offsets: Vec<u32>,
    pub packed: Vec<u32>,
}

/// Cell `(x, y)` is at most `r` columns and at most `r` rows from `(cx, cy)`.
pub open spec fn in_ring(x: int, y: int, cx: int, cy: int, r: int) -> bool {
    abs_int(x - cx) <= r && abs_int(y - cy) <= r
}

/// Body `j` is alive and its cell is within `r` of `(cx, cy)`.
pub open spec fn rings(ents: Seq<EntityV>, side: int, cx: int, cy: int, r: int, j: int) -> bool {
    &&& ents[j].alive
    &&& in_ring(cell_xy(side, ents[j].pos).0, cell_xy(side, ents[j].pos).1, cx, cy, r)
}

/// The living bodies among the first `n` whose cells are within `r` of
/// `(cx, cy)`, in ascending order.
pub open spec fn ring_upto(
    ents: Seq<EntityV>,
    side: int,
    cx: int,
    cy: int,
    r: int,
    n: int,
) -> Seq<u32>
    decreases n,
{
    if n <= 0 {
        Seq::empty()
    } else {
        let s = ring_upto(ents, side, cx, cy, r, n - 1);
        if rings(ents, side, cx, cy, r, n - 1) {
            s.push((n - 1) as u32)
        } else {
            s
        }
    }
}

/// All living bodies whose cells are within `r` of `(cx, cy)`, ascending.
pub open spec fn ring(ents: Seq<EntityV>, side: int, cx: int, cy: int, r: int) -> Seq<u32> {
    ring_upto(ents, side, cx, cy, max_int(r, 0), ents.len() as int)
}

proof fn lemma_ring_upto(ents: Seq<EntityV>, side: int, cx: int, cy: int, r: int, n: int)
    requires
        0 <= n <= ents.len() <= u32::MAX,
    ensures
        ({
            let s = ring_upto(ents, side, cx, cy, r, n);
            &&& forall|i: int, j: int| 0 <= i < j < s.len() ==> s[i] < s[j]
            &&& forall|i: int| 0 <= i < s.len() ==> #[trigger] s[i] < n
            &&& forall|x: u32|
                s.contains(x) <==> x < n && #[trigger] rings(ents, side, cx, cy, r, x as int)
        }),
    decreases n,
{
    if n > 0 {
        lemma_ring_upto(ents, side, cx, cy, r, n - 1);
        let p = ring_upto(ents, side, cx, cy, r, n - 1);
        let s = ring_upto(ents, side, cx, cy, r, n);
        assert forall|x: u32|
            s.contains(x) <==> x < n && #[trigger] rings(ents, side, cx, cy, r, x as int) by {
            if s.contains(x) {
                let i = s.index_of(x);
                if i < p.len() {
                    assert(p[i] == x);
                    assert(p.contains(x));
                }
            }
            if x < n && rings(ents, side, cx, cy, r, x as int) {
                if x < n - 1 {
                    assert(p.contains(x));
                    let i = p.index_of(x);
                    assert(s[i] == x);
                } else {
                    assert(s[p.len() as int] == x);
                }
            }
        }
    }
}

/// Every body in a ring is one of the list, alive and near enough.
pub proof fn lemma_ring_members(ents: Seq<EntityV>, side: int, cx: int, cy: int, r: int)
    requires
        ents.len() <= u32::MAX,
    ensures
        ({
            let s = ring(ents, side, cx, cy, r);
            &&& forall|i: int, j: int| 0 <= i < j < s.len() ==> s[i] < s[j]
            &&& forall|i: int|
                0 <= i < s.len() ==> #[trigger] s[i] < ents.len() && ents[s[i] as int].alive
            &&& forall|x: u32|
                s.contains(x) <==> x < ents.len() && #[trigger] rings(
                    ents,
                    side,
                    cx,
                    cy,
                    max_int(r, 0),
                    x as int,
                )
        }),
{
    lemma_ring_upto(ents, side, cx, cy, max_int(r, 0), ents.len() as int);
    let s = ring(ents, side, cx, cy, r);
    assert forall|i: int| 0 <= i < s.len() implies #[trigger] s[i] < ents.len()
        && ents[s[i] as int].alive by {
        assert(s.contains(s[i]));
        assert(rings(ents, side, cx, cy, max_int(r, 0), s[i] as int));
    }
}

impl SpatialIndex {
    /// The bodies in cell `(x, y)`.
    pub open spec fn at(self, x: int, y: int) -> Seq<u32> {
        self.packed@.subrange(
            self.offsets@[y * self.side + x] as int,
            self.offsets@[y * self.side + x + 1] as int,
        )
    }

    pub open spec fn on_grid(self, x: int, y: int) -> bool {
        0 <= x < self.side && 0 <= y < self.side
    }

    /// Every cell has a slice of the packed list, ascending, and no body is
    /// in two cells.
    pub open spec fn wf(self) -> bool {
        &&& 1 <= self.side <= 65535
        &&& self.offsets@.len() == self.side * self.side + 1
        &&& forall|c: int, d: int|
            0 <= c <= d < self.offsets@.len() ==> self.offsets@[c] <= self.offsets@[d]
        &&& self.offsets@[self.side * self.side] == self.packed@.len()
        &&& forall|x: int, y: int, i: int, j: int|
            self.on_grid(x, y) && 0 <= i < j < self.at(x, y).len() ==> (#[trigger] self.at(x, y)[i])
                < (#[trigger] self.at(x, y)[j])
        &&& forall|x: int, y: int, u: int, v: int, k: u32|
            self.on_grid(x, y) && self.on_grid(u, v) && #[trigger] self.at(x, y).contains(k)
                && #[trigger] self.at(u, v).contains(k) ==> x == u && y == v
    }

    /// The index holds exactly the living bodies of `ents`, each in its cell.
    pub open spec fn indexes(self, ents: Seq<EntityV>, side: int) -> bool {
        &&& self.wf()
        &&& self.side == side
        &&& ents.len() <= u32::MAX
        &&& forall|x: int, y: int, k: u32|
            self.on_grid(x, y) ==> (#[trigger] self.at(x, y).contains(k) <==> k < ents.len()
                && ents[k as int].alive && cell_xy(side, ents[k as int].pos) == (x, y))
    }

    /// Index every living body by its cell: count, sum up, then place.
    pub fn build(entities: &Vec<Entity>, terrain: &Terrain) -> (r: SpatialIndex)
        requires
            terrain@.wf(),
            entities@.len() <= u32::MAX,
        ensures
            r.indexes(views(entities@), terrain.side as int),
    {
        let ghost all = views(entities@);
        let ghost side = terrain.side as int;
        let ghost len = all.len() as int;
        proof {
            lemma_grid(side);
        }
        let cells: usize = terrain.side as usize * terrain.side as usize;
        let mut offsets: Vec<u32> = vec![0u32; cells + 1];
        let mut i: usize = 0;
        while i < entities.len()
            invariant
                i <= entities@.len(),
                entities@.len() <= u32::MAX,
                terrain@.wf(),
                side == terrain.side,
                all == views(entities@),
                cells == side * side,
                offsets@.len() == cells + 1,
                offsets@[0] == 0,
                forall|c: int|
                    0 <= c < cells ==> #[trigger] offsets@[c + 1] == rank(all, side, c, i as int),
            decreases entities.len() - i,
        {
            let ghost before = offsets@;
            assert(all[i as int] == entities@[i as int]@);
            if entities[i].alive {
                let c: usize = terrain.index_at(entities[i].pos);
                proof {
                    lemma_rank_monotone(all, side, c as int, i as int, i as int);
                    assert(before[c + 1] == rank(all, side, c as int, i as int));
                }
                offsets[c + 1] = offsets[c + 1] + 1;
            }
            proof {
                assert forall|c: int| 0 <= c < cells implies #[trigger] offsets@[c + 1] == rank(
                    all,
                    side,
                    c,
                    i + 1,
                ) by {
                    assert(before[c + 1] == rank(all, side, c, i as int));
                }
            }
            i = i + 1;
        }
        let mut c: usize = 1;
        proof {
            assert(start(all, side, 0, len) == 0);
            assert forall|d: int| 1 <= d <= cells implies #[trigger] offsets@[d] == rank(
                all,
                side,
                d - 1,
                len,
            ) by {
                assert(offsets@[(d - 1) + 1] == rank(all, side, d - 1, len));
            }
        }
        while c < offsets.len()
            invariant
                1 <= c <= offsets@.len(),
                len == all.len(),
                len <= u32::MAX,
                offsets@.len() == cells + 1,
                forall|d: int| 0 <= d < c ==> #[trigger] offsets@[d] == start(all, side, d, len),
                forall|d: int| c <= d <= cells ==> #[trigger] offsets@[d] == rank(all, side, d - 1, len),
            decreases offsets.len() - c,
        {
            proof {
                lemma_start_bound(all, side, c as int, len);
                assert(offsets@[c - 1] == start(all, side, c - 1, len));
                assert(offsets@[c as int] == rank(all, side, c - 1, len));
            }
            offsets[c] = offsets[c] + offsets[c - 1];
            c = c + 1;
        }
        let mut cursor: Vec<u32> = Vec::new();
        c = 0;
        while c < offsets.len()
            invariant
                c <= offsets@.len(),
                cursor@ == offsets@.take(c as int),
            decreases offsets.len() - c,
        {
            cursor.push(offsets[c]);
            assert(offsets@.take(c + 1) =~= offsets@.take(c as int).push(offsets@[c as int]));
            c = c + 1;
        }
        assert(cursor@ =~= offsets@);
        let mut packed: Vec<u32> = vec![0u32; offsets[cells] as usize];
        i = 0;
        while i < entities.len()
            invariant
                i <= entities@.len(),
                entities@.len() <= u32::MAX,
                terrain@.wf(),
                side == terrain.side,
                all == views(entities@),
                len == all.len(),
                cells == side * side,
                cursor@.len() == cells + 1,
                packed@.len() == start(all, side, cells as int, len),
                forall|c: int|
                    0 <= c < cells ==> #[trigger] cursor@[c] == start(all, side, c, len) + rank(
                        all,
                        side,
                        c,
                        i as int,
                    ),
                forall|j: int|
                    0 <= j < i && (#[trigger] all[j]).alive ==> 0 <= slot(all, side, j)
                        < packed@.len() && packed@[slot(all, side, j)] == j,
            decreases entities.len() - i,
        {
            let ghost before = packed@;
            let ghost marks = cursor@;
            assert(all[i as int] == entities@[i as int]@);
            if entities[i].alive {
                let c: usize = terrain.index_at(entities[i].pos);
                proof {
                    assert(marks[c as int] == slot(all, side, i as int));
                    lemma_slot_range(all, side, i as int, cells as int);
                    lemma_start_bound(all, side, c as int, len);
                    lemma_start_bound(all, side, cells as int, len);
                    assert forall|j: int| 0 <= j < i && (#[trigger] all[j]).alive implies slot(
                        all,
                        side,
                        j,
                    ) != slot(all, side, i as int) by {
                        let p = all[j].pos;
                        lemma_cell_index(side, cell_xy(side, p).0, cell_xy(side, p).1);
                        lemma_slots_differ(all, side, j, i as int, cells as int);
                    }
                }
                let at: usize = cursor[c] as usize;
                packed[at] = i as u32;
                cursor[c] = cursor[c] + 1;
            }
            proof {
                assert forall|c: int| 0 <= c < cells implies #[trigger] cursor@[c] == start(
                    all,
                    side,
                    c,
                    len,
                ) + rank(all, side, c, i + 1) by {
                    assert(marks[c] == start(all, side, c, len) + rank(all, side, c, i as int));
                }
            }
            i = i + 1;
        }
        let r = SpatialIndex { side: terrain.side, offsets, packed };
        proof {
            assert forall|c: int, d: int| 0 <= c <= d < r.offsets@.len() implies r.offsets@[c]
                <= r.offsets@[d] by {
                lemma_start_monotone(all, side, c, d, len);
                assert(r.offsets@[c] == start(all, side, c, len));
                assert(r.offsets@[d] == start(all, side, d, len));
            }
            assert(r.offsets@[cells as int] == start(all, side, cells as int, len));
            lemma_built(r, all, side);
        }
        r
    }

    /// A cell radius within which a search is sure to find whatever lies
    /// within `reach` of a point of the middle cell.
    pub fn radius_cells(reach: Fx) -> (r: i32)
        ensures
            r == spec_radius_cells(reach),
            2 <= r <= 32769,
    {
        reach.max(Fx::zero()).floor_int() + 2
    }

    /// Every living body whose cell is within `radius_cells` columns and rows
    /// of `(cx, cy)`, in ascending order.
    pub fn query_ring(&self, cx: i32, cy: i32, radius_cells: i32) -> (out: Vec<u32>)
        requires
            self.wf(),
        ensures
            forall|i: int, j: int| 0 <= i < j < out@.len() ==> out@[i] < out@[j],
            forall|k: u32|
                #[trigger] out@.contains(k) <==> exists|x: int, y: int|
                    #![trigger self.at(x, y)]
                    self.on_grid(x, y) && in_ring(
                        x,
                        y,
                        cx as int,
                        cy as int,
                        max_int(radius_cells as int, 0),
                    ) && self.at(x, y).contains(k),
            forall|ents: Seq<EntityV>| #[trigger]
                self.indexes(ents, self.side as int) ==> out@ == ring(
                    ents,
                    self.side as int,
                    cx as int,
                    cy as int,
                    radius_cells as int,
                ),
    {
        let r: i64 = if radius_cells > 0 {
            radius_cells as i64
        } else {
            0
        };
        let last: i64 = self.side as i64 - 1;
        let x0: i64 = if cx as i64 - r > 0 {
            cx as i64 - r
        } else {
            0
        };
        let x1: i64 = if cx as i64 + r < last {
            cx as i64 + r
        } else {
            last
        };
        let y0: i64 = if cy as i64 - r > 0 {
            cy as i64 - r
        } else {
            0
        };
        let y1: i64 = if cy as i64 + r < last {
            cy as i64 + r
        } else {
            last
        };
        let mut found: Vec<u32> = Vec::new();
        proof {
            lemma_grid(self.side as int);
        }
        let mut y: i64 = y0;
        while y <= y1
            invariant
                self.wf(),
                1 <= self.side * self.side <= 4294836225,
                0 <= x0,
                x1 < self.side,
                0 <= y0 <= y,
                y1 < self.side,
                y <= y1 + 1 || y == y0,
                found@.no_duplicates(),
                forall|k: u32|
                    #[trigger] found@.contains(k) <==> self.gathered(
                        x0 as int,
                        x1 as int,
                        y0 as int,
                        y as int,
                        x0 as int,
                        k,
                    ),
            decreases y1 + 1 - y,
        {
            let mut x: i64 = x0;
            while x <= x1
                invariant
                    self.wf(),
                    1 <= self.side * self.side <= 4294836225,
                    0 <= x0 <= x,
                    x1 < self.side,
                    x <= x1 + 1 || x == x0,
                    0 <= y0 <= y <= y1,
                    y1 < self.side,
                    found@.no_duplicates(),
                    forall|k: u32|
                        #[trigger] found@.contains(k) <==> self.gathered(
                            x0 as int,
                            x1 as int,
                            y0 as int,
                            y as int,
                            x as int,
                            k,
                        ),
                decreases x1 + 1 - x,
            {
                proof {
                    lemma_cell_bound(self.side as int, x as int, y as int);
                    assert(0 <= y * self.side) by (nonlinear_arith)
                        requires
                            0 <= y,
                            1 <= self.side,
                    ;
                }
                let c: usize = y as usize * self.side as usize + x as usize;
                let from: usize = self.offsets[c] as usize;
                let to: usize = self.offsets[c + 1] as usize;
                proof {
                    assert(self.offsets@[c as int] <= self.offsets@[c + 1]);
                    assert(self.offsets@[c + 1] <= self.offsets@[self.side * self.side]);
                }
                let ghost before = found@;
                let ghost here = self.at(x as int, y as int);
                let mut s: usize = from;
                while s < to
                    invariant
                        from <= s <= to <= self.packed@.len(),
                        here == self.packed@.subrange(from as int, to as int),
                        found@ == before + here.take(s - from),
                    decreases to - s,
                {
                    found.push(self.packed[s]);
                    assert(here.take(s + 1 - from) =~= here.take(s - from).push(
                        here[s - from],
                    ));
                    s = s + 1;
                }
                proof {
                    assert(here.take(s - from) =~= here);
                    self.lemma_gather_step(
                        x0 as int,
                        x1 as int,
                        y0 as int,
                        y as int,
                        x as int,
                        before,
                        found@,
                    );
                }
                x = x + 1;
            }
            proof {
                assert forall|k: u32| #[trigger] found@.contains(k) <==> self.gathered(
                    x0 as int,
                    x1 as int,
                    y0 as int,
                    y + 1,
                    x0 as int,
                    k,
                ) by {
                    self.lemma_row_done(
                        x0 as int,
                        x1 as int,
                        y0 as int,
                        y as int,
                        x as int,
                        k,
                    );
                }
            }
            y = y + 1;
        }
        let out: Vec<u32> = sort(&found);
        proof {
            law_sorted_is_a_sorted_permutation(found@);
            found@.lemma_multiset_has_no_duplicates();
            out@.lemma_multiset_has_no_duplicates_conv();
            assert forall|i: int, j: int| 0 <= i < j < out@.len() implies out@[i] < out@[j] by {
                assert(out@[i] != out@[j]);
                use_sorted(out@, i, j);
            }
            assert forall|k: u32|
                #[trigger] out@.contains(k) <==> exists|x: int, y: int|
                    #![trigger self.at(x, y)]
                    self.on_grid(x, y) && in_ring(
                        x,
                        y,
                        cx as int,
                        cy as int,
                        max_int(radius_cells as int, 0),
                    ) && self.at(x, y).contains(k) by {
                broadcast use vstd::seq_lib::group_to_multiset_ensures;

                assert(out@.contains(k) <==> out@.to_multiset().count(k) > 0);
                assert(found@.contains(k) <==> found@.to_multiset().count(k) > 0);
                if found@.contains(k) {
                    let (xx, yy) = choose|xx: int, yy: int|
                        #![trigger self.at(xx, yy)]
                        ((y0 <= yy < y && x0 <= xx <= x1) || (yy == y && x0 <= xx < x0))
                            && self.at(xx, yy).contains(k);
                    assert(self.on_grid(xx, yy));
                    assert(self.at(xx, yy).contains(k));
                }
            }
            assert forall|ents: Seq<EntityV>| #[trigger]
                self.indexes(ents, self.side as int) implies out@ == ring(
                ents,
                self.side as int,
                cx as int,
                cy as int,
                radius_cells as int,
            ) by {
                law_a_query_finds_the_ring(
                    *self,
                    ents,
                    self.side as int,
                    cx as int,
                    cy as int,
                    radius_cells as int,
                    out@,
                );
            }
        }
        out
    }

    /// Body `k` is in one of the cells visited so far: the rows from `y0` up
    /// to `y`, and in row `y` the columns up to `x`.
    pub open spec fn gathered(self, x0: int, x1: int, y0: int, y: int, x: int, k: u32) -> bool {
        exists|xx: int, yy: int|
            #![trigger self.at(xx, yy)]
            ((y0 <= yy < y && x0 <= xx <= x1) || (yy == y && x0 <= xx < x)) && self.at(
                xx,
                yy,
            ).contains(k)
    }

    proof fn lemma_gather_step(
        self,
        x0: int,
        x1: int,
        y0: int,
        y: int,
        x: int,
        before: Seq<u32>,
        after: Seq<u32>,
    )
        requires
            self.wf(),
            0 <= x0 <= x <= x1 < self.side,
            0 <= y0 <= y < self.side,
            before.no_duplicates(),
            forall|k: u32| #[trigger] before.contains(k) <==> self.gathered(x0, x1, y0, y, x, k),
            after == before + self.at(x, y),
        ensures
            after.no_duplicates(),
            forall|k: u32| #[trigger] after.contains(k) <==> self.gathered(x0, x1, y0, y, x + 1, k),
    {
        let here = self.at(x, y);
        assert forall|i: int, j: int| 0 <= i < j < after.len() implies after[i] != after[j] by {
            if j >= before.len() {
                let v = here[j - before.len()];
                assert(here.contains(v));
                if i < before.len() {
                    assert(before.contains(before[i]));
                    if before[i] == v {
                        let (xx, yy) = choose|xx: int, yy: int|
                            #![trigger self.at(xx, yy)]
                            ((y0 <= yy < y && x0 <= xx <= x1) || (yy == y && x0 <= xx < x))
                                && self.at(xx, yy).contains(v);
                        assert(self.at(xx, yy).contains(v));
                        assert(self.on_grid(xx, yy));
                        assert(self.on_grid(x, y));
                    }
                } else {
                    assert(self.on_grid(x, y));
                    assert(self.at(x, y)[i - before.len()] < self.at(x, y)[j - before.len()]);
                }
            }
        }
        assert forall|k: u32| #[trigger] after.contains(k) <==> self.gathered(
            x0,
            x1,
            y0,
            y,
            x + 1,
            k,
        ) by {
            if after.contains(k) {
                let i = after.index_of(k);
                if i < before.len() {
                    assert(before[i] == k);
                    assert(before.contains(k));
                    let (xx, yy) = choose|xx: int, yy: int|
                        #![trigger self.at(xx, yy)]
                        ((y0 <= yy < y && x0 <= xx <= x1) || (yy == y && x0 <= xx < x)) && self.at(
                            xx,
                            yy,
                        ).contains(k);
                    assert(self.at(xx, yy).contains(k));
                } else {
                    assert(here[i - before.len()] == k);
                    assert(self.at(x, y).contains(k));
                }
            }
            if self.gathered(x0, x1, y0, y, x + 1, k) {
                let (xx, yy) = choose|xx: int, yy: int|
                    #![trigger self.at(xx, yy)]
                    ((y0 <= yy < y && x0 <= xx <= x1) || (yy == y && x0 <= xx < x + 1)) && self.at(
                        xx,
                        yy,
                    ).contains(k);
                if xx == x && yy == y {
                    let i = here.index_of(k);
                    assert(after[before.len() + i] == k);
                } else {
                    assert(self.at(xx, yy).contains(k));
                    assert(self.gathered(x0, x1, y0, y, x, k));
                    assert(before.contains(k));
                    let i = before.index_of(k);
                    assert(after[i] == k);
                }
            }
        }
    }

    proof fn lemma_row_done(self, x0: int, x1: int, y0: int, y: int, x: int, k: u32)
        requires
            y0 <= y,
            x == x1 + 1 || (x == x0 && x0 > x1),
        ensures
            self.gathered(x0, x1, y0, y, x, k) <==> self.gathered(x0, x1, y0, y + 1, x0, k),
    {
        if self.gathered(x0, x1, y0, y, x, k) {
            let (xx, yy) = choose|xx: int, yy: int|
                #![trigger self.at(xx, yy)]
                ((y0 <= yy < y && x0 <= xx <= x1) || (yy == y && x0 <= xx < x)) && self.at(
                    xx,
                    yy,
                ).contains(k);
            assert(self.at(xx, yy).contains(k));
        }
        if self.gathered(x0, x1, y0, y + 1, x0, k) {
            let (xx, yy) = choose|xx: int, yy: int|
                #![trigger self.at(xx, yy)]
                ((y0 <= yy < y + 1 && x0 <= xx <= x1) || (yy == y + 1 && x0 <= xx < x0)) && self.at(
                    xx,
                    yy,
                ).contains(k);
            assert(self.at(xx, yy).contains(k));
        }
    }
}

pub open spec fn spec_radius_cells(reach: Fx) -> int {
    reach.spec_max(Fx(0)).floor() + 2
}

proof fn use_sorted(s: Seq<u32>, i: int, j: int)
    requires
        is_sorted(s),
        0 <= i < j < s.len(),
    ensures
        s[i] <= s[j],
{
    assert(s[i].key() <= s[j].key());
}

/// The index that counting and placing builds holds each living body in its cell.
proof fn lemma_built(r: SpatialIndex, all: Seq<EntityV>, side: int)
    requires
        1 <= side <= 65535,
        r.side == side,
        all.len() <= u32::MAX,
        r.offsets@.len() == side * side + 1,
        forall|c: int| 0 <= c <= side * side ==> #[trigger] r.offsets@[c] == start(
            all,
            side,
            c,
            all.len() as int,
        ),
        forall|c: int, d: int| 0 <= c <= d < r.offsets@.len() ==> r.offsets@[c] <= r.offsets@[d],
        r.packed@.len() == start(all, side, side * side, all.len() as int),
        forall|j: int|
            0 <= j < all.len() && (#[trigger] all[j]).alive ==> 0 <= slot(all, side, j)
                < r.packed@.len() && r.packed@[slot(all, side, j)] == j,
    ensures
        r.indexes(all, side),
{
    let n = all.len() as int;
    assert forall|x: int, y: int, k: u32| r.on_grid(x, y) implies (#[trigger] r.at(x, y).contains(k)
        <==> k < all.len() && all[k as int].alive && cell_xy(side, all[k as int].pos) == (x, y)) by {
        lemma_cell_bound(side, x, y);
        let c = y * side + x;
        assert(r.offsets@[c] == start(all, side, c, n));
        assert(r.offsets@[c + 1] == start(all, side, c, n) + rank(all, side, c, n));
        assert(r.offsets@[c + 1] <= r.offsets@[side * side]);
        if r.at(x, y).contains(k) {
            let t = r.at(x, y).index_of(k);
            let j = lemma_rank_inverse(all, side, c, n, t);
            lemma_standing(all, side, j, x, y);
            assert(all[j].alive);
            assert(slot(all, side, j) == start(all, side, c, n) + t);
        }
        if k < all.len() && all[k as int].alive && cell_xy(side, all[k as int].pos) == (x, y) {
            lemma_standing(all, side, k as int, x, y);
            lemma_slot_range(all, side, k as int, side * side);
            let t = slot(all, side, k as int) - start(all, side, c, n);
            assert(r.at(x, y)[t] == k);
        }
    }
    assert forall|x: int, y: int, i: int, j: int|
        r.on_grid(x, y) && 0 <= i < j < r.at(x, y).len() implies (#[trigger] r.at(x, y)[i]) < (
    #[trigger] r.at(x, y)[j]) by {
        lemma_cell_bound(side, x, y);
        let c = y * side + x;
        assert(r.offsets@[c] == start(all, side, c, n));
        assert(r.offsets@[c + 1] == start(all, side, c, n) + rank(all, side, c, n));
        assert(r.offsets@[c + 1] <= r.offsets@[side * side]);
        let a = lemma_rank_inverse(all, side, c, n, i);
        let b = lemma_rank_inverse(all, side, c, n, j);
        assert(all[a].alive && all[b].alive);
        assert(slot(all, side, a) == start(all, side, c, n) + i);
        assert(slot(all, side, b) == start(all, side, c, n) + j);
        if b <= a {
            lemma_rank_monotone(all, side, c, b, a);
        }
    }
    assert(0 <= side * side);
    assert(r.offsets@[side * side] == r.packed@.len());
}

/// Standing in cell number `y * side + x` is standing in cell `(x, y)`.
pub proof fn lemma_standing(ents: Seq<EntityV>, side: int, j: int, x: int, y: int)
    requires
        1 <= side,
        0 <= x < side,
        0 <= y < side,
    ensures
        cell_at(side, ents[j].pos) == y * side + x <==> cell_xy(side, ents[j].pos) == (x, y),
{
    let (u, v) = cell_xy(side, ents[j].pos);
    lemma_cell_bound(side, u, v);
    lemma_cell_bound(side, x, y);
}

/// What a query finds is the ring of the bodies that the index was built from:
/// every living body whose cell is near enough, none missed, none twice, in
/// ascending order.
pub proof fn law_a_query_finds_the_ring(
    index: SpatialIndex,
    ents: Seq<EntityV>,
    side: int,
    cx: int,
    cy: int,
    r: int,
    out: Seq<u32>,
)
    requires
        index.indexes(ents, side),
        forall|i: int, j: int| 0 <= i < j < out.len() ==> out[i] < out[j],
        forall|k: u32|
            #[trigger] out.contains(k) <==> exists|x: int, y: int|
                #![trigger index.at(x, y)]
                index.on_grid(x, y) && in_ring(x, y, cx, cy, max_int(r, 0)) && index.at(
                    x,
                    y,
                ).contains(k),
    ensures
        out == ring(ents, side, cx, cy, r),
        forall|k: u32|
            #[trigger] out.contains(k) <==> k < ents.len() && ents[k as int].alive && in_ring(
                cell_xy(side, ents[k as int].pos).0,
                cell_xy(side, ents[k as int].pos).1,
                cx,
                cy,
                max_int(r, 0),
            ),
{
    let s = ring(ents, side, cx, cy, r);
    lemma_ring_members(ents, side, cx, cy, r);
    assert forall|k: u32| out.contains(k) <==> s.contains(k) by {
        if out.contains(k) {
            let (x, y) = choose|x: int, y: int|
                #![trigger index.at(x, y)]
                index.on_grid(x, y) && in_ring(x, y, cx, cy, max_int(r, 0)) && index.at(
                    x,
                    y,
                ).contains(k);
            assert(index.at(x, y).contains(k));
            assert(rings(ents, side, cx, cy, max_int(r, 0), k as int));
        }
        if s.contains(k) {
            assert(rings(ents, side, cx, cy, max_int(r, 0), k as int));
            let (x, y) = cell_xy(side, ents[k as int].pos);
            assert(index.on_grid(x, y));
            assert(index.at(x, y).contains(k));
        }
    }
    lemma_ascending_unique(out, s);
    assert forall|k: u32| #[trigger] out.contains(k) <==> k < ents.len() && ents[k as int].alive
        && in_ring(
        cell_xy(side, ents[k as int].pos).0,
        cell_xy(side, ents[k as int].pos).1,
        cx,
        cy,
        max_int(r, 0),
    ) by {
        assert(s.contains(k) <==> k < ents.len() && rings(
            ents,
            side,
            cx,
            cy,
            max_int(r, 0),
            k as int,
        ));
    }
}

/// Along one axis, what is within `reach` by the squares is within `reach` and
/// a 256th of a cell.
proof fn lemma_axis(a: Fx, b: Fx, other: int, reach: Fx, side: int)
    requires
        reach.0 >= 0,
        reach.times(reach).0 < i32::MAX,
        0 <= other,
        sat32(b.minus(a).times(b.minus(a)).0 + other) <= reach.times(reach).0,
        1 <= side,
    ensures
        abs_int(
            clamp_int(b.floor(), 0, side - 1) - clamp_int(a.floor(), 0, side - 1),
        ) <= spec_radius_cells(reach),
{
    let d = b.minus(a).0 as int;
    let r = reach.0 as int;
    assert(0 <= d * d && 0 <= r * r) by (nonlinear_arith);
    assert(d * d / 65536 <= r * r / 65536);
    assert(d * d < r * r + 65536);
    assert(-(r + 256) < d < r + 256) by (nonlinear_arith)
        requires
            d * d < r * r + 65536,
            0 <= r,
    ;
    assert(r < 0x4000_0000) by (nonlinear_arith)
        requires
            r * r / 65536 < 0x7FFF_FFFF,
            0 <= r,
    ;
    assert(d == b.0 - a.0);
}

/// Two positions within `reach` of each other are in cells that are within as
/// many columns and rows as a ring for that reach has.
pub proof fn lemma_within_reach(a: V2, b: V2, reach: Fx, side: int)
    requires
        reach.0 >= 0,
        reach.times(reach).0 < i32::MAX,
        b.minus(a).spec_len_sq().0 <= reach.times(reach).0,
        1 <= side,
    ensures
        ({
            let (ax, ay) = cell_xy(side, a);
            let (bx, by) = cell_xy(side, b);
            &&& in_ring(bx, by, ax, ay, spec_radius_cells(reach))
            &&& in_ring(ax, ay, bx, by, spec_radius_cells(reach))
        }),
{
    let d = b.minus(a);
    let (x, y) = (d.x.0 as int, d.y.0 as int);
    assert(0 <= x * x && 0 <= y * y) by (nonlinear_arith);
    lemma_axis(a.x, b.x, d.y.times(d.y).0 as int, reach, side);
    lemma_axis(a.y, b.y, d.x.times(d.x).0 as int, reach, side);
}

/// A ring leaves nobody out: every living body within `reach` of a position is
/// in the ring around its cell, for any reach whose square can be held.
pub proof fn law_a_ring_leaves_nobody_out(
    ents: Seq<EntityV>,
    side: int,
    at: V2,
    reach: Fx,
    r: int,
    j: int,
)
    requires
        0 <= j < ents.len() <= u32::MAX,
        ents[j].alive,
        1 <= side,
        reach.0 >= 0,
        reach.times(reach).0 < i32::MAX,
        ents[j].pos.minus(at).spec_len_sq().0 <= reach.times(reach).0,
        r >= spec_radius_cells(reach),
    ensures
        ring(ents, side, cell_xy(side, at).0, cell_xy(side, at).1, r).contains(j as u32),
{
    let (cx, cy) = cell_xy(side, at);
    lemma_within_reach(at, ents[j].pos, reach, side);
    lemma_ring_members(ents, side, cx, cy, r);
    assert(rings(ents, side, cx, cy, max_int(r, 0), (j as u32) as int));
}

} // verus!
