//! What an animal goes for, and what it shuns.
//!
//! Danger comes first, prey second; of all prey in reach an animal goes for
//! the nearest, and in danger it goes where there is least of what eats it.
use crate::behavior::{
    ai_decision, drive_of, in_danger, is_prey_of, nearest_by_cell, nearest_by_len, neighbour_4,
    neighbour_8, safest, stock_on, tile_of, worst, BehaviorTuning, Drive,
};
use crate::ecology::EcologyTuning;
use crate::element::Element;
use crate::entity::EntityV;
use crate::fx::{abs_int, isqrt, max_int, min_int, sat32, v2_zero, Fx, V2};
use crate::geometry::{along, law_a_unit_vector_points_along, lemma_isqrt_exists, square};
use crate::parting::gap;
use crate::race::Kind;
use crate::rand::{draw_below, law_draw_below_bound, Channel};
use crate::spatial::{lemma_ring_members, ring, rings, spec_radius_cells};
use crate::terrain::{cell_at, cell_xy, TerrainV};
use crate::tile::{chebyshev, Tile, NEIGHBOURS_4, NEIGHBOURS_8};
use vstd::prelude::*;

verus! {

// ----------------------------------------------------------------------
// Words.
// ----------------------------------------------------------------------

/// `b` comes right after `a` on the ring: `b` eats `a`.
pub open spec fn comes_after(a: Element, b: Element) -> bool {
    b.at() == (a.at() + 1) % 5
}

/// `e` lives on `o`: a plant of its own element, or an animal of the element
/// before its own on the ring.
pub open spec fn lives_on(e: EntityV, o: EntityV) -> bool {
    if o.kind == Kind::Plant {
        o.element == e.element
    } else {
        comes_after(o.element, e.element)
    }
}

/// The column or row of the grid that a coordinate falls in; the far edge
/// belongs to the last one.
pub open spec fn line_of(side: int, v: Fx) -> int {
    min_int(v.0 as int / 65536, side - 1)
}

/// The cell of the grid that a position on it falls in, row by row.
pub open spec fn under(side: int, p: V2) -> int {
    line_of(side, p.y) * side + line_of(side, p.x)
}

/// How far apart two positions are, in raw units, rounded down.
pub open spec fn far(a: V2, b: V2) -> int {
    min_int(isqrt(gap(a, b)), i32::MAX as int)
}

/// Where a race stands in a table by race.
pub open spec fn row_of(e: EntityV) -> int {
    e.element.at() * 2 + (if e.kind == Kind::Plant {
        0
    } else {
        1int
    })
}

/// A body stands in more of what eats it than its race bears.
pub open spec fn threatened(e: EntityV, t: TerrainV, tuning: BehaviorTuning) -> bool {
    t.cells[under(t.side, e.pos)][(e.element.at() + 1) % 5] > tuning.flee_threshold@[row_of(e)]
}

/// A body has gone without a meal for as long as it takes to want one.
pub open spec fn wants_food(e: EntityV, ecology: EcologyTuning) -> bool {
    e.hunger >= ecology.satiation@[e.element.at()]
}

/// Every body stands on the grid.
pub open spec fn all_on_grid(ents: Seq<EntityV>) -> bool {
    forall|m: int|
        0 <= m < ents.len() ==> (#[trigger] ents[m]).pos.x.0 >= 0 && ents[m].pos.y.0 >= 0
}

/// No two bodies have one id.
pub open spec fn ids_differ(ents: Seq<EntityV>) -> bool {
    forall|a: int, b: int|
        0 <= a < b < ents.len() ==> (#[trigger] ents[a]).id != (#[trigger] ents[b]).id
}

// ----------------------------------------------------------------------
// The plain words and the contracts' words say the same.
// ----------------------------------------------------------------------

proof fn lemma_prey_words(e: EntityV, o: EntityV)
    ensures
        is_prey_of(e, o) == lives_on(e, o),
{
}

pub(crate) proof fn lemma_under(side: int, p: V2)
    requires
        1 <= side,
        p.x.0 >= 0,
        p.y.0 >= 0,
    ensures
        cell_xy(side, p) == (line_of(side, p.x), line_of(side, p.y)),
        cell_at(side, p) == under(side, p),
        0 <= line_of(side, p.x) < side,
        0 <= line_of(side, p.y) < side,
{
}

proof fn lemma_threat_words(e: EntityV, t: TerrainV, tuning: BehaviorTuning)
    requires
        1 <= t.side,
        e.pos.x.0 >= 0,
        e.pos.y.0 >= 0,
    ensures
        in_danger(e, t, tuning) == threatened(e, t, tuning),
{
    lemma_under(t.side, e.pos);
}

pub(crate) proof fn lemma_far(a: V2, b: V2)
    requires
        a.x.0 >= 0,
        a.y.0 >= 0,
        b.x.0 >= 0,
        b.y.0 >= 0,
    ensures
        b.minus(a).spec_len().0 == far(a, b),
        0 <= far(a, b),
        abs_int(b.x.0 - a.x.0) <= far(a, b),
        abs_int(b.y.0 - a.y.0) <= far(a, b),
{
    let (dx, dy) = (b.x.0 - a.x.0, b.y.0 - a.y.0);
    let d = b.minus(a);
    assert(d.x.0 == dx && d.y.0 == dy);
    assert(dx * dx >= 0 && dy * dy >= 0) by (nonlinear_arith);
    lemma_isqrt_exists(gap(a, b));
    crate::fx::lemma_component_le_len(dx, dy, isqrt(gap(a, b)));
}

/// Cells of coordinates that are near enough are near enough.
proof fn lemma_lines_near(side: int, a: Fx, b: Fx, reach: Fx)
    requires
        1 <= side,
        a.0 >= 0,
        b.0 >= 0,
        abs_int(b.0 - a.0) <= reach.0,
    ensures
        abs_int(line_of(side, b) - line_of(side, a)) <= spec_radius_cells(reach),
{
}

// ----------------------------------------------------------------------
// The nearest prey, by straight-line distance.
// ----------------------------------------------------------------------

/// Body `j` is prey that body `i` can sense: alive, and within a reach.
pub open spec fn quarry(ents: Seq<EntityV>, i: int, j: int, reach: int) -> bool {
    &&& 0 <= j < ents.len()
    &&& j != i
    &&& ents[j].alive
    &&& lives_on(ents[i], ents[j])
    &&& far(ents[i].pos, ents[j].pos) <= reach
}

/// To body `i`, body `j` is nearer than body `k`, or as near and born earlier.
pub open spec fn sooner(ents: Seq<EntityV>, i: int, j: int, k: int) -> bool {
    let (a, b) = (far(ents[i].pos, ents[j].pos), far(ents[i].pos, ents[k].pos));
    a < b || (a == b && ents[j].id < ents[k].id)
}

proof fn lemma_nearest(ents: Seq<EntityV>, s: Seq<u32>, i: int, reach: Fx, k: int)
    requires
        0 <= i < ents.len(),
        0 <= k <= s.len(),
        all_on_grid(ents),
        ids_differ(ents),
        forall|m: int| 0 <= m < s.len() ==> #[trigger] s[m] < ents.len(),
    ensures
        match nearest_by_len(ents, s, i, reach, k) {
            None => forall|m: int|
                0 <= m < k ==> !quarry(ents, i, (#[trigger] s[m]) as int, reach.0 as int),
            Some(j) => {
                &&& quarry(ents, i, j, reach.0 as int)
                &&& forall|m: int|
                    0 <= m < k && quarry(ents, i, (#[trigger] s[m]) as int, reach.0 as int) && s[m]
                        != j ==> sooner(ents, i, j, s[m] as int)
            },
        },
    decreases k,
{
    if k > 0 {
        lemma_nearest(ents, s, i, reach, k - 1);
        let j = s[k - 1] as int;
        assert(s[k - 1] < ents.len());
        lemma_far(ents[i].pos, ents[j].pos);
        lemma_prey_words(ents[i], ents[j]);
        if let Some(b) = nearest_by_len(ents, s, i, reach, k - 1) {
            lemma_far(ents[i].pos, ents[b].pos);
            if b < j {
                assert(ents[b].id != ents[j].id);
            } else if j < b {
                assert(ents[j].id != ents[b].id);
            }
        }
    }
}

/// The heading that leads from one position to another: none between a
/// position and itself, else of length one, with the signs of the way to go,
/// and off it by no more than rounding.
pub open spec fn leads(a: V2, b: V2, h: Option<V2>) -> bool {
    let (dx, dy) = (b.x.0 - a.x.0, b.y.0 - a.y.0);
    match h {
        None => dx == 0 && dy == 0,
        Some(v) => {
            let c = dx * v.y.0 - dy * v.x.0;
            &&& dx != 0 || dy != 0
            &&& along(v.x.0 as int, dx)
            &&& along(v.y.0 as int, dy)
            &&& c * c <= dx * dx + dy * dy
            &&& 65536 * 65536 - 4 * 65536 - 2 <= square(v) <= 65536 * 65536 + 16
        },
    }
}

/// An animal flees exactly when it is threatened where it stands. Otherwise it
/// hunts exactly when it wants food and has living prey in reach, and it goes
/// for the nearest of them, the one born first among equally near ones: it
/// heads straight for it. Else it grazes, and wants no heading.
pub proof fn law_an_animal_goes_for_the_nearest_prey(
    ents: Seq<EntityV>,
    t: TerrainV,
    ecology: EcologyTuning,
    tuning: BehaviorTuning,
    i: int,
)
    requires
        t.wf(),
        0 <= i < ents.len() <= u32::MAX,
        all_on_grid(ents),
        ids_differ(ents),
    ensures
        ({
            let e = ents[i];
            let (d, h) = drive_of(ents, t, ecology, tuning, i);
            let reach = sat32(tuning.sense_radius@[row_of(e)] * 65536) as int;
            &&& d == Drive::Flee <==> threatened(e, t, tuning)
            &&& d == Drive::Hunt <==> !threatened(e, t, tuning) && wants_food(e, ecology)
                && exists|j: int| quarry(ents, i, j, reach)
            &&& d == Drive::Hunt ==> exists|j: int|
                {
                    &&& #[trigger] quarry(ents, i, j, reach)
                    &&& forall|k: int|
                        #[trigger] quarry(ents, i, k, reach) && k != j ==> sooner(ents, i, j, k)
                    &&& leads(e.pos, ents[j].pos, h)
                }
            &&& d == Drive::Graze ==> h is None
        }),
{
    let e = ents[i];
    assert(e.pos.x.0 >= 0 && e.pos.y.0 >= 0);
    lemma_threat_words(e, t, tuning);
    let at = tile_of(t.side, e);
    lemma_under(t.side, e.pos);
    let sense = tuning.sense_radius@[e.race().at()] as int;
    let reach = Fx::of_int(sense);
    let r = spec_radius_cells(reach);
    let near = ring(ents, t.side, at.x as int, at.y as int, r);
    lemma_ring_members(ents, t.side, at.x as int, at.y as int, r);
    lemma_nearest(ents, near, i, reach, near.len() as int);
    assert forall|j: int| #[trigger] quarry(ents, i, j, reach.0 as int) implies near.contains(
        j as u32,
    ) by {
        let o = ents[j];
        assert(o.pos.x.0 >= 0 && o.pos.y.0 >= 0);
        lemma_far(e.pos, o.pos);
        lemma_under(t.side, o.pos);
        lemma_lines_near(t.side, e.pos.x, o.pos.x, reach);
        lemma_lines_near(t.side, e.pos.y, o.pos.y, reach);
        assert(rings(ents, t.side, at.x as int, at.y as int, max_int(r, 0), (j as u32) as int));
    }
    let found = nearest_by_len(ents, near, i, reach, near.len() as int);
    match found {
        None => {
            assert forall|j: int| !(#[trigger] quarry(ents, i, j, reach.0 as int)) by {
                if quarry(ents, i, j, reach.0 as int) {
                    assert(near.contains(j as u32));
                    let m = near.index_of(j as u32);
                    assert(!quarry(ents, i, near[m] as int, reach.0 as int));
                }
            }
        },
        Some(j) => {
            assert forall|k: int| #[trigger] quarry(ents, i, k, reach.0 as int) && k
                != j implies sooner(ents, i, j, k) by {
                assert(near.contains(k as u32));
                let m = near.index_of(k as u32);
                assert(quarry(ents, i, near[m] as int, reach.0 as int));
            }
            let o = ents[j];
            assert(o.pos.x.0 >= 0 && o.pos.y.0 >= 0);
            let d = o.pos.minus(e.pos);
            if d != v2_zero() {
                law_a_unit_vector_points_along(d);
            }
        },
    }
}

// ----------------------------------------------------------------------
// The nearest prey, by cells.
// ----------------------------------------------------------------------

/// How many king's moves apart the cells of two positions are.
pub open spec fn moves_apart(side: int, a: V2, b: V2) -> int {
    max_int(
        abs_int(line_of(side, b.x) - line_of(side, a.x)),
        abs_int(line_of(side, b.y) - line_of(side, a.y)),
    )
}

/// Body `j` is prey that body `i` can sense by cells.
pub open spec fn quarry_by_cell(
    ents: Seq<EntityV>,
    side: int,
    i: int,
    j: int,
    reach: int,
) -> bool {
    &&& 0 <= j < ents.len()
    &&& j != i
    &&& ents[j].alive
    &&& lives_on(ents[i], ents[j])
    &&& moves_apart(side, ents[i].pos, ents[j].pos) <= reach
}

/// To body `i`, body `j` is fewer moves away than body `k`, or as many and
/// born earlier.
pub open spec fn sooner_by_cell(ents: Seq<EntityV>, side: int, i: int, j: int, k: int) -> bool {
    let a = moves_apart(side, ents[i].pos, ents[j].pos);
    let b = moves_apart(side, ents[i].pos, ents[k].pos);
    a < b || (a == b && ents[j].id < ents[k].id)
}

proof fn lemma_moves_apart(side: int, a: EntityV, b: EntityV)
    requires
        1 <= side <= 65535,
        a.pos.x.0 >= 0,
        a.pos.y.0 >= 0,
        b.pos.x.0 >= 0,
        b.pos.y.0 >= 0,
    ensures
        chebyshev(tile_of(side, a), tile_of(side, b)) == moves_apart(side, a.pos, b.pos),
        tile_of(side, a).x == line_of(side, a.pos.x),
        tile_of(side, a).y == line_of(side, a.pos.y),
{
    lemma_under(side, a.pos);
    lemma_under(side, b.pos);
}

proof fn lemma_nearest_by_cell(
    ents: Seq<EntityV>,
    side: int,
    s: Seq<u32>,
    i: int,
    reach: int,
    k: int,
)
    requires
        1 <= side <= 65535,
        0 <= i < ents.len(),
        0 <= k <= s.len(),
        all_on_grid(ents),
        ids_differ(ents),
        forall|m: int| 0 <= m < s.len() ==> #[trigger] s[m] < ents.len(),
    ensures
        match nearest_by_cell(ents, side, s, i, reach, k) {
            None => forall|m: int|
                0 <= m < k ==> !quarry_by_cell(ents, side, i, (#[trigger] s[m]) as int, reach),
            Some(j) => {
                &&& quarry_by_cell(ents, side, i, j, reach)
                &&& forall|m: int|
                    0 <= m < k && quarry_by_cell(ents, side, i, (#[trigger] s[m]) as int, reach)
                        && s[m] != j ==> sooner_by_cell(ents, side, i, j, s[m] as int)
            },
        },
    decreases k,
{
    if k > 0 {
        lemma_nearest_by_cell(ents, side, s, i, reach, k - 1);
        let j = s[k - 1] as int;
        assert(s[k - 1] < ents.len());
        lemma_moves_apart(side, ents[i], ents[j]);
        lemma_prey_words(ents[i], ents[j]);
        if let Some(b) = nearest_by_cell(ents, side, s, i, reach, k - 1) {
            lemma_moves_apart(side, ents[i], ents[b]);
            if b < j {
                assert(ents[b].id != ents[j].id);
            } else if j < b {
                assert(ents[j].id != ents[b].id);
            }
        }
    }
}

/// A king's move from one cell to another brings the cell `g` one move nearer.
pub open spec fn closes_in(x: int, y: int, gx: int, gy: int, to: Tile) -> bool {
    let before = max_int(abs_int(gx - x), abs_int(gy - y));
    let after = max_int(abs_int(gx - to.x), abs_int(gy - to.y));
    &&& max_int(abs_int(to.x - x), abs_int(to.y - y)) == 1
    &&& after == before - 1
    &&& gx == x ==> to.x == x
    &&& gy == y ==> to.y == y
}

/// The cell-by-cell decision goes by the same order. Threatened, an animal
/// flees. Else, wanting food with living prey in reach, it goes one cell nearer
/// to the nearest, the one born first among equally near ones, or stays in the
/// cell that they share. Else it grazes: a cell nearer to its goal if it has one
/// elsewhere, or to a cell next to it or nowhere.
pub proof fn law_a_step_is_toward_the_nearest_prey(
    ents: Seq<EntityV>,
    t: TerrainV,
    ecology: EcologyTuning,
    tuning: BehaviorTuning,
    seed: u64,
    tick: u64,
    i: int,
    goal: Option<Tile>,
)
    requires
        t.wf(),
        0 <= i < ents.len() <= u32::MAX,
        all_on_grid(ents),
        ids_differ(ents),
    ensures
        ({
            let e = ents[i];
            let (x, y) = (line_of(t.side, e.pos.x), line_of(t.side, e.pos.y));
            let (d, to) = ai_decision(ents, t, ecology, tuning, seed, tick, i, goal);
            let reach = tuning.sense_radius@[row_of(e)] as int;
            &&& d == Drive::Flee <==> threatened(e, t, tuning)
            &&& d == Drive::Hunt <==> !threatened(e, t, tuning) && wants_food(e, ecology)
                && exists|j: int| quarry_by_cell(ents, t.side, i, j, reach)
            &&& d == Drive::Hunt ==> exists|j: int|
                {
                    &&& #[trigger] quarry_by_cell(ents, t.side, i, j, reach)
                    &&& forall|k: int|
                        #[trigger] quarry_by_cell(ents, t.side, i, k, reach) && k != j
                            ==> sooner_by_cell(ents, t.side, i, j, k)
                    &&& match to {
                        None => moves_apart(t.side, e.pos, ents[j].pos) == 0,
                        Some(c) => closes_in(
                            x,
                            y,
                            line_of(t.side, ents[j].pos.x),
                            line_of(t.side, ents[j].pos.y),
                            c,
                        ),
                    }
                }
            &&& d == Drive::Graze ==> (match goal {
                Some(g) if g.x != x || g.y != y => to is Some && (-0x4000_0000 <= g.x <= 0x4000_0000
                    && -0x4000_0000 <= g.y <= 0x4000_0000 ==> closes_in(
                    x,
                    y,
                    g.x as int,
                    g.y as int,
                    to->0,
                )),
                _ => to is Some && abs_int(to->0.x - x) <= 1 && abs_int(to->0.y - y) <= 1,
            })
        }),
{
    let e = ents[i];
    assert(e.pos.x.0 >= 0 && e.pos.y.0 >= 0);
    lemma_threat_words(e, t, tuning);
    let side = t.side;
    let at = tile_of(side, e);
    lemma_under(side, e.pos);
    let reach = tuning.sense_radius@[e.race().at()] as int;
    let near = ring(ents, side, at.x as int, at.y as int, reach);
    lemma_ring_members(ents, side, at.x as int, at.y as int, reach);
    lemma_nearest_by_cell(ents, side, near, i, reach, near.len() as int);
    assert forall|j: int| #[trigger] quarry_by_cell(
        ents,
        side,
        i,
        j,
        reach,
    ) implies near.contains(j as u32) by {
        let o = ents[j];
        assert(o.pos.x.0 >= 0 && o.pos.y.0 >= 0);
        lemma_under(side, o.pos);
        assert(rings(ents, side, at.x as int, at.y as int, max_int(reach, 0), (j as u32) as int));
    }
    let found = nearest_by_cell(ents, side, near, i, reach, near.len() as int);
    match found {
        None => {
            assert forall|j: int| !(#[trigger] quarry_by_cell(ents, side, i, j, reach)) by {
                if quarry_by_cell(ents, side, i, j, reach) {
                    assert(near.contains(j as u32));
                    let m = near.index_of(j as u32);
                    assert(!quarry_by_cell(ents, side, i, near[m] as int, reach));
                }
            }
        },
        Some(j) => {
            assert forall|k: int| #[trigger] quarry_by_cell(ents, side, i, k, reach) && k
                != j implies sooner_by_cell(ents, side, i, j, k) by {
                assert(near.contains(k as u32));
                let m = near.index_of(k as u32);
                assert(quarry_by_cell(ents, side, i, near[m] as int, reach));
            }
            let o = ents[j];
            assert(o.pos.x.0 >= 0 && o.pos.y.0 >= 0);
            lemma_moves_apart(side, e, o);
            lemma_moves_apart(side, o, e);
        },
    }
    law_draw_below_bound(seed, tick, e.id.wrapping_add(0x9A2E), Channel::Wander, 9);
}

// ----------------------------------------------------------------------
// Danger.
// ----------------------------------------------------------------------

/// What the cell at `(x, y)` holds of the element at place `k` on the ring; a
/// place beyond the grid is the nearest one on it.
pub open spec fn holds_at(t: TerrainV, k: int, x: int, y: int) -> u16 {
    let cx = max_int(min_int(x, t.side - 1), 0);
    let cy = max_int(min_int(y, t.side - 1), 0);
    t.cells[cy * t.side + cx][k]
}

proof fn lemma_holds_at(t: TerrainV, el: Element, at: Tile)
    requires
        1 <= t.side,
    ensures
        stock_on(t, el, at) == holds_at(t, el.at(), at.x as int, at.y as int),
{
}

proof fn lemma_safest(t: TerrainV, el: Element, at: Tile, k: int)
    requires
        0 <= k < 8,
    ensures
        0 <= safest(t, el, at, k) <= k,
        forall|m: int|
            0 <= m <= k ==> stock_on(t, el, neighbour_8(at, safest(t, el, at, k))) <= stock_on(
                t,
                el,
                #[trigger] neighbour_8(at, m),
            ),
    decreases k,
{
    if k > 0 {
        lemma_safest(t, el, at, k - 1);
    }
}

proof fn lemma_worst(t: TerrainV, el: Element, at: Tile, k: int)
    requires
        0 <= k < 4,
    ensures
        0 <= worst(t, el, at, k) <= k,
        forall|m: int|
            0 <= m <= k ==> stock_on(t, el, neighbour_4(at, worst(t, el, at, k))) >= stock_on(
                t,
                el,
                #[trigger] neighbour_4(at, m),
            ),
    decreases k,
{
    if k > 0 {
        lemma_worst(t, el, at, k - 1);
    }
}

/// In danger, an animal that goes cell by cell goes to one of the eight cells
/// around its own, and none of them holds less of what eats it.
pub proof fn law_flight_is_to_the_safest_cell(
    ents: Seq<EntityV>,
    t: TerrainV,
    ecology: EcologyTuning,
    tuning: BehaviorTuning,
    seed: u64,
    tick: u64,
    i: int,
    goal: Option<Tile>,
    dx: int,
    dy: int,
)
    requires
        t.wf(),
        ents[i].pos.x.0 >= 0,
        ents[i].pos.y.0 >= 0,
        threatened(ents[i], t, tuning),
        -1 <= dx <= 1,
        -1 <= dy <= 1,
        dx != 0 || dy != 0,
    ensures
        ({
            let e = ents[i];
            let k = (e.element.at() + 1) % 5;
            let (x, y) = (line_of(t.side, e.pos.x), line_of(t.side, e.pos.y));
            match ai_decision(ents, t, ecology, tuning, seed, tick, i, goal).1 {
                Some(to) => {
                    &&& max_int(abs_int(to.x - x), abs_int(to.y - y)) == 1
                    &&& holds_at(t, k, to.x as int, to.y as int) <= holds_at(t, k, x + dx, y + dy)
                },
                None => false,
            }
        }),
{
    let e = ents[i];
    lemma_threat_words(e, t, tuning);
    lemma_under(t.side, e.pos);
    let at = tile_of(t.side, e);
    let el = e.element.spec_eaten_by();
    lemma_safest(t, el, at, 7);
    let b = safest(t, el, at, 7);
    let n = lemma_place_8(dx, dy);
    assert(0 <= n <= 7);
    let there = neighbour_8(at, n);
    assert(there.x == at.x + dx && there.y == at.y + dy);
    lemma_holds_at(t, el, there);
    lemma_holds_at(t, el, neighbour_8(at, b));
}

/// Where a direction stands among the eight.
proof fn lemma_place_8(dx: int, dy: int) -> (n: int)
    requires
        -1 <= dx <= 1,
        -1 <= dy <= 1,
        dx != 0 || dy != 0,
    ensures
        0 <= n < 8,
        NEIGHBOURS_8@[n].0 == dx,
        NEIGHBOURS_8@[n].1 == dy,
{
    if dx == 0 && dy == -1 {
        0
    } else if dx == 1 && dy == 0 {
        1
    } else if dx == 0 && dy == 1 {
        2
    } else if dx == -1 && dy == 0 {
        3
    } else if dx == 1 && dy == -1 {
        4
    } else if dx == 1 && dy == 1 {
        5
    } else if dx == -1 && dy == 1 {
        6
    } else {
        7
    }
}

/// In danger, an animal heads straight away from one of the four cells beside
/// its own, and none of them holds more of what eats it.
#[verifier::rlimit(40)]
pub proof fn law_flight_is_from_the_worst_cell(
    ents: Seq<EntityV>,
    t: TerrainV,
    ecology: EcologyTuning,
    tuning: BehaviorTuning,
    i: int,
)
    requires
        t.wf(),
        ents[i].pos.x.0 >= 0,
        ents[i].pos.y.0 >= 0,
        threatened(ents[i], t, tuning),
    ensures
        ({
            let e = ents[i];
            let k = (e.element.at() + 1) % 5;
            let (x, y) = (line_of(t.side, e.pos.x), line_of(t.side, e.pos.y));
            match drive_of(ents, t, ecology, tuning, i).1 {
                Some(h) => {
                    let (ax, ay) = (h.x.0 as int / 65536, h.y.0 as int / 65536);
                    &&& h.x.0 == ax * 65536 && h.y.0 == ay * 65536
                    &&& abs_int(ax) + abs_int(ay) == 1
                    &&& holds_at(t, k, x - ax, y - ay) >= holds_at(t, k, x, y - 1)
                    &&& holds_at(t, k, x - ax, y - ay) >= holds_at(t, k, x + 1, y)
                    &&& holds_at(t, k, x - ax, y - ay) >= holds_at(t, k, x, y + 1)
                    &&& holds_at(t, k, x - ax, y - ay) >= holds_at(t, k, x - 1, y)
                },
                None => false,
            }
        }),
{
    let e = ents[i];
    lemma_threat_words(e, t, tuning);
    lemma_under(t.side, e.pos);
    let at = tile_of(t.side, e);
    let el = e.element.spec_eaten_by();
    lemma_worst(t, el, at, 3);
    let b = worst(t, el, at, 3);
    assert(NEIGHBOURS_4@[0] == (0i32, -1i32) && NEIGHBOURS_4@[1] == (1i32, 0i32)
        && NEIGHBOURS_4@[2] == (0i32, 1i32) && NEIGHBOURS_4@[3] == (-1i32, 0i32));
    lemma_holds_at(t, el, neighbour_4(at, b));
    lemma_holds_at(t, el, neighbour_4(at, 0));
    lemma_holds_at(t, el, neighbour_4(at, 1));
    lemma_holds_at(t, el, neighbour_4(at, 2));
    lemma_holds_at(t, el, neighbour_4(at, 3));
    assert(0 <= b <= 3);
}

/// Of equally bad cells beside its own an animal heads away from the northern one,
/// else the eastern, else the southern; of equally safe ones around it, it goes to
/// one of these four rather than to a corner, and in that order.
pub proof fn law_flight_breaks_ties_in_order(
    ents: Seq<EntityV>,
    t: TerrainV,
    ecology: EcologyTuning,
    tuning: BehaviorTuning,
    seed: u64,
    tick: u64,
    i: int,
    goal: Option<Tile>,
)
    requires
        t.wf(),
        ents[i].pos.x.0 >= 0,
        ents[i].pos.y.0 >= 0,
        threatened(ents[i], t, tuning),
    ensures
        ({
            let e = ents[i];
            let k = (e.element.at() + 1) % 5;
            let (x, y) = (line_of(t.side, e.pos.x), line_of(t.side, e.pos.y));
            let h = drive_of(ents, t, ecology, tuning, i).1->0;
            let (north, east) = (holds_at(t, k, x, y - 1), holds_at(t, k, x + 1, y));
            let (south, west) = (holds_at(t, k, x, y + 1), holds_at(t, k, x - 1, y));
            let to = ai_decision(ents, t, ecology, tuning, seed, tick, i, goal).1->0;
            let least = holds_at(t, k, to.x as int, to.y as int);
            &&& h.x.0 < 0 ==> north < east
            &&& h.y.0 < 0 ==> north < south && east < south
            &&& h.x.0 > 0 ==> north < west && east < west && south < west
            &&& to.x == x + 1 && to.y == y ==> least < north
            &&& to.x == x && to.y == y + 1 ==> least < north && least < east
            &&& to.x == x - 1 && to.y == y ==> least < north && least < east && least < south
            &&& to.x != x && to.y != y ==> least < north && least < east && least < south && least
                < west
        }),
{
    let e = ents[i];
    lemma_threat_words(e, t, tuning);
    lemma_under(t.side, e.pos);
    let at = tile_of(t.side, e);
    let el = e.element.spec_eaten_by();
    lemma_worst_first(t, el, at, 3);
    lemma_safest_first(t, el, at, 7);
    let b = worst(t, el, at, 3);
    let c = safest(t, el, at, 7);
    assert(NEIGHBOURS_4@[0] == (0i32, -1i32) && NEIGHBOURS_4@[1] == (1i32, 0i32)
        && NEIGHBOURS_4@[2] == (0i32, 1i32) && NEIGHBOURS_4@[3] == (-1i32, 0i32));
    assert(NEIGHBOURS_8@[0] == (0i32, -1i32) && NEIGHBOURS_8@[1] == (1i32, 0i32)
        && NEIGHBOURS_8@[2] == (0i32, 1i32) && NEIGHBOURS_8@[3] == (-1i32, 0i32));
    assert(NEIGHBOURS_8@[4] == (1i32, -1i32) && NEIGHBOURS_8@[5] == (1i32, 1i32)
        && NEIGHBOURS_8@[6] == (-1i32, 1i32) && NEIGHBOURS_8@[7] == (-1i32, -1i32));
    lemma_holds_at(t, el, neighbour_4(at, 0));
    lemma_holds_at(t, el, neighbour_4(at, 1));
    lemma_holds_at(t, el, neighbour_4(at, 2));
    lemma_holds_at(t, el, neighbour_4(at, 3));
    lemma_holds_at(t, el, neighbour_8(at, c));
    assert(neighbour_8(at, 0) == neighbour_4(at, 0) && neighbour_8(at, 1) == neighbour_4(at, 1)
        && neighbour_8(at, 2) == neighbour_4(at, 2) && neighbour_8(at, 3) == neighbour_4(at, 3));
    assert(0 <= b <= 3);
    assert(0 <= c <= 7);
}

proof fn lemma_worst_first(t: TerrainV, el: Element, at: Tile, k: int)
    requires
        0 <= k < 4,
    ensures
        0 <= worst(t, el, at, k) <= k,
        forall|m: int|
            0 <= m < worst(t, el, at, k) ==> stock_on(t, el, #[trigger] neighbour_4(at, m))
                < stock_on(t, el, neighbour_4(at, worst(t, el, at, k))),
    decreases k,
{
    if k > 0 {
        lemma_worst_first(t, el, at, k - 1);
        lemma_worst(t, el, at, k - 1);
    }
}

proof fn lemma_safest_first(t: TerrainV, el: Element, at: Tile, k: int)
    requires
        0 <= k < 8,
    ensures
        0 <= safest(t, el, at, k) <= k,
        forall|m: int|
            0 <= m < safest(t, el, at, k) ==> stock_on(t, el, #[trigger] neighbour_8(at, m))
                > stock_on(t, el, neighbour_8(at, safest(t, el, at, k))),
    decreases k,
{
    if k > 0 {
        lemma_safest_first(t, el, at, k - 1);
        lemma_safest(t, el, at, k - 1);
    }
}

/// Grazing without a goal an animal goes where it rolls: of nine equal chances one is
/// to stay, one each is for the cells in the north, the east, the south and the west,
/// and one each for the corners from north-east round to north-west.
pub proof fn law_a_wanderer_goes_where_it_rolls(
    ents: Seq<EntityV>,
    t: TerrainV,
    ecology: EcologyTuning,
    tuning: BehaviorTuning,
    seed: u64,
    tick: u64,
    i: int,
)
    requires
        t.wf(),
        ents[i].pos.x.0 >= 0,
        ents[i].pos.y.0 >= 0,
        ai_decision(ents, t, ecology, tuning, seed, tick, i, None).0 == Drive::Graze,
    ensures
        ({
            let e = ents[i];
            let (x, y) = (line_of(t.side, e.pos.x), line_of(t.side, e.pos.y));
            let to = ai_decision(ents, t, ecology, tuning, seed, tick, i, None).1;
            let roll = draw_below(seed, tick, e.id.wrapping_add(0x9A2E), Channel::Wander, 9);
            &&& to is Some
            &&& to->0.x - x == (if roll == 1 || roll == 4 || roll == 5 {
                1int
            } else if roll == 3 || roll == 6 || roll == 7 {
                -1
            } else {
                0
            })
            &&& to->0.y - y == (if roll == 2 || roll == 5 || roll == 6 {
                1int
            } else if roll == 0 || roll == 4 || roll == 7 {
                -1
            } else {
                0
            })
        }),
{
    let e = ents[i];
    lemma_under(t.side, e.pos);
    law_draw_below_bound(seed, tick, e.id.wrapping_add(0x9A2E), Channel::Wander, 9);
    assert(NEIGHBOURS_8@[0] == (0i32, -1i32) && NEIGHBOURS_8@[1] == (1i32, 0i32)
        && NEIGHBOURS_8@[2] == (0i32, 1i32) && NEIGHBOURS_8@[3] == (-1i32, 0i32));
    assert(NEIGHBOURS_8@[4] == (1i32, -1i32) && NEIGHBOURS_8@[5] == (1i32, 1i32)
        && NEIGHBOURS_8@[6] == (-1i32, 1i32) && NEIGHBOURS_8@[7] == (-1i32, -1i32));
}

} // verus!
