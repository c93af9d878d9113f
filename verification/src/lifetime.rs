//! A body's days: hunger, growth, wear and death.
use crate::aging::{aged_one, aging_phase, buried, lemma_aged, older, scattered_stock};
use crate::commands::{headed, struck};
use crate::ecology::EcologyTuning;
use crate::element::element_at;
use crate::entity::{maturity_age, spec_growth_ceiling, EntityV, Item};
use crate::fate::{grew, lemma_aged_lives};
use crate::fx::{max_int, min_int, v2_zero, V2};
use crate::geometry::{along, law_a_unit_vector_points_along, spread, square};
use crate::ground::weathered;
use crate::hunting::{ids_differ, lemma_under, under};
use crate::race::{Kind, Race};
use crate::soil::law_a_deposit_lands_where_it_falls;
use crate::terrain::{deposited, lemma_deposited_wf, TerrainV};
use crate::world::{find_id, WorldV};
use vstd::prelude::*;

verus! {

// ----------------------------------------------------------------------
// Days.
// ----------------------------------------------------------------------

/// What a day of hunger does to strength: nothing until a body has gone
/// without food for longer than its element bears, then a set loss each tick.
pub open spec fn strength_next(e: EntityV, ecology: EcologyTuning) -> int {
    let k = e.element.at();
    if e.hunger + 1 > ecology.starve_after@[k] {
        e.hp - ecology.starve_rate@[k]
    } else {
        e.hp as int
    }
}

/// A living body grows older and hungrier by one each tick, and weaker once it
/// starves. It dies of it exactly when it has reached its span or its strength
/// is at an end. Whether alive or dead, it stays where it is and who it is.
pub proof fn law_a_day_in_a_life(w: WorldV, i: int)
    requires
        w.wf(),
        0 <= i < w.ents.len(),
        w.ents[i].alive,
        w.ents[i].hunger < u32::MAX,
        -0x2000_0000 <= w.ents[i].hp <= 0x2000_0000,
        -0x2000_0000 <= w.ecology.starve_rate@[w.ents[i].element.at()] <= 0x2000_0000,
    ensures
        ({
            let e = w.ents[i];
            let o = aging_phase(w).ents[i];
            let hp = strength_next(e, w.ecology);
            &&& o.alive <==> e.age + 1 < e.lifespan && hp > 0
            &&& o.age == e.age + 1
            &&& o.hunger == e.hunger + 1
            &&& o.hp == hp
            &&& !o.acted
            &&& o.id == e.id
            &&& o.element == e.element
            &&& o.kind == e.kind
            &&& o.pos == e.pos
            &&& o.heading == e.heading
            &&& o.lifespan == e.lifespan
            &&& o.alive ==> o.material == e.material && o.carried == e.carried && o.items == e.items
            &&& !o.alive ==> o.items.len() == 0
        }),
{
    lemma_day(w, w.ents.len() as int, i);
    assert(w.ents[i].age < u64::MAX);
}

proof fn lemma_day(w: WorldV, n: int, i: int)
    requires
        w.wf(),
        0 <= i < n <= w.ents.len(),
    ensures
        ({
            let u = crate::aging::aged(w, i);
            &&& u.ecology == w.ecology
            &&& u.propagation == w.propagation
            &&& u.ents.len() == w.ents.len()
            &&& u.ents[i] == w.ents[i]
            &&& crate::aging::aged(w, n).ents[i] == aged_one(u, i).ents[i]
        }),
    decreases n,
{
    lemma_aged(w, n - 1);
    lemma_aged(w, n);
    lemma_aged(w, i);
    lemma_tables(w, i);
    if n - 1 > i {
        lemma_day(w, n - 1, i);
        let v = crate::aging::aged(w, n - 1);
        crate::aging::law_aging_conserves(v, n - 1);
    }
}

proof fn lemma_tables(w: WorldV, n: int)
    ensures
        crate::aging::aged(w, n).ecology == w.ecology,
        crate::aging::aged(w, n).propagation == w.propagation,
    decreases n,
{
    if n > 0 {
        lemma_tables(w, n - 1);
    }
}

/// The dead take no part in aging.
pub proof fn law_the_dead_do_not_age(w: WorldV, i: int)
    requires
        w.wf(),
        0 <= i < w.ents.len(),
        !w.ents[i].alive,
    ensures
        aging_phase(w).ents[i] == w.ents[i],
{
    lemma_day(w, w.ents.len() as int, i);
}

/// What a body is by size, in per-mille: an animal is always full grown. A
/// plant that has lived a quarter of its span is as large as its ground lets it
/// be: full size where the ground holds as much of its element as full growth
/// takes, in proportion where it holds less, but never less than a seedling. A
/// younger one is between that and a seedling.
pub proof fn law_a_plant_is_as_large_as_its_ground_lets_it(w: WorldV, e: EntityV)
    requires
        w.terrain.wf(),
        e.pos.x.0 >= 0,
        e.pos.y.0 >= 0,
        e.age < u64::MAX,
        e.lifespan <= u64::MAX / 250,
    ensures
        ({
            let k = e.element.at();
            let z = older(e, w).size;
            let seedling = w.propagation.offspring_size@[k];
            let full = w.propagation.growth_ref@[k];
            let stock = w.terrain.cells[under(w.terrain.side, e.pos)][k];
            let top = max_int(
                if full == 0 {
                    1000
                } else {
                    min_int(stock * 1000 / full as int, 1000)
                },
                seedling as int,
            );
            &&& e.kind == Kind::Animal ==> z == 1000
            &&& e.kind == Kind::Plant ==> seedling <= z <= top
            &&& e.kind == Kind::Plant && 4 * (e.age + 1) >= e.lifespan ==> z == top
        }),
{
    let k = e.element.at();
    lemma_under(w.terrain.side, e.pos);
    let stock = w.terrain.cells[under(w.terrain.side, e.pos)][k];
    let full = w.propagation.growth_ref@[k];
    let seedling = w.propagation.offspring_size@[k];
    let c = spec_growth_ceiling(stock, full);
    if full != 0 {
        assert(0 <= stock * 1000 / full as int) by (nonlinear_arith)
            requires
                full > 0,
                stock >= 0,
        ;
    }
    assert(0 <= c <= 1000);
    let age = (e.age + 1) as u64;
    crate::entity::law_grown_size_bounds(seedling, age, e.lifespan, c as u16);
    assert(maturity_age(e.lifespan) == e.lifespan * 250 / 1000);
    assert(4 * (e.age + 1) >= e.lifespan ==> age >= maturity_age(e.lifespan));
    crate::entity::law_grown_size_bounds(1000, age, e.lifespan, 1000);
}

// ----------------------------------------------------------------------
// Wear.
// ----------------------------------------------------------------------

/// Once a terrain tick the ground wears on a living body: it loses strength by
/// what its cell holds of the element that eats its own, as far as it has any,
/// and grows hungrier by what it holds of the one that suppresses its own, each
/// by the rate of its element in per-mille. Nothing else about it changes.
pub proof fn law_the_ground_wears_on_a_body(w: WorldV, i: int)
    requires
        w.terrain.wf(),
        0 <= i < w.ents.len(),
        w.ents[i].pos.x.0 >= 0,
        w.ents[i].pos.y.0 >= 0,
    ensures
        ({
            let e = w.ents[i];
            let o = weathered(w).ents[i];
            let k = e.element.at();
            let cell = w.terrain.cells[under(w.terrain.side, e.pos)];
            let burn = cell[(k + 1) % 5] * w.ecology.attrition_rate@[k] / 1000;
            let strain = cell[(k + 3) % 5] * w.ecology.suppression_rate@[k] / 1000;
            &&& o == (EntityV { hp: o.hp, hunger: o.hunger, ..e })
            &&& !e.alive ==> o == e
            &&& e.alive && e.hp >= 0 ==> o.hp == max_int(e.hp - burn, 0)
            &&& e.alive && e.hp < 0 ==> o.hp == e.hp
            &&& e.alive ==> o.hunger == min_int(e.hunger + strain, u32::MAX as int)
            &&& weathered(w).terrain == w.terrain
        }),
{
    let e = w.ents[i];
    let k = e.element.at();
    lemma_under(w.terrain.side, e.pos);
    let cell = w.terrain.cells[under(w.terrain.side, e.pos)];
    let (a, b) = (cell[(k + 1) % 5], cell[(k + 3) % 5]);
    crate::ecology::lemma_toll(a, w.ecology.attrition_rate@[k]);
    crate::ecology::lemma_toll(b, w.ecology.suppression_rate@[k]);
}

// ----------------------------------------------------------------------
// Death.
// ----------------------------------------------------------------------

/// What a cell gains of the element at place `x` from a body that falls there.
pub open spec fn remains(r: Race, material: u64, carried: Seq<u64>, x: int) -> int {
    carried[x] + (if r.element.at() == x {
        material as int
    } else {
        0
    })
}

proof fn lemma_scattered(
    t: TerrainV,
    r: Race,
    pos: V2,
    carried: Seq<u64>,
    n: int,
    d: int,
    x: int,
)
    requires
        t.wf(),
        0 <= n <= 5,
        carried.len() == 5,
        pos.x.0 >= 0,
        pos.y.0 >= 0,
        0 <= d < t.cells.len(),
        0 <= x < 5,
    ensures
        ({
            let u = scattered_stock(t, r, pos, carried, n);
            &&& u.wf()
            &&& u.side == t.side
            &&& u.cells[d][x] == (if d == under(t.side, pos) && x < n {
                min_int(t.cells[d][x] + carried[x], 65535)
            } else {
                t.cells[d][x] as int
            })
        }),
    decreases n,
{
    if n > 0 {
        lemma_scattered(t, r, pos, carried, n - 1, d, x);
        let v = scattered_stock(t, r, pos, carried, n - 1);
        lemma_deposited_wf(v, r, element_at(n - 1), carried[n - 1], pos);
        law_a_deposit_lands_where_it_falls(v, r, element_at(n - 1), carried[n - 1], pos);
        crate::element::law_ring_positions(element_at(n - 1), n - 1);
        let u = scattered_stock(t, r, pos, carried, n);
        if d != under(t.side, pos) || x != n - 1 {
            assert(u.cells[d][x] == v.cells[d][x]);
        }
    }
}

/// A body returns to the cell where it falls. What it was made of and what it
/// carried goes into that cell, each under its own element and as far as there
/// is room, and into no other cell; what it held lies there in piles, behind
/// all that lay about before. The death is counted.
pub proof fn law_the_dead_return_where_they_fall(
    w: WorldV,
    r: Race,
    pos: V2,
    material: u64,
    carried: Seq<u64>,
    items: Seq<Item>,
    d: int,
    x: int,
)
    requires
        w.terrain.wf(),
        carried.len() == 5,
        pos.x.0 >= 0,
        pos.y.0 >= 0,
        0 <= d < w.terrain.cells.len(),
        0 <= x < 5,
        w.stats.deaths < u64::MAX,
    ensures
        ({
            let u = buried(w, r, pos, material, carried, items);
            let n = w.ground.len() as int;
            &&& u.terrain.cells[d][x] == (if d == under(w.terrain.side, pos) {
                min_int(w.terrain.cells[d][x] + remains(r, material, carried, x), 65535)
            } else {
                w.terrain.cells[d][x] as int
            })
            &&& u.ground.len() == n + items.len()
            &&& u.ground.take(n) == w.ground
            &&& forall|k: int|
                0 <= k < items.len() ==> (#[trigger] u.ground[n + k]).element == items[k].element
                    && u.ground[n + k].quantity == items[k].quantity && u.ground[n + k].pos == pos
            &&& u.stats.deaths == w.stats.deaths + 1
            &&& u.ents == w.ents
        }),
{
    let t = deposited(w.terrain, r, r.element, material, pos);
    lemma_deposited_wf(w.terrain, r, r.element, material, pos);
    law_a_deposit_lands_where_it_falls(w.terrain, r, r.element, material, pos);
    lemma_scattered(t, r, pos, carried, 5, d, x);
    if d != under(w.terrain.side, pos) || x != r.element.at() {
        assert(t.cells[d][x] == w.terrain.cells[d][x]);
    }
    let u = buried(w, r, pos, material, carried, items);
    assert(u.ground.take(w.ground.len() as int) =~= w.ground);
}

// ----------------------------------------------------------------------
// Being told.
// ----------------------------------------------------------------------

proof fn lemma_found(ents: Seq<EntityV>, i: int)
    requires
        0 <= i < ents.len(),
        ids_differ(ents),
    ensures
        find_id(ents, ents[i].id) == Some(i),
{
    assert forall|j: int| 0 <= j < i implies (#[trigger] ents[j]).id != ents[i].id by {
        assert(ents[j].id != ents[i].id);
    }
    crate::world::lemma_id_pos(ents, ents[i].id, i);
}

/// A body that is told to die has no strength left, and is dead once it has
/// aged; everybody else is as they were.
pub proof fn law_a_condemned_body_dies(w: WorldV, i: int)
    requires
        w.wf(),
        0 <= i < w.ents.len(),
        w.ecology.starve_rate@[w.ents[i].element.at()] >= 0,
    ensures
        ({
            let u = struck(w, w.ents[i].id);
            &&& u.ents[i].hp == 0
            &&& u.ents.len() == w.ents.len()
            &&& forall|j: int| 0 <= j < w.ents.len() && j != i ==> #[trigger] u.ents[j] == w.ents[j]
            &&& u.terrain == w.terrain
            &&& u.ground == w.ground
            &&& u.wf() ==> !aging_phase(u).ents[i].alive
        }),
{
    assert(ids_differ(w.ents)) by {
        assert forall|a: int, b: int| 0 <= a < b < w.ents.len() implies (#[trigger] w.ents[a]).id
            != (#[trigger] w.ents[b]).id by {
            assert(w.ents[a].id < w.ents[b].id);
        }
    }
    lemma_found(w.ents, i);
    let u = struck(w, w.ents[i].id);
    if u.wf() {
        lemma_aged_lives(u, u.ents.len() as int);
        assert(grew(u.ecology, u.ents[i], aging_phase(u).ents[i]));
    }
}

/// A body that is told to head somewhere heads there, by a unit vector, and is
/// otherwise as it was; told to head nowhere, it goes on as before.
pub proof fn law_a_body_heads_where_it_is_told(w: WorldV, i: int, dir: V2)
    requires
        w.wf(),
        0 <= i < w.ents.len(),
    ensures
        ({
            let u = headed(w, w.ents[i].id, dir);
            let h = u.ents[i].heading;
            &&& dir == v2_zero() ==> u == w
            &&& dir != v2_zero() ==> {
                &&& along(h.x.0 as int, dir.x.0 as int)
                &&& along(h.y.0 as int, dir.y.0 as int)
                &&& 65536 * 65536 - 4 * 65536 - 2 <= square(h) <= 65536 * 65536 + 16
                &&& spread(dir, h) * spread(dir, h) <= square(dir)
            }
            &&& u.ents[i] == (EntityV { heading: h, ..w.ents[i] })
            &&& u.ents.len() == w.ents.len()
            &&& forall|j: int| 0 <= j < w.ents.len() && j != i ==> #[trigger] u.ents[j] == w.ents[j]
            &&& u == (WorldV { ents: u.ents, ..w })
        }),
{
    assert(ids_differ(w.ents)) by {
        assert forall|a: int, b: int| 0 <= a < b < w.ents.len() implies (#[trigger] w.ents[a]).id
            != (#[trigger] w.ents[b]).id by {
            assert(w.ents[a].id < w.ents[b].id);
        }
    }
    lemma_found(w.ents, i);
    if dir != v2_zero() {
        law_a_unit_vector_points_along(dir);
        let n = dir.spec_normalized();
        let (x, y) = (n.x.0 as int, n.y.0 as int);
        // A unit vector has a squared length that is not rounded away.
        assert(x * x >= 0 && y * y >= 0) by (nonlinear_arith);
        assert(n.x.times(n.x).0 == crate::fx::sat32((x * x) / 65536));
        assert(n.y.times(n.y).0 == crate::fx::sat32((y * y) / 65536));
        assert(n.spec_len_sq().0 != 0);
    }
}

} // verus!
