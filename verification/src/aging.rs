//! Aging, starvation and death.
use crate::ecology::{EcologyTuning, PropagationTuning};
use crate::element::{element_at, Element, PerElement};
use crate::entity::{grown_size, growth_ceiling, spec_grown_size, spec_growth_ceiling, EntityV, Item};
use crate::fx::{sat32, V2};
use crate::race::{Kind, Race};
use crate::sums::{lemma_sum_append, lemma_sum_bounds, lemma_sum_update, sum_by};
use crate::terrain::{
    cell_at, deposit_at, deposited, law_deposit_is_conserved, lemma_deposited_wf, terrain_mass,
    TerrainV,
};
use crate::world::{
    body_mass, body_masses, carried_mass, item_mass, lemma_mass_parts, mass, pile_mass, shaped,
    GroundItem, Stats, World, WorldV,
};
use vstd::prelude::*;

verus! {

/// The first `n` of a body's carried stocks, returned to the ground at `pos`.
pub open spec fn scattered_stock(t: TerrainV, r: Race, pos: V2, carried: Seq<u64>, n: int) -> TerrainV
    decreases n,
{
    if n <= 0 {
        t
    } else {
        deposited(
            scattered_stock(t, r, pos, carried, n - 1),
            r,
            element_at(n - 1),
            carried[n - 1],
            pos,
        )
    }
}

/// Items, as piles on the ground at `pos`.
pub open spec fn dropped(items: Seq<Item>, pos: V2) -> Seq<GroundItem> {
    Seq::new(
        items.len(),
        |i: int| GroundItem { element: items[i].element, quantity: items[i].quantity, pos },
    )
}

/// The world after a death has been counted: the body's own material and what
/// it carried are in the ground where it fell, its items lie there.
pub open spec fn buried(
    w: WorldV,
    r: Race,
    pos: V2,
    material: u64,
    carried: Seq<u64>,
    items: Seq<Item>,
) -> WorldV {
    let t = deposited(w.terrain, r, r.element, material, pos);
    WorldV {
        terrain: scattered_stock(t, r, pos, carried, 5),
        ground: w.ground + dropped(items, pos),
        stats: Stats { deaths: (w.stats.deaths + 1) as u64, ..w.stats },
        ..w
    }
}

/// The sum of the first `n` stocks.
pub open spec fn stock_sum(carried: Seq<u64>, n: int) -> int
    decreases n,
{
    if n <= 0 {
        0
    } else {
        stock_sum(carried, n - 1) + carried[n - 1]
    }
}

pub proof fn lemma_scattered_stock(t: TerrainV, r: Race, pos: V2, carried: Seq<u64>, n: int)
    requires
        t.wf(),
        carried.len() == 5,
        0 <= n <= 5,
        terrain_mass(t) + stock_sum(carried, n) <= u64::MAX,
    ensures
        scattered_stock(t, r, pos, carried, n).wf(),
        scattered_stock(t, r, pos, carried, n).side == t.side,
        terrain_mass(scattered_stock(t, r, pos, carried, n)) == terrain_mass(t) + stock_sum(
            carried,
            n,
        ),
    decreases n,
{
    if n > 0 {
        lemma_scattered_stock(t, r, pos, carried, n - 1);
        let u = scattered_stock(t, r, pos, carried, n - 1);
        law_deposit_is_conserved(u, r, element_at(n - 1), carried[n - 1], pos);
        lemma_deposited_wf(u, r, element_at(n - 1), carried[n - 1], pos);
    }
}

pub proof fn lemma_stock_sum(carried: Seq<u64>)
    requires
        carried.len() == 5,
    ensures
        stock_sum(carried, 5) == carried_mass(carried),
{
    reveal_with_fuel(stock_sum, 6);
}

proof fn lemma_dropped(items: Seq<Item>, pos: V2)
    ensures
        sum_by(dropped(items, pos), pile_mass()) == sum_by(items, item_mass()),
{
    let d = dropped(items, pos);
    assert forall|i: int| 0 <= i < d.len() implies pile_mass()(#[trigger] d[i]) == item_mass()(
        items[i],
    ) by {}
    crate::sums::lemma_sum_eq(d, items, pile_mass(), item_mass());
}

/// Burial puts exactly what the body was, carried and held on the books.
pub proof fn law_burial_returns_everything(
    w: WorldV,
    r: Race,
    pos: V2,
    material: u64,
    carried: Seq<u64>,
    items: Seq<Item>,
)
    requires
        w.terrain.wf(),
        forall|i: int| 0 <= i < w.ents.len() ==> shaped(#[trigger] w.ents[i]),
        carried.len() == 5,
        mass(w) + material + carried_mass(carried) + sum_by(items, item_mass()) <= u64::MAX,
    ensures
        ({
            let u = buried(w, r, pos, material, carried, items);
            &&& mass(u) == mass(w) + material + carried_mass(carried) + sum_by(items, item_mass())
            &&& u.terrain.wf()
            &&& u.terrain.side == w.terrain.side
        }),
{
    let t = deposited(w.terrain, r, r.element, material, pos);
    lemma_mass_parts(w);
    lemma_stock_sum(carried);
    lemma_sum_bounds(items, item_mass());
    law_deposit_is_conserved(w.terrain, r, r.element, material, pos);
    lemma_deposited_wf(w.terrain, r, r.element, material, pos);
    lemma_scattered_stock(t, r, pos, carried, 5);
    lemma_dropped(items, pos);
    lemma_sum_append(w.ground, dropped(items, pos), pile_mass());
}

/// Whether a body is starving once this tick's hunger is added.
pub open spec fn starves(e: EntityV, ecology: EcologyTuning) -> bool {
    hungrier(e) > ecology.starve_after@[e.element.at()]
}

pub open spec fn hungrier(e: EntityV) -> u32 {
    if e.hunger < u32::MAX {
        (e.hunger + 1) as u32
    } else {
        e.hunger
    }
}

/// The size a body has at its new age: a plant grows as its ground allows,
/// anything else is full grown.
pub open spec fn size_at_age(e: EntityV, age: u64, t: TerrainV, p: PropagationTuning) -> u16 {
    if e.kind == Kind::Plant {
        let stock = t.stock(cell_at(t.side, e.pos), e.element);
        let ceiling = spec_growth_ceiling(stock, p.growth_ref@[e.element.at()]) as u16;
        spec_grown_size(p.offspring_size@[e.element.at()], age, e.lifespan, ceiling) as u16
    } else {
        spec_grown_size(1000, age, e.lifespan, 1000) as u16
    }
}

/// A living body one tick older, before it is known whether it dies.
pub open spec fn older(e: EntityV, w: WorldV) -> EntityV {
    let age = (e.age + 1) as u64;
    EntityV {
        age,
        acted: false,
        hunger: hungrier(e),
        hp: if starves(e, w.ecology) {
            sat32(e.hp - w.ecology.starve_rate@[e.element.at()])
        } else {
            e.hp
        },
        size: size_at_age(e, age, w.terrain, w.propagation),
        ..e
    }
}

/// The world after body `i` has aged: older if it lives on, buried if not.
pub open spec fn aged_one(w: WorldV, i: int) -> WorldV {
    let e = w.ents[i];
    if !e.alive {
        w
    } else {
        let o = older(e, w);
        if o.age >= o.lifespan || o.hp <= 0 {
            let u = WorldV {
                ents: w.ents.update(i, EntityV { alive: false, items: Seq::empty(), ..o }),
                stats: if starves(e, w.ecology) {
                    Stats { starved: (w.stats.starved + 1) as u64, ..w.stats }
                } else {
                    w.stats
                },
                ..w
            };
            buried(u, o.race(), o.pos, o.material, o.carried, o.items)
        } else {
            WorldV { ents: w.ents.update(i, o), ..w }
        }
    }
}

/// The world after the first `n` bodies have aged.
pub open spec fn aged(w: WorldV, n: int) -> WorldV
    decreases n,
{
    if n <= 0 {
        w
    } else {
        aged_one(aged(w, n - 1), n - 1)
    }
}

/// What the aging phase does to the world.
pub open spec fn aging_phase(w: WorldV) -> WorldV {
    aged(w, w.ents.len() as int)
}

/// One body's aging conserves material and keeps the invariant. A body that
/// lives on has not reached its lifespan.
pub proof fn law_aging_conserves(w: WorldV, i: int)
    requires
        w.wf(),
        0 <= i < w.ents.len(),
    ensures
        mass(aged_one(w, i)) == mass(w),
        aged_one(w, i).wf(),
        w.inside() ==> aged_one(w, i).inside(),
        aged_one(w, i).ents.len() == w.ents.len(),
        forall|j: int| 0 <= j < w.ents.len() && j != i ==> #[trigger] aged_one(w, i).ents[j] == w.ents[j],
        aged_one(w, i).ents[i].alive ==> aged_one(w, i).ents[i].age < aged_one(w, i).ents[i].lifespan,
        aged_one(w, i).ents[i].id == w.ents[i].id,
        aged_one(w, i).next_id == w.next_id,
        aged_one(w, i).tick == w.tick,
        aged_one(w, i).seed == w.seed,
        aged_one(w, i).size == w.size,
        aged_one(w, i).terrain.side == w.terrain.side,
        w.stats.deaths < u64::MAX ==> w.stats.deaths <= aged_one(w, i).stats.deaths
            <= w.stats.deaths + 1,
        w.stats.starved < u64::MAX ==> w.stats.starved <= aged_one(w, i).stats.starved
            <= w.stats.starved + 1,
        aged_one(w, i).stats == (Stats {
            deaths: aged_one(w, i).stats.deaths,
            starved: aged_one(w, i).stats.starved,
            ..w.stats
        }),
{
    let e = w.ents[i];
    let u = aged_one(w, i);
    assert(shaped(e));
    if e.alive {
        let o = older(e, w);
        assert(body_mass(o) == body_mass(e));
        if o.age >= o.lifespan || o.hp <= 0 {
            let d = EntityV { alive: false, items: Seq::empty(), ..o };
            lemma_sum_update(w.ents, i, d, body_masses());
            let v = WorldV {
                ents: w.ents.update(i, d),
                stats: if starves(e, w.ecology) {
                    Stats { starved: (w.stats.starved + 1) as u64, ..w.stats }
                } else {
                    w.stats
                },
                ..w
            };
            assert forall|j: int| 0 <= j < v.ents.len() implies shaped(#[trigger] v.ents[j]) by {
                if j != i {
                    assert(v.ents[j] == w.ents[j]);
                }
            }
            law_burial_returns_everything(v, o.race(), o.pos, o.material, o.carried, o.items);
        } else {
            lemma_sum_update(w.ents, i, o, body_masses());
        }
    }
    assert forall|j: int| 0 <= j < u.ents.len() implies shaped(#[trigger] u.ents[j]) by {
        if j != i {
            assert(u.ents[j] == w.ents[j]);
        }
    }
    assert forall|j: int| 0 <= j < u.ents.len() && (#[trigger] u.ents[j]).alive implies u.ents[j].age
        < u64::MAX by {
        if j != i {
            assert(u.ents[j] == w.ents[j]);
        }
    }
    assert forall|j: int, k: int| 0 <= j < k < u.ents.len() implies (#[trigger] u.ents[j]).id < (
    #[trigger] u.ents[k]).id by {
        assert(u.ents[j].id == w.ents[j].id && u.ents[k].id == w.ents[k].id);
    }
    assert forall|j: int| 0 <= j < u.ents.len() implies (#[trigger] u.ents[j]).id < u.next_id by {
        assert(u.ents[j].id == w.ents[j].id);
    }
    if w.inside() {
        assert forall|j: int| 0 <= j < u.ents.len() implies crate::world::in_square(
            u.size,
            (#[trigger] u.ents[j]).pos,
        ) by {
            assert(u.ents[j].pos == w.ents[j].pos);
        }
    }
}

/// What holds after the first `n` bodies have aged.
pub proof fn lemma_aged(w: WorldV, n: int)
    requires
        w.wf(),
        0 <= n <= w.ents.len(),
    ensures
        ({
            let u = aged(w, n);
            &&& u.wf()
            &&& mass(u) == mass(w)
            &&& w.inside() ==> u.inside()
            &&& u.ents.len() == w.ents.len()
            &&& forall|j: int| n <= j < w.ents.len() ==> #[trigger] u.ents[j] == w.ents[j]
            &&& forall|j: int|
                0 <= j < n && (#[trigger] u.ents[j]).alive ==> u.ents[j].age < u.ents[j].lifespan
            &&& u.next_id == w.next_id
            &&& u.tick == w.tick
            &&& u.seed == w.seed
            &&& u.size == w.size
            &&& u.terrain.side == w.terrain.side
            &&& w.stats.deaths + w.ents.len() <= u64::MAX ==> w.stats.deaths <= u.stats.deaths
                <= w.stats.deaths + n
            &&& w.stats.starved + w.ents.len() <= u64::MAX ==> w.stats.starved <= u.stats.starved
                <= w.stats.starved + n
            &&& u.stats == (Stats {
                deaths: u.stats.deaths,
                starved: u.stats.starved,
                ..w.stats
            })
        }),
    decreases n,
{
    if n > 0 {
        lemma_aged(w, n - 1);
        let v = aged(w, n - 1);
        law_aging_conserves(v, n - 1);
        let u = aged(w, n);
        assert forall|j: int| n <= j < w.ents.len() implies #[trigger] u.ents[j] == w.ents[j] by {
            assert(u.ents[j] == v.ents[j]);
        }
        assert forall|j: int| 0 <= j < n && (#[trigger] u.ents[j]).alive implies u.ents[j].age
            < u.ents[j].lifespan by {
            if j < n - 1 {
                assert(u.ents[j] == v.ents[j]);
            }
        }
    }
}

impl World {
    /// Count a death and return what the body was and carried to the ground
    /// where it fell; what it held in items lies there as piles.
    pub fn charge_death(
        &mut self,
        race: Race,
        pos: V2,
        material: u64,
        carried: &PerElement<u64>,
        items: &Vec<Item>,
    )
        requires
            old(self)@.terrain.wf(),
            old(self).stats.deaths < u64::MAX,
        ensures
            final(self)@ == buried(
                old(self)@,
                race,
                pos,
                material,
                carried@,
                items@,
            ),
            final(self).entities == old(self).entities,
    {
        let ghost before = self@;
        self.stats.deaths = self.stats.deaths + 1;
        deposit_at(&mut self.terrain, race, race.element, material, pos);
        let ghost t = self.terrain@;
        let mut k: usize = 0;
        while k < 5
            invariant
                k <= 5,
                self.terrain@.wf(),
                self.terrain@ == scattered_stock(t, race, pos, carried@, k as int),
                self@ == (WorldV {
                    terrain: self.terrain@,
                    stats: Stats { deaths: (before.stats.deaths + 1) as u64, ..before.stats },
                    ..before
                }),
                self.entities == old(self).entities,
            decreases 5 - k,
        {
            let e: Element = Element::from_index(k);
            deposit_at(&mut self.terrain, race, e, *carried.get(e), pos);
            k = k + 1;
        }
        let mut j: usize = 0;
        while j < items.len()
            invariant
                j <= items@.len(),
                self.ground_items@ == before.ground + dropped(items@, pos).take(j as int),
                self@ == (WorldV {
                    terrain: scattered_stock(t, race, pos, carried@, 5),
                    ground: self.ground_items@,
                    stats: Stats { deaths: (before.stats.deaths + 1) as u64, ..before.stats },
                    ..before
                }),
                self.entities == old(self).entities,
            decreases items.len() - j,
        {
            let it: Item = items[j];
            self.ground_items.push(
                GroundItem { element: it.element, quantity: it.quantity, pos },
            );
            proof {
                let d = dropped(items@, pos);
                assert(d.take(j + 1) =~= d.take(j as int).push(d[j as int]));
            }
            j = j + 1;
        }
        proof {
            let d = dropped(items@, pos);
            assert(d.take(j as int) =~= d);
        }
    }

    /// Age body `i`.
    fn age_one(&mut self, i: usize)
        requires
            old(self)@.wf(),
            i < old(self).entities@.len(),
            old(self).stats.deaths < u64::MAX,
            old(self).stats.starved < u64::MAX,
        ensures
            final(self)@ == aged_one(old(self)@, i as int),
    {
        let ghost before = self@;
        let ghost e = before.ents[i as int];
        assert(e == self.entities@[i as int]@);
        if !self.entities[i].alive {
            return ;
        }
        let el: Element = self.entities[i].element;
        let kind: Kind = self.entities[i].kind;
        let pos: V2 = self.entities[i].pos;
        let lifespan: u64 = self.entities[i].lifespan;
        let age: u64 = self.entities[i].age + 1;
        let hunger: u32 = self.entities[i].hunger.saturating_add(1);
        let starving: bool = hunger > *self.ecology.starve_after.get(el);
        let mut hp: i32 = self.entities[i].hp;
        if starving {
            hp = crate::fx::saturate_i64(hp as i64 - *self.ecology.starve_rate.get(el) as i64);
        }
        let size: u16 = if kind == Kind::Plant {
            let stock: u16 = self.terrain.stock_at(pos, el);
            let ceiling: u16 = growth_ceiling(stock, *self.propagation.growth_ref.get(el));
            grown_size(*self.propagation.offspring_size.get(el), age, lifespan, ceiling)
        } else {
            grown_size(1000, age, lifespan, 1000)
        };
        self.entities[i].age = age;
        self.entities[i].acted = false;
        self.entities[i].hunger = hunger;
        self.entities[i].hp = hp;
        self.entities[i].size = size;
        let ghost o = older(e, before);
        proof {
            assert(self.entities@[i as int]@ == o);
            assert(self@.ents =~= before.ents.update(i as int, o));
        }
        if age >= lifespan || hp <= 0 {
            self.entities[i].alive = false;
            let mut items: Vec<Item> = Vec::new();
            std::mem::swap(&mut items, &mut self.entities[i].items);
            let carried: PerElement<u64> = self.entities[i].carried;
            let material: u64 = self.entities[i].material;
            let race: Race = self.entities[i].race();
            if starving {
                self.stats.starved = self.stats.starved + 1;
            }
            proof {
                let d = EntityV { alive: false, items: Seq::empty(), ..o };
                assert(self.entities@[i as int]@ =~= d);
                assert(self@.ents =~= before.ents.update(i as int, d));
            }
            self.charge_death(race, pos, material, &carried, &items);
        }
    }

    /// Age every body, drain those past their grace period, and bury those
    /// whose time has come.
    pub fn phase_aging(&mut self)
        requires
            old(self)@.wf(),
            old(self).stats.deaths + old(self).entities@.len() <= u64::MAX,
            old(self).stats.starved + old(self).entities@.len() <= u64::MAX,
        ensures
            final(self)@ == aging_phase(old(self)@),
            final(self)@.wf(),
            mass(final(self)@) == mass(old(self)@),
            old(self)@.inside() ==> final(self)@.inside(),
    {
        let ghost before = self@;
        let n: usize = self.entities.len();
        let mut i: usize = 0;
        while i < n
            invariant
                i <= n,
                n == before.ents.len(),
                before.wf(),
                before.stats.deaths + n <= u64::MAX,
                before.stats.starved + n <= u64::MAX,
                self@ == aged(before, i as int),
            decreases n - i,
        {
            proof {
                lemma_aged(before, i as int);
            }
            self.age_one(i);
            i = i + 1;
        }
        proof {
            lemma_aged(before, n as int);
        }
    }
}

} // verus!
