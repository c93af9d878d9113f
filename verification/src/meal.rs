//! Who eats, who is eaten, and what comes of it.
//!
//! An animal that wants food and has prey in reach has a meal this tick, unless
//! one of the two is eaten first. The eaten die and what they were made of goes
//! to the eater, whose hunger ends and who grows stronger; one that is filled
//! up by its meal has young beside it.
use crate::entity::EntityV;
use crate::feeding::{
    at_table, born_upto, catches, cradle, fed_count, feeding_phase, gorged, killed_upto, law_meals,
    law_no_meal_goes_unseen, lemma_gorge, lemma_gorged, lemma_parents, meal_pair, meal_row, meals,
    nourished_upto, pairing, parents, reproduces, Meals,
};
use crate::fx::{abs_int, min_int, sat32, V2};
use crate::hunting::{lives_on, row_of, wants_food};
use crate::parting::gap;
use crate::race::{Kind, Race};
use crate::rand::{draw_chance, draw_signed, Channel};
use crate::seeding::{is_newborn, law_a_birth_adds_a_newborn, lemma_scattered, thrown};
use crate::spatial::lemma_ring_members;
use crate::terrain::cell_xy;
use crate::world::{in_square, lemma_population_bound, spec_birth_scatter, Stats, WorldV};
use vstd::prelude::*;

verus! {

// ----------------------------------------------------------------------
// Who would eat whom.
// ----------------------------------------------------------------------

/// Of two bodies, one eats the other exactly when it is an animal and lives on
/// the other, whichever of them is named first; so never both each other.
pub proof fn law_who_eats_whom(w: WorldV, i: int, j: int)
    requires
        i != j,
    ensures
        pairing(w, i, j) == pairing(w, j, i),
        pairing(w, i, j) == Some((i, j)) <==> w.ents[i].kind == Kind::Animal && lives_on(
            w.ents[i],
            w.ents[j],
        ),
        pairing(w, i, j) == Some((j, i)) <==> w.ents[j].kind == Kind::Animal && lives_on(
            w.ents[j],
            w.ents[i],
        ),
        pairing(w, i, j) is Some ==> pairing(w, i, j) == Some((i, j)) || pairing(w, i, j) == Some(
            (j, i),
        ),
{
}

/// Whether an animal takes animals this tick: its own roll against the weight
/// of its race. Plants it always takes.
pub open spec fn hunts_today(w: WorldV, p: int) -> bool {
    let e = w.ents[p];
    draw_chance(
        w.seed,
        w.tick,
        e.id,
        Channel::Hunt,
        w.ecology.hunt_weight@[row_of(e)] as u32,
        1000,
    )
}

/// An animal and prey of its, both alive; it wants food, and takes such prey.
pub open spec fn would_eat(w: WorldV, p: int, q: int) -> bool {
    &&& 0 <= p < w.ents.len()
    &&& 0 <= q < w.ents.len()
    &&& p != q
    &&& w.ents[p].alive
    &&& w.ents[q].alive
    &&& w.ents[p].kind == Kind::Animal
    &&& lives_on(w.ents[p], w.ents[q])
    &&& wants_food(w.ents[p], w.ecology)
    &&& w.ents[q].kind == Kind::Animal ==> hunts_today(w, p)
}

/// How far an animal reaches for food, in raw units.
pub open spec fn bite(w: WorldV, p: int) -> int {
    w.ecology.forage_radius@[w.ents[p].element.at()].0 as int
}

/// Prey is in reach: no farther off than the animal reaches.
pub open spec fn in_bite(w: WorldV, p: int, q: int) -> bool {
    gap(w.ents[p].pos, w.ents[q].pos) <= bite(w, p) * bite(w, p)
}

proof fn lemma_catches(w: WorldV, p: int, q: int)
    requires
        w.inside(),
        0 <= p < w.ents.len(),
        0 <= q < w.ents.len(),
        w.ents[p].kind == Kind::Animal,
        0 <= bite(w, p),
    ensures
        wants_food(w.ents[p], w.ecology) && in_bite(w, p, q) && (w.ents[q].kind == Kind::Animal
            ==> hunts_today(w, p)) ==> catches(w, p, q),
        catches(w, p, q) ==> wants_food(w.ents[p], w.ecology) && (w.ents[q].kind == Kind::Animal
            ==> hunts_today(w, p)),
        catches(w, p, q) && bite(w, p) * bite(w, p) < 65536 * i32::MAX ==> gap(
            w.ents[p].pos,
            w.ents[q].pos,
        ) < bite(w, p) * bite(w, p) + 131072,
{
    let (a, b) = (w.ents[p], w.ents[q]);
    assert(in_square(w.size, a.pos) && in_square(w.size, b.pos));
    let d = b.pos.minus(a.pos);
    let (dx, dy) = (b.pos.x.0 - a.pos.x.0, b.pos.y.0 - a.pos.y.0);
    assert(d.x.0 == dx && d.y.0 == dy);
    let (x, y, z) = (dx * dx, dy * dy, bite(w, p) * bite(w, p));
    assert(x >= 0 && y >= 0 && z >= 0) by (nonlinear_arith)
        requires
            x == dx * dx,
            y == dy * dy,
            z == bite(w, p) * bite(w, p),
    ;
    let reach = w.ecology.forage_radius@[a.element.at()];
    assert(d.x.times(d.x).0 == sat32(x / 65536));
    assert(d.y.times(d.y).0 == sat32(y / 65536));
    assert(reach.times(reach).0 == sat32(z / 65536));
    assert(row_of(a) == a.race().at());
}

// ----------------------------------------------------------------------
// Finding the meals.
// ----------------------------------------------------------------------

/// A predator has fed, or one of the two has been eaten.
spec fn settled(m: Meals, p: int, q: int) -> bool {
    m.fed[p] || m.eaten[p] || m.eaten[q]
}

/// Whoever of two bodies could take the other has fed, or one of the two has
/// been eaten.
spec fn seen_to(w: WorldV, m: Meals, i: int, j: int) -> bool {
    match pairing(w, i, j) {
        Some((p, q)) => catches(w, p, q) ==> settled(m, p, q),
        None => true,
    }
}

spec fn sized(w: WorldV, m: Meals) -> bool {
    m.eaten.len() == w.ents.len() && m.fed.len() == w.ents.len()
}

spec fn grows(m: Meals, o: Meals) -> bool {
    &&& forall|x: int| 0 <= x < m.eaten.len() && #[trigger] m.eaten[x] ==> o.eaten[x]
    &&& forall|x: int| 0 <= x < m.fed.len() && #[trigger] m.fed[x] ==> o.fed[x]
}

/// Every meal found is one that a body may have.
spec fn sound(w: WorldV, m: Meals) -> bool {
    forall|l: int|
        0 <= l < m.pairs.len() ==> {
            let (p, q) = #[trigger] m.pairs[l];
            &&& p != q
            &&& pairing(w, p, q) == Some((p, q))
            &&& catches(w, p, q)
        }
}

proof fn lemma_pair_found(w: WorldV, m: Meals, i: int, j: int)
    requires
        0 <= i < w.ents.len(),
        0 <= j < w.ents.len(),
        sized(w, m),
        sound(w, m),
    ensures
        ({
            let o = meal_pair(w, m, i, j);
            &&& sized(w, o)
            &&& grows(m, o)
            &&& sound(w, o)
            &&& i < j && w.ents[j].alive ==> seen_to(w, o, i, j)
        }),
{
    reveal(meal_pair);
    let o = meal_pair(w, m, i, j);
    if i != j {
        law_who_eats_whom(w, i, j);
    }
    assert forall|l: int| 0 <= l < o.pairs.len() implies {
        let (p, q) = #[trigger] o.pairs[l];
        &&& p != q
        &&& pairing(w, p, q) == Some((p, q))
        &&& catches(w, p, q)
    } by {
        if l < m.pairs.len() {
            assert(o.pairs[l] == m.pairs[l]);
        }
    }
}

proof fn lemma_row_found(w: WorldV, m: Meals, i: int, near: Seq<u32>, k: int)
    requires
        0 <= i < w.ents.len(),
        0 <= k <= near.len(),
        forall|x: int| 0 <= x < near.len() ==> #[trigger] near[x] < w.ents.len(),
        sized(w, m),
        sound(w, m),
    ensures
        ({
            let o = meal_row(w, m, i, near, k);
            &&& sized(w, o)
            &&& grows(m, o)
            &&& sound(w, o)
            &&& forall|x: int|
                0 <= x < k && i < #[trigger] near[x] && w.ents[near[x] as int].alive ==> seen_to(
                    w,
                    o,
                    i,
                    near[x] as int,
                )
        }),
    decreases k,
{
    if k > 0 {
        lemma_row_found(w, m, i, near, k - 1);
        let v = meal_row(w, m, i, near, k - 1);
        let j = near[k - 1] as int;
        assert(near[k - 1] < w.ents.len());
        lemma_pair_found(w, v, i, j);
        let o = meal_row(w, m, i, near, k);
        assert forall|x: int|
            0 <= x < k && i < #[trigger] near[x] && w.ents[near[x] as int].alive implies seen_to(
            w,
            o,
            i,
            near[x] as int,
        ) by {
            assert(near[x] < w.ents.len());
            law_who_eats_whom(w, i, near[x] as int);
        }
    }
}

proof fn lemma_found(w: WorldV, n: int)
    requires
        0 <= n <= w.ents.len() <= u32::MAX,
    ensures
        sized(w, meals(w, n)),
        sound(w, meals(w, n)),
        n > 0 ==> grows(meals(w, n - 1), meals(w, n)),
    decreases n,
{
    if n > 0 {
        lemma_found(w, n - 1);
        let near = at_table(w, n - 1);
        lemma_table(w, n - 1);
        lemma_row_found(w, meals(w, n - 1), n - 1, near, near.len() as int);
    }
}

proof fn lemma_table(w: WorldV, i: int)
    requires
        w.ents.len() <= u32::MAX,
    ensures
        forall|x: int| 0 <= x < at_table(w, i).len() ==> #[trigger] at_table(w, i)[x] < w.ents.len(),
{
    let (cx, cy) = cell_xy(w.terrain.side, w.ents[i].pos);
    lemma_ring_members(
        w.ents,
        w.terrain.side,
        cx,
        cy,
        crate::spatial::spec_radius_cells(crate::feeding::longest_reach(w.ecology, 5)),
    );
}

proof fn lemma_had(w: WorldV, n: int, i: int, j: int, p: int, q: int)
    requires
        0 <= i < j < w.ents.len() <= u32::MAX,
        i < n <= w.ents.len(),
        w.ents[i].alive,
        w.ents[j].alive,
        (p, q) == (i, j) || (p, q) == (j, i),
        pairing(w, i, j) == Some((p, q)),
        catches(w, p, q),
        at_table(w, i).contains(j as u32),
    ensures
        settled(meals(w, n), p, q),
    decreases n,
{
    lemma_found(w, n);
    lemma_found(w, n - 1);
    let m = meals(w, n - 1);
    if n - 1 > i {
        lemma_had(w, n - 1, i, j, p, q);
        assert(m.fed[p] || m.eaten[p] || m.eaten[q]);
    } else {
        let near = at_table(w, i);
        lemma_table(w, i);
        lemma_row_found(w, m, i, near, near.len() as int);
        if !m.eaten[i] {
            let x = near.index_of(j as u32);
            assert(near[x] == j);
        } else {
            assert(meals(w, n).eaten[i]);
        }
    }
}

// ----------------------------------------------------------------------
// What meals do.
// ----------------------------------------------------------------------

proof fn lemma_killed_each(w: WorldV, eaten: Seq<bool>, n: int)
    requires
        0 <= n <= w.ents.len(),
    ensures
        ({
            let u = killed_upto(w, eaten, n);
            &&& u.ents.len() == w.ents.len()
            &&& u.next_id == w.next_id
            &&& u.size == w.size
            &&& u.races == w.races
            &&& u.seed == w.seed
            &&& u.tick == w.tick
            &&& forall|i: int|
                0 <= i < w.ents.len() ==> #[trigger] u.ents[i] == (if i < n && eaten[i] {
                    EntityV { alive: false, hp: 0, items: Seq::empty(), ..w.ents[i] }
                } else {
                    w.ents[i]
                })
        }),
    decreases n,
{
    if n > 0 {
        lemma_killed_each(w, eaten, n - 1);
    }
}

proof fn lemma_born_each(w: WorldV, births: Seq<(Race, V2, u32)>, k: int)
    requires
        w.size.0 >= 0,
        0 <= k <= births.len(),
        w.next_id + births.len() <= u32::MAX,
    ensures
        ({
            let u = born_upto(w, births, k);
            &&& u.ents.len() == w.ents.len() + k
            &&& u.next_id == w.next_id + k
            &&& u.size == w.size
            &&& u.races == w.races
            &&& forall|i: int| 0 <= i < w.ents.len() ==> #[trigger] u.ents[i] == w.ents[i]
            &&& forall|x: int|
                w.ents.len() <= x < u.ents.len() ==> {
                    let (race, pos, id) = births[x - w.ents.len()];
                    let at = crate::world::clamped(w.size, cradle(w, pos, id));
                    &&& is_newborn(w, #[trigger] u.ents[x], race.element, at, 1000)
                    &&& u.ents[x].kind == w.races[race.at()].kind
                    &&& u.ents[x].pos == at
                }
        }),
    decreases k,
{
    if k > 0 {
        lemma_born_each(w, births, k - 1);
        let v = born_upto(w, births, k - 1);
        let u = born_upto(w, births, k);
        let (race, pos, id) = births[k - 1];
        let c = cradle(w, pos, id);
        law_a_birth_adds_a_newborn(v, race, c, 1000);
        assert forall|x: int| w.ents.len() <= x < u.ents.len() implies {
            let (race, pos, id) = births[x - w.ents.len()];
            let at = crate::world::clamped(w.size, cradle(w, pos, id));
            &&& is_newborn(w, #[trigger] u.ents[x], race.element, at, 1000)
            &&& u.ents[x].kind == w.races[race.at()].kind
            &&& u.ents[x].pos == at
        } by {
            if x < v.ents.len() {
                assert(u.ents.drop_last()[x] == u.ents[x]);
                assert(u.ents[x] == v.ents[x]);
            }
        }
        assert forall|i: int| 0 <= i < w.ents.len() implies #[trigger] u.ents[i] == w.ents[i] by {
            assert(u.ents.drop_last()[i] == u.ents[i]);
            assert(v.ents[i] == w.ents[i]);
        }
    }
}

/// What becomes of a body `e` in a tick of feeding, told by whether it fed and
/// whether it was eaten: the eaten are dead; one that fed has no hunger left
/// and gains what a meal gives, up to full strength; nobody else changes.
pub open spec fn after_meals(w: WorldV, e: EntityV, o: EntityV, fed: bool, eaten: bool) -> bool {
    let gain = w.ecology.feed_gain@[e.element.at()];
    &&& o.id == e.id
    &&& o.element == e.element
    &&& o.kind == e.kind
    &&& o.pos == e.pos
    &&& o.heading == e.heading
    &&& o.age == e.age
    &&& o.lifespan == e.lifespan
    &&& o.carried == e.carried
    &&& eaten ==> !o.alive && o.items.len() == 0
    &&& !eaten ==> o.alive == e.alive && o.items == e.items
    &&& fed ==> o.hunger == 0
    &&& !fed ==> o.hunger == e.hunger
    &&& fed && !eaten && -1000 <= e.hp <= 1000 && -1000 <= gain <= 1000 ==> o.hp == min_int(
        e.hp + gain,
        100,
    )
    &&& !fed && !eaten ==> o.hp == e.hp
}

proof fn lemma_effects(w: WorldV)
    requires
        w.wf(),
        w.size.0 >= 0,
        w.next_id + w.ents.len() <= u32::MAX,
    ensures
        ({
            let n = w.ents.len() as int;
            let m = meals(w, n);
            let u = feeding_phase(w);
            let g = gorged(w.ents, m.pairs, m.pairs.len() as int);
            &&& m.wf(w)
            &&& w.ents.len() <= u.ents.len()
            &&& forall|i: int|
                0 <= i < n ==> after_meals(
                    w,
                    w.ents[i],
                    #[trigger] u.ents[i],
                    m.fed[i],
                    m.eaten[i],
                ) && u.ents[i].material == g[i].material
        }),
{
    let n = w.ents.len() as int;
    lemma_population_bound(w.ents, w.next_id);
    law_meals(w, n);
    let m = meals(w, n);
    let g = gorged(w.ents, m.pairs, m.pairs.len() as int);
    lemma_gorged(w, m, m.pairs.len() as int);
    let v = WorldV {
        ents: nourished_upto(g, m.fed, w.ecology, n),
        stats: Stats { feedings: (w.stats.feedings + fed_count(m.fed, n)) as u64, ..w.stats },
        ..w
    };
    lemma_killed_each(v, m.eaten, n);
    lemma_parents(g, m.fed, w.ecology, n);
    let x = killed_upto(v, m.eaten, n);
    let births = parents(g, m.fed, w.ecology, n);
    lemma_born_each(x, births, births.len() as int);
    let u = feeding_phase(w);
    assert forall|i: int| 0 <= i < n implies after_meals(
        w,
        w.ents[i],
        #[trigger] u.ents[i],
        m.fed[i],
        m.eaten[i],
    ) && u.ents[i].material == g[i].material by {
        assert(u.ents[i] == x.ents[i]);
        assert(g[i] == (EntityV { material: g[i].material, ..w.ents[i] }));
    }
}

/// Nobody goes hungry beside food. An animal that wants food and has prey in
/// reach feeds this tick, unless it is eaten itself or somebody else eats that
/// prey: at the end of the phase one of the two is dead, or the animal's hunger
/// is at an end. It does not matter which of the two comes first in the list.
pub proof fn law_nobody_goes_hungry_beside_food(w: WorldV, p: int, q: int)
    requires
        w.wf(),
        w.inside(),
        w.next_id + w.ents.len() <= u32::MAX,
        would_eat(w, p, q),
        0 <= bite(w, p),
        bite(w, p) * bite(w, p) < 65536 * i32::MAX,
        in_bite(w, p, q),
    ensures
        ({
            let m = meals(w, w.ents.len() as int);
            let u = feeding_phase(w);
            &&& m.fed[p] || m.eaten[p] || m.eaten[q]
            &&& u.ents[p].alive && u.ents[q].alive ==> m.fed[p] && u.ents[p].hunger == 0
        }),
{
    let n = w.ents.len() as int;
    lemma_population_bound(w.ents, w.next_id);
    let (i, j) = if p < q {
        (p, q)
    } else {
        (q, p)
    };
    lemma_catches(w, p, q);
    law_who_eats_whom(w, i, j);
    let reach = w.ecology.forage_radius@[w.ents[p].element.at()];
    let z = bite(w, p) * bite(w, p);
    assert(z >= 0) by (nonlinear_arith)
        requires
            z == bite(w, p) * bite(w, p),
    ;
    assert(z / 65536 < i32::MAX);
    assert(reach.times(reach).0 < i32::MAX);
    law_no_meal_goes_unseen(w, i, j, p, q);
    lemma_had(w, n, i, j, p, q);
    lemma_effects(w);
    let u = feeding_phase(w);
    assert(after_meals(
        w,
        w.ents[p],
        u.ents[p],
        meals(w, n).fed[p],
        meals(w, n).eaten[p],
    ));
    assert(after_meals(
        w,
        w.ents[q],
        u.ents[q],
        meals(w, n).fed[q],
        meals(w, n).eaten[q],
    ));
}

/// `p` has eaten `q` this tick.
pub open spec fn ate(w: WorldV, p: int, q: int) -> bool {
    exists|l: int|
        0 <= l < meals(w, w.ents.len() as int).pairs.len() && #[trigger] meals(
            w,
            w.ents.len() as int,
        ).pairs[l] == (p, q)
}

/// Who eats and who is eaten has a meal to show for it: an eater is an animal
/// that wanted food and took prey of its in reach; it has one meal only, and
/// nobody is eaten twice.
pub proof fn law_every_meal_is_by_the_rules(w: WorldV, p: int, q: int)
    requires
        w.wf(),
        w.inside(),
        w.next_id + w.ents.len() <= u32::MAX,
        ate(w, p, q),
    ensures
        would_eat(w, p, q),
        0 <= bite(w, p) && bite(w, p) * bite(w, p) < 65536 * i32::MAX ==> gap(
            w.ents[p].pos,
            w.ents[q].pos,
        ) < bite(w, p) * bite(w, p) + 131072,
        forall|o: int| #[trigger] ate(w, p, o) ==> o == q,
        forall|o: int| #[trigger] ate(w, o, q) ==> o == p,
        !feeding_phase(w).ents[q].alive,
        feeding_phase(w).ents[p].hunger == 0,
{
    let n = w.ents.len() as int;
    lemma_population_bound(w.ents, w.next_id);
    lemma_effects(w);
    lemma_found(w, n);
    let m = meals(w, n);
    let l = choose|l: int| 0 <= l < m.pairs.len() && #[trigger] m.pairs[l] == (p, q);
    law_who_eats_whom(w, p, q);
    let u = feeding_phase(w);
    assert(after_meals(w, w.ents[p], u.ents[p], m.fed[p], m.eaten[p]));
    assert(after_meals(w, w.ents[q], u.ents[q], m.fed[q], m.eaten[q]));
    assert(row_of(w.ents[p]) == w.ents[p].race().at());
    if 0 <= bite(w, p) {
        lemma_catches(w, p, q);
    }
    assert forall|o: int| #[trigger] ate(w, p, o) implies o == q by {
        let x = choose|x: int| 0 <= x < m.pairs.len() && #[trigger] m.pairs[x] == (p, o);
        if x < l {
            assert(m.pairs[l].0 != m.pairs[x].0);
        } else if l < x {
            assert(m.pairs[x].0 != m.pairs[l].0);
        }
    }
    assert forall|o: int| #[trigger] ate(w, o, q) implies o == p by {
        let x = choose|x: int| 0 <= x < m.pairs.len() && #[trigger] m.pairs[x] == (o, q);
        if x < l {
            assert(m.pairs[l].1 != m.pairs[x].1);
        } else if l < x {
            assert(m.pairs[x].1 != m.pairs[l].1);
        }
    }
}

/// Feeding changes a body by its meals alone: one that has eaten has no hunger
/// left and is stronger by what a meal gives, up to full strength; one that has
/// been eaten is dead; and nobody else changes.
pub proof fn law_meals_are_what_changes_a_body(w: WorldV, i: int)
    requires
        w.wf(),
        w.inside(),
        w.next_id + w.ents.len() <= u32::MAX,
        0 <= i < w.ents.len(),
    ensures
        ({
            let o = feeding_phase(w).ents[i];
            let fed = exists|q: int| ate(w, i, q);
            let eaten = exists|p: int| ate(w, p, i);
            &&& after_meals(w, w.ents[i], o, fed, eaten)
            &&& !fed && !eaten ==> o == w.ents[i]
        }),
{
    let n = w.ents.len() as int;
    lemma_population_bound(w.ents, w.next_id);
    lemma_effects(w);
    let m = meals(w, n);
    let u = feeding_phase(w);
    let g = gorged(w.ents, m.pairs, m.pairs.len() as int);
    assert(after_meals(w, w.ents[i], u.ents[i], m.fed[i], m.eaten[i]));
    if m.fed[i] {
        let l = choose|l: int| 0 <= l < m.pairs.len() && (#[trigger] m.pairs[l]).0 == i;
        assert(ate(w, i, m.pairs[l].1));
    } else if exists|q: int| ate(w, i, q) {
        let q = choose|q: int| ate(w, i, q);
        let l = choose|l: int| 0 <= l < m.pairs.len() && #[trigger] m.pairs[l] == (i, q);
        assert(m.fed[m.pairs[l].0]);
    }
    if m.eaten[i] {
        let l = choose|l: int| 0 <= l < m.pairs.len() && (#[trigger] m.pairs[l]).1 == i;
        assert(ate(w, m.pairs[l].0, i));
    } else if exists|p: int| ate(w, p, i) {
        let p = choose|p: int| ate(w, p, i);
        let l = choose|l: int| 0 <= l < m.pairs.len() && #[trigger] m.pairs[l] == (p, i);
        assert(m.eaten[m.pairs[l].1]);
    }
    if !m.fed[i] && !m.eaten[i] {
        lemma_untouched(w, i);
    }
}

proof fn lemma_untouched(w: WorldV, i: int)
    requires
        w.wf(),
        w.size.0 >= 0,
        w.next_id + w.ents.len() <= u32::MAX,
        0 <= i < w.ents.len(),
        !meals(w, w.ents.len() as int).fed[i],
        !meals(w, w.ents.len() as int).eaten[i],
    ensures
        feeding_phase(w).ents[i] == w.ents[i],
{
    let n = w.ents.len() as int;
    lemma_population_bound(w.ents, w.next_id);
    law_meals(w, n);
    let m = meals(w, n);
    let g = gorged(w.ents, m.pairs, m.pairs.len() as int);
    lemma_gorged(w, m, m.pairs.len() as int);
    assert forall|l: int| 0 <= l < m.pairs.len() implies (#[trigger] m.pairs[l]).0 != i
        && m.pairs[l].1 != i by {
        assert(m.fed[m.pairs[l].0] && m.eaten[m.pairs[l].1]);
    }
    assert(g[i] == w.ents[i]);
    let v = WorldV {
        ents: nourished_upto(g, m.fed, w.ecology, n),
        stats: Stats { feedings: (w.stats.feedings + fed_count(m.fed, n)) as u64, ..w.stats },
        ..w
    };
    lemma_killed_each(v, m.eaten, n);
    lemma_parents(g, m.fed, w.ecology, n);
    let x = killed_upto(v, m.eaten, n);
    let births = parents(g, m.fed, w.ecology, n);
    lemma_born_each(x, births, births.len() as int);
}

/// An eater takes over all that its prey is made of. Where the prey had no meal
/// itself and the eater is not eaten in turn, the eater ends up made of what
/// the two were made of, and the prey of nothing.
pub proof fn law_an_eater_takes_over_its_prey(w: WorldV, p: int, q: int)
    requires
        w.wf(),
        w.inside(),
        w.next_id + w.ents.len() <= u32::MAX,
        ate(w, p, q),
        forall|o: int| !ate(w, q, o),
        forall|o: int| !ate(w, o, p),
    ensures
        feeding_phase(w).ents[p].material == w.ents[p].material + w.ents[q].material,
        feeding_phase(w).ents[q].material == 0,
{
    let n = w.ents.len() as int;
    lemma_population_bound(w.ents, w.next_id);
    lemma_effects(w);
    let m = meals(w, n);
    let k = m.pairs.len() as int;
    let l = choose|l: int| 0 <= l < m.pairs.len() && #[trigger] m.pairs[l] == (p, q);
    assert forall|x: int| 0 <= x < k && x != l implies {
        let (a, b) = #[trigger] m.pairs[x];
        a != p && a != q && b != p && b != q
    } by {
        let (a, b) = m.pairs[x];
        assert(ate(w, a, b));
        if x < l {
            assert(m.pairs[l].0 != m.pairs[x].0 && m.pairs[l].1 != m.pairs[x].1);
        } else {
            assert(m.pairs[x].0 != m.pairs[l].0 && m.pairs[x].1 != m.pairs[l].1);
        }
        if a == q {
            assert(ate(w, q, b));
        }
        if b == p {
            assert(ate(w, a, p));
        }
    }
    lemma_takeover(w, m, k, l);
    let u = feeding_phase(w);
    let g = gorged(w.ents, m.pairs, k);
    assert(u.ents[p].material == g[p].material);
    assert(u.ents[q].material == g[q].material);
}

proof fn lemma_takeover(w: WorldV, m: Meals, k: int, l: int)
    requires
        w.wf(),
        m.wf(w),
        0 <= l < m.pairs.len(),
        0 <= k <= m.pairs.len(),
        forall|x: int|
            0 <= x < m.pairs.len() && x != l ==> {
                let (a, b) = #[trigger] m.pairs[x];
                a != m.pairs[l].0 && a != m.pairs[l].1 && b != m.pairs[l].0 && b != m.pairs[l].1
            },
    ensures
        ({
            let g = gorged(w.ents, m.pairs, k);
            let (p, q) = m.pairs[l];
            if k > l {
                &&& g[p].material == w.ents[p].material + w.ents[q].material
                &&& g[q].material == 0
            } else {
                &&& g[p].material == w.ents[p].material
                &&& g[q].material == w.ents[q].material
            }
        }),
    decreases k,
{
    if k > 0 {
        lemma_takeover(w, m, k - 1, l);
        lemma_gorged(w, m, k - 1);
        let (a, b) = m.pairs[k - 1];
        lemma_gorge(w, gorged(w.ents, m.pairs, k - 1), a, b);
    }
}

// ----------------------------------------------------------------------
// The young.
// ----------------------------------------------------------------------

/// A meal has carried a body across the mark at which it has young: it was
/// below it before, and is not any more.
pub open spec fn filled_up(w: WorldV, e: EntityV) -> bool {
    let mark = w.ecology.repro_threshold@[e.element.at()] as int;
    let gain = w.ecology.feed_gain@[e.element.at()] as int;
    e.hp < mark && mark <= min_int(e.hp + gain, 100)
}

proof fn lemma_parent_of(ents: Seq<EntityV>, w: WorldV, fed: Seq<bool>, n: int, x: int) -> (i: int)
    requires
        0 <= n,
        0 <= x < parents(ents, fed, w.ecology, n).len(),
    ensures
        0 <= i < n,
        fed[i],
        reproduces(ents[i], w.ecology),
        parents(ents, fed, w.ecology, n)[x] == (ents[i].race(), ents[i].pos, ents[i].id),
    decreases n,
{
    let s = parents(ents, fed, w.ecology, n - 1);
    if x < s.len() {
        lemma_parent_of(ents, w, fed, n - 1, x)
    } else {
        n - 1
    }
}

proof fn lemma_child_of(ents: Seq<EntityV>, w: WorldV, fed: Seq<bool>, n: int, i: int) -> (x: int)
    requires
        0 <= i < n,
        fed[i],
        reproduces(ents[i], w.ecology),
    ensures
        0 <= x < parents(ents, fed, w.ecology, n).len(),
        parents(ents, fed, w.ecology, n)[x] == (ents[i].race(), ents[i].pos, ents[i].id),
    decreases n,
{
    if i == n - 1 {
        parents(ents, fed, w.ecology, n).len() - 1
    } else {
        lemma_child_of(ents, w, fed, n - 1, i)
    }
}

/// `o` is young of body `i`: of its element, a newborn of full size, beside it
/// by no more than a cell and a half along either axis.
pub open spec fn young_of(w: WorldV, o: EntityV, i: int) -> bool {
    let e = w.ents[i];
    &&& 0 <= i < w.ents.len()
    &&& is_newborn(w, o, e.element, o.pos, 1000)
    &&& o.kind == w.races[row_of(e)].kind
    &&& in_square(w.size, o.pos)
    &&& abs_int(o.pos.x.0 - e.pos.x.0) <= 98304
    &&& abs_int(o.pos.y.0 - e.pos.y.0) <= 98304
    &&& thrown(
        e.pos.x.0 as int,
        o.pos.x.0 as int,
        draw_signed(w.seed, w.tick, e.id, Channel::Forage).0 as int,
        98304,
        w.size.0 as int,
    )
    &&& thrown(
        e.pos.y.0 as int,
        o.pos.y.0 as int,
        draw_signed(w.seed, w.tick, e.id.wrapping_add(0x0F0D), Channel::Forage).0 as int,
        98304,
        w.size.0 as int,
    )
}

/// The bodies that have just fed, with what they have taken over.
spec fn gorged_now(w: WorldV) -> Seq<EntityV> {
    let m = meals(w, w.ents.len() as int);
    gorged(w.ents, m.pairs, m.pairs.len() as int)
}

/// Those of them that have young.
spec fn births_now(w: WorldV) -> Seq<(Race, V2, u32)> {
    parents(
        gorged_now(w),
        meals(w, w.ents.len() as int).fed,
        w.ecology,
        w.ents.len() as int,
    )
}

proof fn lemma_newborns(w: WorldV, x: int)
    requires
        w.wf(),
        w.inside(),
        w.next_id + w.ents.len() <= u32::MAX,
    ensures
        feeding_phase(w).ents.len() == w.ents.len() + births_now(w).len(),
        w.ents.len() <= x < feeding_phase(w).ents.len() ==> ({
            let o = feeding_phase(w).ents[x];
            let (race, pos, id) = births_now(w)[x - w.ents.len()];
            let at = crate::world::clamped(w.size, cradle(w, pos, id));
            &&& is_newborn(w, o, race.element, at, 1000)
            &&& o.kind == w.races[race.at()].kind
            &&& o.pos == at
        }),
{
    let n = w.ents.len() as int;
    lemma_population_bound(w.ents, w.next_id);
    law_meals(w, n);
    let m = meals(w, n);
    let g = gorged_now(w);
    lemma_gorged(w, m, m.pairs.len() as int);
    let v = WorldV {
        ents: nourished_upto(g, m.fed, w.ecology, n),
        stats: Stats { feedings: (w.stats.feedings + fed_count(m.fed, n)) as u64, ..w.stats },
        ..w
    };
    lemma_killed_each(v, m.eaten, n);
    lemma_parents(g, m.fed, w.ecology, n);
    let k = killed_upto(v, m.eaten, n);
    let births = births_now(w);
    lemma_born_each(k, births, births.len() as int);
}

proof fn lemma_young(w: WorldV, x: int, i: int)
    requires
        w.wf(),
        w.inside(),
        w.next_id + w.ents.len() <= u32::MAX,
        0 <= i < w.ents.len() <= x < feeding_phase(w).ents.len(),
        births_now(w)[x - w.ents.len()] == (
            w.ents[i].race(),
            w.ents[i].pos,
            w.ents[i].id,
        ),
    ensures
        young_of(w, feeding_phase(w).ents[x], i),
{
    lemma_newborns(w, x);
    let e = w.ents[i];
    assert(in_square(w.size, e.pos));
    let far = spec_birth_scatter();
    assert(far.0 == 98304);
    lemma_scattered(
        e.pos.x,
        draw_signed(w.seed, w.tick, e.id, Channel::Forage),
        far,
        w.size,
    );
    lemma_scattered(
        e.pos.y,
        draw_signed(w.seed, w.tick, e.id.wrapping_add(0x0F0D), Channel::Forage),
        far,
        w.size,
    );
    assert(row_of(e) == e.race().at());
}

proof fn lemma_same_parent(w: WorldV, i: int)
    requires
        w.wf(),
        0 <= i < w.ents.len(),
    ensures
        meals(w, w.ents.len() as int).wf(w),
        gorged_now(w)[i] == (EntityV { material: gorged_now(w)[i].material, ..w.ents[i] }),
        -1000 <= w.ents[i].hp <= 1000 && -1000 <= w.ecology.feed_gain@[w.ents[i].element.at()]
            <= 1000 ==> (reproduces(gorged_now(w)[i], w.ecology) <==> filled_up(w, w.ents[i])),
{
    let n = w.ents.len() as int;
    lemma_population_bound(w.ents, w.next_id);
    law_meals(w, n);
    let m = meals(w, n);
    lemma_gorged(w, m, m.pairs.len() as int);
}

/// Young come from a meal and from nothing else: each newborn of the phase has
/// a parent that has eaten and was filled up by it.
pub proof fn law_young_have_a_well_fed_parent(w: WorldV, x: int)
    requires
        w.wf(),
        w.inside(),
        w.next_id + w.ents.len() <= u32::MAX,
        forall|i: int| 0 <= i < w.ents.len() ==> -1000 <= (#[trigger] w.ents[i]).hp <= 1000,
        forall|k: int| 0 <= k < 5 ==> -1000 <= #[trigger] w.ecology.feed_gain@[k] <= 1000,
        w.ents.len() <= x < feeding_phase(w).ents.len(),
    ensures
        exists|i: int, q: int|
            #[trigger] ate(w, i, q) && filled_up(w, w.ents[i]) && young_of(
                w,
                feeding_phase(w).ents[x],
                i,
            ),
{
    let n = w.ents.len() as int;
    let m = meals(w, n);
    lemma_newborns(w, x);
    let i = lemma_parent_of(gorged_now(w), w, m.fed, n, x - n);
    lemma_same_parent(w, i);
    lemma_young(w, x, i);
    assert(-1000 <= w.ents[i].hp <= 1000);
    assert(-1000 <= w.ecology.feed_gain@[w.ents[i].element.at()] <= 1000);
    let l = choose|l: int| 0 <= l < m.pairs.len() && (#[trigger] m.pairs[l]).0 == i;
    assert(ate(w, i, m.pairs[l].1));
}

/// Every body that has eaten and was filled up by it has young beside it.
pub proof fn law_a_filling_meal_brings_young(w: WorldV, i: int, q: int)
    requires
        w.wf(),
        w.inside(),
        w.next_id + w.ents.len() <= u32::MAX,
        0 <= i < w.ents.len(),
        -1000 <= w.ents[i].hp <= 1000,
        -1000 <= w.ecology.feed_gain@[w.ents[i].element.at()] <= 1000,
        ate(w, i, q),
        filled_up(w, w.ents[i]),
    ensures
        exists|y: int|
            w.ents.len() <= y < feeding_phase(w).ents.len() && young_of(
                w,
                #[trigger] feeding_phase(w).ents[y],
                i,
            ),
{
    let n = w.ents.len() as int;
    let m = meals(w, n);
    lemma_same_parent(w, i);
    let l = choose|l: int| 0 <= l < m.pairs.len() && #[trigger] m.pairs[l] == (i, q);
    assert(m.fed[m.pairs[l].0]);
    let b = lemma_child_of(gorged_now(w), w, m.fed, n, i);
    lemma_newborns(w, n + b);
    lemma_young(w, n + b, i);
}

} // verus!
