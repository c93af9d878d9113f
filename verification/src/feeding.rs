//! Feeding: who eats whom, what becomes of the eaten, and who is born of it.
//!
//! An animal whose hunger has reached satiation eats prey within its reach: a
//! plant of its own element, or an animal one step back on the ring, the
//! latter only when this tick's roll allows it. A plant never eats. All meals
//! are found first, bodies in ascending order, and then take effect.
use crate::aging::{buried, law_burial_returns_everything};
use crate::ecology::EcologyTuning;
use crate::element::{Element, PerElement};
use crate::entity::{EntityV, Item, MAX_HP};
use crate::fx::{sat32, Fx, V2};
use crate::race::{Kind, Race};
use crate::rand::{draw_chance, draw_signed, rand_chance, rand_signed, Channel};
use crate::spatial::{law_a_query_finds_the_ring, lemma_ring_members, ring, spec_radius_cells, SpatialIndex};
use crate::sums::{lemma_sum_update, sum_by};
use crate::terrain::{cell_xy, sat_u64};
use crate::world::{
    birth_scatter, body_mass, body_masses, in_square, law_birth_keeps_the_books,
    lemma_body_mass_parts, lemma_mass_parts, lemma_population_bound, mass, shaped,
    spawned, spec_birth_scatter, Stats, World, WorldV,
};
use vstd::prelude::*;

verus! {

/// Who of bodies `i` and `j` would eat the other: predator and prey.
pub open spec fn pairing(w: WorldV, i: int, j: int) -> Option<(int, int)> {
    let (a, b) = (w.ents[i], w.ents[j]);
    match (a.kind, b.kind) {
        (Kind::Animal, Kind::Plant) => if a.element.spec_eats_plant() == b.element {
            Some((i, j))
        } else {
            None
        },
        (Kind::Plant, Kind::Animal) => if b.element.spec_eats_plant() == a.element {
            Some((j, i))
        } else {
            None
        },
        (Kind::Animal, Kind::Animal) => if a.element.spec_eats_animal() == b.element {
            Some((i, j))
        } else if b.element.spec_eats_animal() == a.element {
            Some((j, i))
        } else {
            None
        },
        (Kind::Plant, Kind::Plant) => None,
    }
}

/// A plant never eats: whoever of two bodies would eat the other is an animal.
pub proof fn law_a_plant_never_eats(w: WorldV, i: int, j: int)
    ensures
        pairing(w, i, j) matches Some((pred, prey)) ==> w.ents[pred].kind == Kind::Animal && ((
        pred == i && prey == j) || (pred == j && prey == i)),
{
}

/// Whether `pred` takes `prey` this tick: hungry, within reach, and, for
/// animal prey, rolled. The roll is the predator's alone.
pub open spec fn catches(w: WorldV, pred: int, prey: int) -> bool {
    let (p, q) = (w.ents[pred], w.ents[prey]);
    let reach = w.ecology.forage_radius@[p.element.at()];
    &&& p.hunger >= w.ecology.satiation@[p.element.at()]
    &&& q.pos.minus(p.pos).spec_len_sq().0 <= reach.times(reach).0
    &&& q.kind == Kind::Animal ==> draw_chance(
        w.seed,
        w.tick,
        p.id,
        Channel::Hunt,
        w.ecology.hunt_weight@[p.race().at()] as u32,
        1000,
    )
}

/// The meals found so far: who has been eaten, who has fed, and the pairs in
/// the order they were found, predator first.
#[verifier::ext_equal]
pub struct Meals {
    pub eaten: Seq<bool>,
    pub fed: Seq<bool>,
    pub pairs: Seq<(int, int)>,
}

/// The meals after the pair `i`, `j` has been looked at. A body feeds at most
/// once and is eaten at most once, and what has been eaten feeds no more.
#[verifier::opaque]
pub open spec fn meal_pair(w: WorldV, m: Meals, i: int, j: int) -> Meals {
    if j <= i || !w.ents[j].alive || m.eaten[j] {
        m
    } else {
        match pairing(w, i, j) {
            None => m,
            Some((pred, prey)) => if m.eaten[pred] || m.eaten[prey] || m.fed[pred] || !catches(
                w,
                pred,
                prey,
            ) {
                m
            } else {
                Meals {
                    eaten: m.eaten.update(prey, true),
                    fed: m.fed.update(pred, true),
                    pairs: m.pairs.push((pred, prey)),
                }
            },
        }
    }
}

/// The meals after body `i` has been paired with the first `k` of `near`.
pub open spec fn meal_row(w: WorldV, m: Meals, i: int, near: Seq<u32>, k: int) -> Meals
    decreases k,
{
    if k <= 0 {
        m
    } else {
        meal_pair(w, meal_row(w, m, i, near, k - 1), i, near[k - 1] as int)
    }
}

/// The longest reach among the first `n` elements, and of the first at least.
pub open spec fn longest_reach(t: EcologyTuning, n: int) -> Fx
    decreases n,
{
    if n <= 1 {
        t.forage_radius@[0]
    } else {
        let r = longest_reach(t, n - 1);
        if t.forage_radius@[n - 1].0 > r.0 {
            t.forage_radius@[n - 1]
        } else {
            r
        }
    }
}

/// The bodies near enough to body `i` to eat it or be eaten by it.
pub open spec fn at_table(w: WorldV, i: int) -> Seq<u32> {
    let (cx, cy) = cell_xy(w.terrain.side, w.ents[i].pos);
    ring(w.ents, w.terrain.side, cx, cy, spec_radius_cells(longest_reach(w.ecology, 5)))
}

proof fn lemma_longest_reach(t: EcologyTuning, n: int, k: int)
    requires
        0 <= k < n,
    ensures
        t.forage_radius@[k].0 <= longest_reach(t, n).0,
    decreases n,
{
    if n > 1 && k < n - 1 {
        lemma_longest_reach(t, n - 1, k);
    }
}

/// No meal goes unseen: looking at the nearby cells alone finds every pair of
/// which one could eat the other. Reaches are not negative, and the square of
/// the predator's can be held.
pub proof fn law_no_meal_goes_unseen(w: WorldV, i: int, j: int, pred: int, prey: int)
    requires
        w.terrain.side >= 1,
        0 <= i < w.ents.len() <= u32::MAX,
        0 <= j < w.ents.len(),
        w.ents[j].alive,
        (pred, prey) == (i, j) || (pred, prey) == (j, i),
        catches(w, pred, prey),
        ({
            let reach = w.ecology.forage_radius@[w.ents[pred].element.at()];
            0 <= reach.0 && reach.times(reach).0 < i32::MAX
        }),
    ensures
        at_table(w, i).contains(j as u32),
{
    let el = w.ents[pred].element;
    let reach = w.ecology.forage_radius@[el.at()];
    let (cx, cy) = cell_xy(w.terrain.side, w.ents[i].pos);
    let r = spec_radius_cells(longest_reach(w.ecology, 5));
    lemma_longest_reach(w.ecology, 5, el.at());
    crate::spatial::lemma_within_reach(
        w.ents[pred].pos,
        w.ents[prey].pos,
        reach,
        w.terrain.side,
    );
    crate::spatial::lemma_ring_members(w.ents, w.terrain.side, cx, cy, r);
    assert(crate::spatial::rings(
        w.ents,
        w.terrain.side,
        cx,
        cy,
        crate::fx::max_int(r, 0),
        (j as u32) as int,
    ));
}

/// The meals after the first `n` bodies have been paired.
pub open spec fn meals(w: WorldV, n: int) -> Meals
    decreases n,
{
    if n <= 0 {
        Meals {
            eaten: Seq::new(w.ents.len(), |i: int| false),
            fed: Seq::new(w.ents.len(), |i: int| false),
            pairs: Seq::empty(),
        }
    } else {
        let m = meals(w, n - 1);
        if !w.ents[n - 1].alive || m.eaten[n - 1] {
            m
        } else {
            let near = at_table(w, n - 1);
            meal_row(w, m, n - 1, near, near.len() as int)
        }
    }
}

/// The bodies after the first `k` meals: a predator takes over all the
/// material that its prey is made of.
pub open spec fn gorged(ents: Seq<EntityV>, pairs: Seq<(int, int)>, k: int) -> Seq<EntityV>
    decreases k,
{
    if k <= 0 {
        ents
    } else {
        gorge(gorged(ents, pairs, k - 1), pairs[k - 1].0, pairs[k - 1].1)
    }
}

/// The bodies after `p` has taken over what `q` is made of.
#[verifier::opaque]
pub open spec fn gorge(s: Seq<EntityV>, p: int, q: int) -> Seq<EntityV> {
    let t = s.update(p, EntityV { material: sat_u64(s[p].material + s[q].material), ..s[p] });
    t.update(q, EntityV { material: 0, ..t[q] })
}

/// `hp` after a meal.
pub open spec fn fed_hp(e: EntityV, t: EcologyTuning) -> i32 {
    let h = sat32(e.hp + t.feed_gain@[e.element.at()]);
    if h > 100 {
        100
    } else {
        h
    }
}

pub open spec fn nourished(e: EntityV, t: EcologyTuning) -> EntityV {
    EntityV { hp: fed_hp(e, t), hunger: 0, ..e }
}

/// Whether a meal carries a body across the reproduction threshold.
pub open spec fn reproduces(e: EntityV, t: EcologyTuning) -> bool {
    let r = t.repro_threshold@[e.element.at()];
    e.hp < r && fed_hp(e, t) >= r
}

/// The bodies after the first `n` of them that fed have been nourished.
pub open spec fn nourished_upto(
    ents: Seq<EntityV>,
    fed: Seq<bool>,
    t: EcologyTuning,
    n: int,
) -> Seq<EntityV> {
    Seq::new(
        ents.len(),
        |i: int|
            if i < n && fed[i] {
                nourished(ents[i], t)
            } else {
                ents[i]
            },
    )
}

/// How many of the first `n` fed.
pub open spec fn fed_count(fed: Seq<bool>, n: int) -> int
    decreases n,
{
    if n <= 0 {
        0
    } else {
        fed_count(fed, n - 1) + (if fed[n - 1] {
            1
        } else {
            0int
        })
    }
}

/// The parents among the first `n` bodies: race, place and id.
pub open spec fn parents(ents: Seq<EntityV>, fed: Seq<bool>, t: EcologyTuning, n: int) -> Seq<
    (Race, V2, u32),
>
    decreases n,
{
    if n <= 0 {
        Seq::empty()
    } else {
        let s = parents(ents, fed, t, n - 1);
        let e = ents[n - 1];
        if fed[n - 1] && reproduces(e, t) {
            s.push((e.race(), e.pos, e.id))
        } else {
            s
        }
    }
}

/// The world after body `i` has been killed and buried.
pub open spec fn killed(w: WorldV, i: int) -> WorldV {
    let e = w.ents[i];
    let u = WorldV {
        ents: w.ents.update(i, EntityV { alive: false, hp: 0, items: Seq::empty(), ..e }),
        ..w
    };
    buried(u, e.race(), e.pos, e.material, e.carried, e.items)
}

/// The world after those of the first `n` bodies that were eaten are buried.
pub open spec fn killed_upto(w: WorldV, eaten: Seq<bool>, n: int) -> WorldV
    decreases n,
{
    if n <= 0 {
        w
    } else {
        let u = killed_upto(w, eaten, n - 1);
        if eaten[n - 1] {
            killed(u, n - 1)
        } else {
            u
        }
    }
}

/// Where an offspring of the parent with the given id and place is put.
pub open spec fn cradle(w: WorldV, pos: V2, id: u32) -> V2 {
    pos.plus(
        V2 {
            x: draw_signed(w.seed, w.tick, id, Channel::Forage).times(spec_birth_scatter()),
            y: draw_signed(w.seed, w.tick, id.wrapping_add(0x0F0D), Channel::Forage).times(
                spec_birth_scatter(),
            ),
        },
    )
}

/// The world after the first `k` offspring have been born.
pub open spec fn born_upto(w: WorldV, births: Seq<(Race, V2, u32)>, k: int) -> WorldV
    decreases k,
{
    if k <= 0 {
        w
    } else {
        let u = born_upto(w, births, k - 1);
        let (race, pos, id) = births[k - 1];
        spawned(u, race, cradle(w, pos, id), 1000)
    }
}

/// What the feeding phase does to the world.
pub open spec fn feeding_phase(w: WorldV) -> WorldV {
    let n = w.ents.len() as int;
    let m = meals(w, n);
    let g = gorged(w.ents, m.pairs, m.pairs.len() as int);
    let u = WorldV {
        ents: nourished_upto(g, m.fed, w.ecology, n),
        stats: Stats { feedings: (w.stats.feedings + fed_count(m.fed, n)) as u64, ..w.stats },
        ..w
    };
    let births = parents(g, m.fed, w.ecology, n);
    born_upto(killed_upto(u, m.eaten, n), births, births.len() as int)
}

// ----------------------------------------------------------------------
// What holds of the meals.
// ----------------------------------------------------------------------

impl Meals {
    /// The flags are those of the pairs; pairs join distinct living bodies,
    /// the predator an animal; no body feeds twice, is eaten twice, or feeds
    /// once it has been eaten.
    pub open spec fn wf(self, w: WorldV) -> bool {
        &&& self.eaten.len() == w.ents.len()
        &&& self.fed.len() == w.ents.len()
        &&& forall|k: int|
            0 <= k < self.pairs.len() ==> {
                let (p, q) = #[trigger] self.pairs[k];
                &&& 0 <= p < w.ents.len()
                &&& 0 <= q < w.ents.len()
                &&& p != q
                &&& w.ents[p].alive
                &&& w.ents[q].alive
                &&& w.ents[p].kind == Kind::Animal
                &&& self.fed[p]
                &&& self.eaten[q]
            }
        &&& forall|k: int, l: int|
            0 <= k < l < self.pairs.len() ==> {
                &&& (#[trigger] self.pairs[l]).0 != (#[trigger] self.pairs[k]).0
                &&& self.pairs[l].1 != self.pairs[k].1
                &&& self.pairs[l].0 != self.pairs[k].1
            }
        &&& forall|i: int|
            0 <= i < w.ents.len() && #[trigger] self.eaten[i] ==> w.ents[i].alive && exists|k: int|
                0 <= k < self.pairs.len() && (#[trigger] self.pairs[k]).1 == i
        &&& forall|i: int|
            0 <= i < w.ents.len() && #[trigger] self.fed[i] ==> w.ents[i].alive && exists|k: int|
                0 <= k < self.pairs.len() && (#[trigger] self.pairs[k]).0 == i
    }
}

proof fn lemma_meal_pair(w: WorldV, m: Meals, i: int, j: int)
    requires
        m.wf(w),
        0 <= i < w.ents.len(),
        0 <= j < w.ents.len(),
        w.ents[i].alive,
    ensures
        meal_pair(w, m, i, j).wf(w),
        m.pairs.len() <= meal_pair(w, m, i, j).pairs.len() <= m.pairs.len() + 1,
{
    reveal(meal_pair);
    let r = meal_pair(w, m, i, j);
    if r != m {
        let (pred, prey) = pairing(w, i, j)->0;
        let n = m.pairs.len() as int;
        assert(r.pairs[n] == (pred, prey));
        assert forall|k: int| 0 <= k < r.pairs.len() implies {
            let (p, q) = #[trigger] r.pairs[k];
            &&& 0 <= p < w.ents.len()
            &&& 0 <= q < w.ents.len()
            &&& p != q
            &&& w.ents[p].alive
            &&& w.ents[q].alive
            &&& w.ents[p].kind == Kind::Animal
            &&& r.fed[p]
            &&& r.eaten[q]
        } by {
            if k < n {
                assert(r.pairs[k] == m.pairs[k]);
            }
        }
        assert forall|k: int, l: int| 0 <= k < l < r.pairs.len() implies {
            &&& (#[trigger] r.pairs[l]).0 != (#[trigger] r.pairs[k]).0
            &&& r.pairs[l].1 != r.pairs[k].1
            &&& r.pairs[l].0 != r.pairs[k].1
        } by {
            assert(r.pairs[k] == m.pairs[k]);
            if l < n {
                assert(r.pairs[l] == m.pairs[l]);
            }
        }
        assert forall|x: int| 0 <= x < w.ents.len() && #[trigger] r.eaten[x] implies w.ents[x].alive
            && exists|k: int| 0 <= k < r.pairs.len() && (#[trigger] r.pairs[k]).1 == x by {
            if x == prey {
                assert(r.pairs[n].1 == x);
            } else {
                assert(m.eaten[x]);
                let k = choose|k: int| 0 <= k < m.pairs.len() && (#[trigger] m.pairs[k]).1 == x;
                assert(r.pairs[k] == m.pairs[k]);
            }
        }
        assert forall|x: int| 0 <= x < w.ents.len() && #[trigger] r.fed[x] implies w.ents[x].alive
            && exists|k: int| 0 <= k < r.pairs.len() && (#[trigger] r.pairs[k]).0 == x by {
            if x == pred {
                assert(r.pairs[n].0 == x);
            } else {
                assert(m.fed[x]);
                let k = choose|k: int| 0 <= k < m.pairs.len() && (#[trigger] m.pairs[k]).0 == x;
                assert(r.pairs[k] == m.pairs[k]);
            }
        }
    }
}

proof fn lemma_meal_row(w: WorldV, m: Meals, i: int, near: Seq<u32>, k: int)
    requires
        m.wf(w),
        0 <= k <= near.len(),
        0 <= i < w.ents.len(),
        w.ents[i].alive,
        forall|x: int| 0 <= x < near.len() ==> #[trigger] near[x] < w.ents.len(),
    ensures
        meal_row(w, m, i, near, k).wf(w),
    decreases k,
{
    if k > 0 {
        lemma_meal_row(w, m, i, near, k - 1);
        lemma_meal_pair(w, meal_row(w, m, i, near, k - 1), i, near[k - 1] as int);
    }
}

/// In one tick no body feeds twice, none is eaten twice, none feeds once it
/// has been eaten, and no plant feeds.
pub proof fn law_meals(w: WorldV, n: int)
    requires
        0 <= n <= w.ents.len() <= u32::MAX,
    ensures
        meals(w, n).wf(w),
    decreases n,
{
    if n > 0 {
        law_meals(w, n - 1);
        let m = meals(w, n - 1);
        if w.ents[n - 1].alive && !m.eaten[n - 1] {
            let near = at_table(w, n - 1);
            let (cx, cy) = cell_xy(w.terrain.side, w.ents[n - 1].pos);
            lemma_ring_members(
                w.ents,
                w.terrain.side,
                cx,
                cy,
                spec_radius_cells(longest_reach(w.ecology, 5)),
            );
            lemma_meal_row(w, m, n - 1, near, near.len() as int);
        }
    }
}

/// Two bodies of the same bodies as before but for their material.
pub open spec fn same_but_material(s: Seq<EntityV>, t: Seq<EntityV>) -> bool {
    &&& t.len() == s.len()
    &&& forall|i: int|
        0 <= i < s.len() ==> (#[trigger] t[i]) == (EntityV { material: t[i].material, ..s[i] })
}

pub proof fn lemma_gorge(w: WorldV, s: Seq<EntityV>, p: int, q: int)
    requires
        w.wf(),
        same_but_material(w.ents, s),
        sum_by(s, body_masses()) == sum_by(w.ents, body_masses()),
        0 <= p < s.len(),
        0 <= q < s.len(),
        p != q,
        w.ents[p].alive,
        w.ents[q].alive,
    ensures
        same_but_material(w.ents, gorge(s, p, q)),
        sum_by(gorge(s, p, q), body_masses()) == sum_by(w.ents, body_masses()),
        forall|i: int| 0 <= i < s.len() && i != p && i != q ==> #[trigger] gorge(s, p, q)[i] == s[i],
        gorge(s, p, q)[q].material == 0,
        gorge(s, p, q)[p].material == s[p].material + s[q].material,
{
    reveal(gorge);
    let t = gorge(s, p, q);
    let a = EntityV { material: sat_u64(s[p].material + s[q].material), ..s[p] };
    let u = s.update(p, a);
    let b = EntityV { material: 0, ..u[q] };
    assert(t == u.update(q, b));
    lemma_sum_update(s, p, a, body_masses());
    lemma_sum_update(u, q, b, body_masses());
    assert forall|i: int| 0 <= i < s.len() implies shaped(#[trigger] s[i]) by {
        assert(s[i] == (EntityV { material: s[i].material, ..w.ents[i] }));
        assert(shaped(w.ents[i]));
    }
    lemma_mass_parts(w);
    lemma_two_bodies(s, p, q);
    assert(s[p] == (EntityV { material: s[p].material, ..w.ents[p] }));
    assert(s[q] == (EntityV { material: s[q].material, ..w.ents[q] }));
    lemma_body_mass_parts(s[p]);
    lemma_body_mass_parts(s[q]);
    assert forall|i: int| 0 <= i < w.ents.len() implies (#[trigger] t[i]) == (EntityV {
        material: t[i].material,
        ..w.ents[i]
    }) by {
        assert(s[i] == (EntityV { material: s[i].material, ..w.ents[i] }));
    }
}

#[verifier::rlimit(30)]
pub proof fn lemma_gorged(w: WorldV, m: Meals, k: int)
    requires
        w.wf(),
        m.wf(w),
        0 <= k <= m.pairs.len(),
    ensures
        same_but_material(w.ents, gorged(w.ents, m.pairs, k)),
        sum_by(gorged(w.ents, m.pairs, k), body_masses()) == sum_by(w.ents, body_masses()),
        forall|i: int|
            0 <= i < w.ents.len() && (forall|l: int|
                0 <= l < k ==> (#[trigger] m.pairs[l]).0 != i && m.pairs[l].1 != i) ==> (
            #[trigger] gorged(w.ents, m.pairs, k)[i]) == w.ents[i],
        forall|l: int| 0 <= l < k ==> gorged(w.ents, m.pairs, k)[(#[trigger] m.pairs[l]).1].material == 0,
    decreases k,
{
    let t = gorged(w.ents, m.pairs, k);
    if k > 0 {
        lemma_gorged(w, m, k - 1);
        let s = gorged(w.ents, m.pairs, k - 1);
        let (p, q) = m.pairs[k - 1];
        lemma_gorge(w, s, p, q);
        assert forall|i: int|
            0 <= i < w.ents.len() && (forall|l: int|
                0 <= l < k ==> (#[trigger] m.pairs[l]).0 != i && m.pairs[l].1 != i) implies (
        #[trigger] t[i]) == w.ents[i] by {
            assert(m.pairs[k - 1].0 != i && m.pairs[k - 1].1 != i);
            assert(t[i] == s[i]);
        }
        assert forall|l: int| 0 <= l < k implies t[(#[trigger] m.pairs[l]).1].material == 0 by {
            if l < k - 1 {
                assert(m.pairs[k - 1].0 != m.pairs[l].1);
                assert(m.pairs[k - 1].1 != m.pairs[l].1);
                assert(t[m.pairs[l].1] == s[m.pairs[l].1]);
            }
        }
    }
}

/// Two different bodies together have at most what all have.
proof fn lemma_two_bodies(s: Seq<EntityV>, p: int, q: int)
    requires
        0 <= p < s.len(),
        0 <= q < s.len(),
        p != q,
        forall|i: int| 0 <= i < s.len() ==> shaped(#[trigger] s[i]),
    ensures
        body_mass(s[p]) + body_mass(s[q]) <= sum_by(s, body_masses()),
{
    let none = EntityV { alive: false, ..s[p] };
    let t = s.update(p, none);
    lemma_sum_update(s, p, none, body_masses());
    assert forall|i: int| 0 <= i < t.len() implies body_masses()(#[trigger] t[i]) >= 0 by {
        lemma_body_mass_parts(t[i]);
    }
    crate::sums::lemma_sum_bounds(t, body_masses());
    assert(body_masses()(t[q]) <= sum_by(t, body_masses()));
}

/// You are what you eat: after the meal `l`, its predator is made of what it
/// was made of itself and of all that its prey was made of by then, whatever
/// place the two have in the list of bodies; and the prey is left with
/// nothing.
#[verifier::rlimit(30)]
pub proof fn law_you_are_what_you_eat(w: WorldV, l: int)
    requires
        w.wf(),
        0 <= l < meals(w, w.ents.len() as int).pairs.len(),
    ensures
        ({
            let m = meals(w, w.ents.len() as int);
            let (p, q) = m.pairs[l];
            &&& gorged(w.ents, m.pairs, l + 1)[p].material == w.ents[p].material + gorged(
                w.ents,
                m.pairs,
                l,
            )[q].material
            &&& gorged(w.ents, m.pairs, m.pairs.len() as int)[q].material == 0
        }),
{
    lemma_population_bound(w.ents, w.next_id);
    law_meals(w, w.ents.len() as int);
    let m = meals(w, w.ents.len() as int);
    lemma_gorged(w, m, l);
    lemma_gorged(w, m, m.pairs.len() as int);
    let (p, q) = m.pairs[l];
    let s = gorged(w.ents, m.pairs, l);
    assert(s[p] == w.ents[p]) by {
        assert forall|x: int| 0 <= x < l implies (#[trigger] m.pairs[x]).0 != p && m.pairs[x].1
            != p by {
            assert(m.pairs[l].0 != m.pairs[x].0);
        }
    }
    lemma_gorge(w, s, p, q);
}

/// Identities of bodies, apart from whether they live and what they hold.
pub open spec fn same_bodies(s: Seq<EntityV>, t: Seq<EntityV>) -> bool {
    &&& t.len() == s.len()
    &&& forall|i: int|
        0 <= i < s.len() ==> shaped(#[trigger] t[i]) && t[i].id == s[i].id && t[i].pos == s[i].pos
            && t[i].age == s[i].age && (t[i].alive ==> s[i].alive)
}

proof fn lemma_same_bodies_wf(w: WorldV, u: WorldV)
    requires
        w.wf(),
        same_bodies(w.ents, u.ents),
        u.terrain.wf(),
        u.races == w.races,
        u.next_id == w.next_id,
        u.size == w.size,
        u.decay == w.decay,
        mass(u) <= u64::MAX,
    ensures
        u.wf(),
        w.inside() ==> u.inside(),
{
    assert forall|i: int, j: int| 0 <= i < j < u.ents.len() implies (#[trigger] u.ents[i]).id < (
    #[trigger] u.ents[j]).id by {
        assert(u.ents[i].id == w.ents[i].id && u.ents[j].id == w.ents[j].id);
    }
    assert forall|i: int| 0 <= i < u.ents.len() implies (#[trigger] u.ents[i]).id < u.next_id by {
        assert(u.ents[i].id == w.ents[i].id);
    }
    assert forall|i: int| 0 <= i < u.ents.len() && (#[trigger] u.ents[i]).alive implies u.ents[i].age
        < u64::MAX by {
        assert(w.ents[i].alive);
    }
    if w.inside() {
        assert forall|i: int| 0 <= i < u.ents.len() implies in_square(
            u.size,
            (#[trigger] u.ents[i]).pos,
        ) by {
            assert(u.ents[i].pos == w.ents[i].pos);
        }
    }
}

/// What holds once the fed have been nourished.
pub proof fn lemma_nourished(w: WorldV, m: Meals)
    requires
        w.wf(),
        m.wf(w),
    ensures
        ({
            let n = w.ents.len() as int;
            let g = gorged(w.ents, m.pairs, m.pairs.len() as int);
            let u = WorldV {
                ents: nourished_upto(g, m.fed, w.ecology, n),
                stats: Stats {
                    feedings: (w.stats.feedings + fed_count(m.fed, n)) as u64,
                    ..w.stats
                },
                ..w
            };
            &&& u.wf()
            &&& mass(u) == mass(w)
            &&& w.inside() ==> u.inside()
            &&& u.ents.len() == w.ents.len()
            &&& forall|i: int| 0 <= i < n ==> (#[trigger] u.ents[i]).alive == w.ents[i].alive
        }),
{
    let n = w.ents.len() as int;
    let g = gorged(w.ents, m.pairs, m.pairs.len() as int);
    lemma_gorged(w, m, m.pairs.len() as int);
    let e = nourished_upto(g, m.fed, w.ecology, n);
    let u = WorldV {
        ents: e,
        stats: Stats { feedings: (w.stats.feedings + fed_count(m.fed, n)) as u64, ..w.stats },
        ..w
    };
    assert forall|i: int| 0 <= i < e.len() implies body_masses()(#[trigger] e[i]) == body_masses()(
        g[i],
    ) by {}
    crate::sums::lemma_sum_eq(e, g, body_masses(), body_masses());
    assert forall|i: int| 0 <= i < w.ents.len() implies shaped(#[trigger] e[i]) && e[i].id
        == w.ents[i].id && e[i].pos == w.ents[i].pos && e[i].age == w.ents[i].age && (e[i].alive
        ==> w.ents[i].alive) && e[i].alive == w.ents[i].alive by {
        assert(g[i] == (EntityV { material: g[i].material, ..w.ents[i] }));
        assert(shaped(w.ents[i]));
    }
    lemma_same_bodies_wf(w, u);
}

/// Killing a living body conserves material and keeps the invariant.
pub proof fn law_killing_conserves(w: WorldV, i: int)
    requires
        w.wf(),
        0 <= i < w.ents.len(),
        w.ents[i].alive,
    ensures
        killed(w, i).wf(),
        mass(killed(w, i)) == mass(w),
        w.inside() ==> killed(w, i).inside(),
        killed(w, i).ents.len() == w.ents.len(),
        forall|j: int| 0 <= j < w.ents.len() && j != i ==> #[trigger] killed(w, i).ents[j] == w.ents[j],
        killed(w, i).terrain.side == w.terrain.side,
{
    let e = w.ents[i];
    assert(shaped(e));
    let d = EntityV { alive: false, hp: 0, items: Seq::empty(), ..e };
    let v = WorldV { ents: w.ents.update(i, d), ..w };
    lemma_sum_update(w.ents, i, d, body_masses());
    assert forall|j: int| 0 <= j < v.ents.len() implies shaped(#[trigger] v.ents[j]) by {
        if j != i {
            assert(v.ents[j] == w.ents[j]);
        }
    }
    law_burial_returns_everything(v, e.race(), e.pos, e.material, e.carried, e.items);
    let u = killed(w, i);
    assert forall|j: int| 0 <= j < w.ents.len() implies shaped(#[trigger] u.ents[j]) && u.ents[j].id
        == w.ents[j].id && u.ents[j].pos == w.ents[j].pos && u.ents[j].age == w.ents[j].age && (
    u.ents[j].alive ==> w.ents[j].alive) by {
        if j != i {
            assert(u.ents[j] == w.ents[j]);
            assert(shaped(w.ents[j]));
        }
    }
    lemma_same_bodies_wf(w, u);
}

pub proof fn lemma_killed_upto(w: WorldV, eaten: Seq<bool>, n: int)
    requires
        w.wf(),
        0 <= n <= w.ents.len(),
        eaten.len() == w.ents.len(),
        forall|i: int| 0 <= i < w.ents.len() && #[trigger] eaten[i] ==> w.ents[i].alive,
    ensures
        ({
            let u = killed_upto(w, eaten, n);
            &&& u.wf()
            &&& mass(u) == mass(w)
            &&& w.inside() ==> u.inside()
            &&& u.ents.len() == w.ents.len()
            &&& forall|j: int| n <= j < w.ents.len() ==> #[trigger] u.ents[j] == w.ents[j]
            &&& w.stats.deaths + w.ents.len() <= u64::MAX ==> w.stats.deaths <= u.stats.deaths
                <= w.stats.deaths + n
            &&& u == (WorldV { ents: u.ents, terrain: u.terrain, ground: u.ground, stats: u.stats, ..w })
            &&& u.stats == (Stats { deaths: u.stats.deaths, ..w.stats })
            &&& u.terrain.side == w.terrain.side
        }),
    decreases n,
{
    if n > 0 {
        lemma_killed_upto(w, eaten, n - 1);
        let v = killed_upto(w, eaten, n - 1);
        if eaten[n - 1] {
            assert(v.ents[n - 1] == w.ents[n - 1]);
            law_killing_conserves(v, n - 1);
            let u = killed_upto(w, eaten, n);
            assert forall|j: int| n <= j < w.ents.len() implies #[trigger] u.ents[j]
                == w.ents[j] by {
                assert(u.ents[j] == v.ents[j]);
            }
        }
    }
}

proof fn lemma_born_upto(w: WorldV, births: Seq<(Race, V2, u32)>, k: int)
    requires
        w.wf(),
        0 <= k <= births.len(),
        w.next_id + births.len() <= u32::MAX,
    ensures
        ({
            let u = born_upto(w, births, k);
            &&& u.wf()
            &&& mass(u) == mass(w)
            &&& w.inside() ==> u.inside()
            &&& u.ents.len() == w.ents.len() + k
            &&& u.next_id == w.next_id + k
            &&& w.stats.births + births.len() <= u64::MAX ==> u.stats.births == w.stats.births + k
            &&& u == (WorldV { ents: u.ents, next_id: u.next_id, stats: u.stats, ..w })
            &&& u.stats == (Stats { births: u.stats.births, ..w.stats })
        }),
    decreases k,
{
    if k > 0 {
        lemma_born_upto(w, births, k - 1);
        let u = born_upto(w, births, k - 1);
        let (race, pos, id) = births[k - 1];
        law_birth_keeps_the_books(u, race, cradle(w, pos, id), 1000);
    }
}

pub proof fn lemma_parents(ents: Seq<EntityV>, fed: Seq<bool>, t: EcologyTuning, n: int)
    requires
        0 <= n,
    ensures
        parents(ents, fed, t, n).len() <= n,
        0 <= fed_count(fed, n) <= n,
    decreases n,
{
    if n > 0 {
        lemma_parents(ents, fed, t, n - 1);
    }
}

/// Feeding conserves material, keeps the invariant, and brings at most one
/// birth and one death per body.
pub proof fn law_feeding(w: WorldV)
    requires
        w.wf(),
        w.next_id + w.ents.len() <= u32::MAX,
    ensures
        ({
            let u = feeding_phase(w);
            &&& u.wf()
            &&& mass(u) == mass(w)
            &&& w.inside() ==> u.inside()
            &&& w.ents.len() <= u.ents.len() <= 2 * w.ents.len()
            &&& w.next_id <= u.next_id <= w.next_id + w.ents.len()
            &&& w.stats.room(w.ents.len() as int) ==> u.stats.within(
                w.stats,
                w.ents.len() as int,
            )
            &&& u.tick == w.tick
            &&& u.seed == w.seed
            &&& u.size == w.size
            &&& u.terrain.side == w.terrain.side
        }),
{
    let n = w.ents.len() as int;
    lemma_population_bound(w.ents, w.next_id);
    law_meals(w, n);
    let m = meals(w, n);
    let g = gorged(w.ents, m.pairs, m.pairs.len() as int);
    lemma_nourished(w, m);
    lemma_parents(g, m.fed, w.ecology, n);
    let u = WorldV {
        ents: nourished_upto(g, m.fed, w.ecology, n),
        stats: Stats { feedings: (w.stats.feedings + fed_count(m.fed, n)) as u64, ..w.stats },
        ..w
    };
    assert forall|i: int| 0 <= i < u.ents.len() && #[trigger] m.eaten[i] implies u.ents[i].alive by {
        assert(w.ents[i].alive);
        assert(u.ents[i].alive == w.ents[i].alive);
    }
    lemma_killed_upto(u, m.eaten, n);
    let v = killed_upto(u, m.eaten, n);
    let births = parents(g, m.fed, w.ecology, n);
    lemma_born_upto(v, births, births.len() as int);
}

// ----------------------------------------------------------------------
// The phase.
// ----------------------------------------------------------------------

/// The longest reach in a table.
fn max_forage(t: &EcologyTuning) -> (r: Fx)
    ensures
        r == longest_reach(*t, 5),
{
    let mut r: Fx = t.forage_radius.0[0];
    let mut k: usize = 1;
    while k < 5
        invariant
            1 <= k <= 5,
            r == longest_reach(*t, k as int),
        decreases 5 - k,
    {
        if t.forage_radius.0[k].0 > r.0 {
            r = t.forage_radius.0[k];
        }
        k = k + 1;
    }
    r
}

/// The flags and pairs as they are held while meals are looked for.
struct Table {
    eaten: Vec<bool>,
    fed: Vec<bool>,
    pairs: Vec<(usize, usize)>,
}

impl Table {
    spec fn shows(self, m: Meals) -> bool {
        &&& self.eaten@ == m.eaten
        &&& self.fed@ == m.fed
        &&& self.pairs@.len() == m.pairs.len()
        &&& forall|k: int|
            0 <= k < m.pairs.len() ==> (#[trigger] self.pairs@[k]).0 == m.pairs[k].0
                && self.pairs@[k].1 == m.pairs[k].1
    }
}

impl World {
    fn predation(&self, i: usize, j: usize) -> (r: Option<(usize, usize)>)
        requires
            i < self.entities@.len(),
            j < self.entities@.len(),
        ensures
            match (r, pairing(self@, i as int, j as int)) {
                (Some((p, q)), Some((p2, q2))) => p == p2 && q == q2,
                (None, None) => true,
                _ => false,
            },
            r matches Some((p, q)) ==> (p == i && q == j) || (p == j && q == i),
    {
        assert(self@.ents[i as int] == self.entities@[i as int]@);
        assert(self@.ents[j as int] == self.entities@[j as int]@);
        let a: Element = self.entities[i].element;
        let b: Element = self.entities[j].element;
        match (self.entities[i].kind, self.entities[j].kind) {
            (Kind::Animal, Kind::Plant) => {
                if a.eats_plant() == b {
                    Some((i, j))
                } else {
                    None
                }
            },
            (Kind::Plant, Kind::Animal) => {
                if b.eats_plant() == a {
                    Some((j, i))
                } else {
                    None
                }
            },
            (Kind::Animal, Kind::Animal) => {
                if a.eats_animal() == b {
                    Some((i, j))
                } else if b.eats_animal() == a {
                    Some((j, i))
                } else {
                    None
                }
            },
            (Kind::Plant, Kind::Plant) => None,
        }
    }

    fn can_catch(&self, pred: usize, prey: usize) -> (r: bool)
        requires
            pred < self.entities@.len(),
            prey < self.entities@.len(),
        ensures
            r == catches(self@, pred as int, prey as int),
    {
        assert(self@.ents[pred as int] == self.entities@[pred as int]@);
        assert(self@.ents[prey as int] == self.entities@[prey as int]@);
        let el: Element = self.entities[pred].element;
        if self.entities[pred].hunger < *self.ecology.satiation.get(el) {
            return false;
        }
        let d: V2 = self.entities[prey].pos - self.entities[pred].pos;
        let reach: Fx = *self.ecology.forage_radius.get(el);
        if d.len_sq().0 > (reach * reach).0 {
            return false;
        }
        if self.entities[prey].kind == Kind::Animal {
            let race: Race = self.entities[pred].race();
            let weight: u32 = *self.ecology.hunt_weight.get(race) as u32;
            let id: u32 = self.entities[pred].id;
            return rand_chance(self.seed, self.tick, id, Channel::Hunt, weight, 1000);
        }
        true
    }

    /// Look at the pair `i`, `j`, and note its meal if there is one.
    fn meal_one(&self, t: &mut Table, i: usize, j: usize, Ghost(m): Ghost<Meals>)
        requires
            i < self.entities@.len(),
            j < self.entities@.len(),
            m.wf(self@),
            old(t).shows(m),
        ensures
            final(t).shows(meal_pair(self@, m, i as int, j as int)),
    {
        proof {
            reveal(meal_pair);
            assert(self@.ents[j as int] == self.entities@[j as int]@);
        }
        if j <= i || !self.entities[j].alive || t.eaten[j] {
            return ;
        }
        if let Some((pred, prey)) = self.predation(i, j) {
            if t.eaten[pred] || t.eaten[prey] || t.fed[pred] || !self.can_catch(pred, prey) {
                return ;
            }
            t.eaten[prey] = true;
            t.fed[pred] = true;
            t.pairs.push((pred, prey));
        }
    }

    /// Pair body `i` with the bodies near it.
    fn meal_line(&self, index: &SpatialIndex, t: &mut Table, i: usize, cells: i32, Ghost(m): Ghost<Meals>)
        requires
            self@.wf(),
            index.indexes(self@.ents, self.terrain.side as int),
            i < self.entities@.len(),
            self.entities@[i as int].alive,
            cells == spec_radius_cells(longest_reach(self.ecology, 5)),
            m.wf(self@),
            old(t).shows(m),
        ensures
            final(t).shows(
                meal_row(
                    self@,
                    m,
                    i as int,
                    at_table(self@, i as int),
                    at_table(self@, i as int).len() as int,
                ),
            ),
    {
        let ghost w = self@;
        assert(w.ents[i as int] == self.entities@[i as int]@);
        let (cx, cy): (i32, i32) = self.terrain.cell_of(self.entities[i].pos);
        let near: Vec<u32> = index.query_ring(cx, cy, cells);
        proof {
            law_a_query_finds_the_ring(
                *index,
                w.ents,
                w.terrain.side,
                cx as int,
                cy as int,
                cells as int,
                near@,
            );
            lemma_ring_members(w.ents, w.terrain.side, cx as int, cy as int, cells as int);
        }
        let mut k: usize = 0;
        while k < near.len()
            invariant
                k <= near@.len(),
                w == self@,
                i < self.entities@.len(),
                w.ents[i as int].alive,
                near@ == at_table(w, i as int),
                forall|x: int| 0 <= x < near@.len() ==> #[trigger] near@[x] < w.ents.len(),
                m.wf(w),
                t.shows(meal_row(w, m, i as int, near@, k as int)),
            decreases near.len() - k,
        {
            proof {
                lemma_meal_row(w, m, i as int, near@, k as int);
            }
            let j: usize = near[k] as usize;
            self.meal_one(t, i, j, Ghost(meal_row(w, m, i as int, near@, k as int)));
            k = k + 1;
        }
    }

    /// Find all of this tick's meals.
    fn find_meals(&self) -> (t: Table)
        requires
            self@.wf(),
        ensures
            t.shows(meals(self@, self@.ents.len() as int)),
    {
        let ghost w = self@;
        let n: usize = self.entities.len();
        proof {
            lemma_population_bound(w.ents, w.next_id);
        }
        let mut t = Table { eaten: vec![false; n], fed: vec![false; n], pairs: Vec::new() };
        proof {
            assert(t.eaten@ =~= meals(w, 0).eaten);
            assert(t.fed@ =~= meals(w, 0).fed);
        }
        let index: SpatialIndex = SpatialIndex::build(&self.entities, &self.terrain);
        let cells: i32 = SpatialIndex::radius_cells(max_forage(&self.ecology));
        let mut i: usize = 0;
        while i < n
            invariant
                i <= n,
                n == w.ents.len(),
                n <= u32::MAX,
                w == self@,
                w.wf(),
                self.entities@.len() == n,
                index.indexes(w.ents, self.terrain.side as int),
                cells == spec_radius_cells(longest_reach(self.ecology, 5)),
                t.shows(meals(w, i as int)),
            decreases n - i,
        {
            proof {
                law_meals(w, i as int);
                assert(w.ents[i as int] == self.entities@[i as int]@);
            }
            if self.entities[i].alive && !t.eaten[i] {
                self.meal_line(&index, &mut t, i, cells, Ghost(meals(w, i as int)));
            }
            i = i + 1;
        }
        t
    }

    /// Let every predator take over what its prey is made of. A prey that fed
    /// did so before it was eaten, so going through the meals in the order
    /// they were found passes a whole chain on.
    fn pass_material(&mut self, t: &Table, Ghost(m): Ghost<Meals>)
        requires
            old(self)@.wf(),
            m.wf(old(self)@),
            t.shows(m),
        ensures
            final(self)@ == (WorldV {
                ents: gorged(old(self)@.ents, m.pairs, m.pairs.len() as int),
                ..old(self)@
            }),
    {
        let ghost w = self@;
        let mut k: usize = 0;
        while k < t.pairs.len()
            invariant
                k <= t.pairs@.len(),
                w.wf(),
                m.wf(w),
                t.shows(m),
                self@ == (WorldV { ents: gorged(w.ents, m.pairs, k as int), ..w }),
            decreases t.pairs.len() - k,
        {
            let (p, q): (usize, usize) = t.pairs[k];
            proof {
                lemma_gorged(w, m, k as int);
                assert(t.pairs@[k as int].0 == m.pairs[k as int].0);
                assert(self@.ents.len() == self.entities@.len());
            }
            self.swallow(p, q);
            k = k + 1;
        }
    }

    /// Let body `p` take over what body `q` is made of.
    fn swallow(&mut self, p: usize, q: usize)
        requires
            p < old(self).entities@.len(),
            q < old(self).entities@.len(),
        ensures
            final(self)@ == (WorldV {
                ents: gorge(old(self)@.ents, p as int, q as int),
                ..old(self)@
            }),
    {
        reveal(gorge);
        let ghost s = self@.ents;
        proof {
            assert(s[p as int] == self.entities@[p as int]@);
            assert(s[q as int] == self.entities@[q as int]@);
        }
        let gained: u64 = self.entities[q].material;
        let own: u64 = self.entities[p].material;
        self.entities[p].material = own.saturating_add(gained);
        let ghost a = EntityV {
            material: sat_u64(s[p as int].material + s[q as int].material),
            ..s[p as int]
        };
        proof {
            assert(self.entities@[p as int]@ == a);
            assert(self@.ents =~= s.update(p as int, a));
        }
        let ghost u = self@.ents;
        self.entities[q].material = 0;
        proof {
            let b = EntityV { material: 0, ..u[q as int] };
            assert(self.entities@[q as int]@ == b);
            assert(self@.ents =~= u.update(q as int, b));
        }
    }

    /// Nourish everyone who fed and note who reproduces.
    fn nourish(&mut self, fed: &Vec<bool>) -> (births: Vec<(Race, V2, u32)>)
        requires
            fed@.len() == old(self).entities@.len(),
            old(self).stats.feedings + old(self).entities@.len() <= u64::MAX,
        ensures
            final(self)@ == (WorldV {
                ents: nourished_upto(
                    old(self)@.ents,
                    fed@,
                    old(self).ecology,
                    old(self)@.ents.len() as int,
                ),
                stats: Stats {
                    feedings: (old(self).stats.feedings + fed_count(fed@, fed@.len() as int)) as u64,
                    ..old(self).stats
                },
                ..old(self)@
            }),
            births@ == parents(
                old(self)@.ents,
                fed@,
                old(self).ecology,
                old(self)@.ents.len() as int,
            ),
    {
        let ghost w = self@;
        let n: usize = self.entities.len();
        let mut births: Vec<(Race, V2, u32)> = Vec::new();
        let mut i: usize = 0;
        assert(nourished_upto(w.ents, fed@, w.ecology, 0) =~= w.ents);
        while i < n
            invariant
                i <= n,
                n == w.ents.len(),
                fed@.len() == n,
                self.entities@.len() == n,
                w.stats.feedings + n <= u64::MAX,
                self@ == (WorldV {
                    ents: nourished_upto(w.ents, fed@, w.ecology, i as int),
                    stats: Stats {
                        feedings: (w.stats.feedings + fed_count(fed@, i as int)) as u64,
                        ..w.stats
                    },
                    ..w
                }),
                births@ == parents(w.ents, fed@, w.ecology, i as int),
            decreases n - i,
        {
            let ghost s = self@.ents;
            proof {
                lemma_parents(w.ents, fed@, w.ecology, i as int);
                assert(s[i as int] == self.entities@[i as int]@);
                assert(s[i as int] == w.ents[i as int]);
            }
            if fed[i] {
                let el: Element = self.entities[i].element;
                let before: i32 = self.entities[i].hp;
                let mut after: i32 = crate::fx::saturate_i64(
                    before as i64 + *self.ecology.feed_gain.get(el) as i64,
                );
                if after > MAX_HP {
                    after = MAX_HP;
                }
                self.entities[i].hp = after;
                self.entities[i].hunger = 0;
                self.stats.feedings = self.stats.feedings + 1;
                let threshold: i32 = *self.ecology.repro_threshold.get(el);
                if before < threshold && after >= threshold {
                    let race: Race = self.entities[i].race();
                    births.push((race, self.entities[i].pos, self.entities[i].id));
                }
                assert(self.entities@[i as int]@ == nourished(w.ents[i as int], w.ecology));
            }
            proof {
                let want = nourished_upto(w.ents, fed@, w.ecology, i + 1);
                assert forall|j: int| 0 <= j < n implies self@.ents[j] == want[j] by {
                    if j != i {
                        assert(self.entities@[j]@ == s[j]);
                        assert(s[j] == want[j]);
                    }
                }
                assert(self@.ents =~= want);
            }
            i = i + 1;
        }
        births
    }

    /// Kill and bury body `i`.
    fn kill(&mut self, i: usize)
        requires
            old(self)@.wf(),
            i < old(self).entities@.len(),
            old(self).stats.deaths < u64::MAX,
        ensures
            final(self)@ == killed(old(self)@, i as int),
    {
        let ghost w = self@;
        let ghost e = w.ents[i as int];
        assert(e == self.entities@[i as int]@);
        let race: Race = self.entities[i].race();
        let pos: V2 = self.entities[i].pos;
        let material: u64 = self.entities[i].material;
        let carried: PerElement<u64> = self.entities[i].carried;
        let mut items: Vec<Item> = Vec::new();
        std::mem::swap(&mut items, &mut self.entities[i].items);
        self.entities[i].alive = false;
        self.entities[i].hp = 0;
        proof {
            let d = EntityV { alive: false, hp: 0, items: Seq::empty(), ..e };
            assert(self.entities@[i as int]@ =~= d);
            assert(self@.ents =~= w.ents.update(i as int, d));
        }
        self.charge_death(race, pos, material, &carried, &items);
    }

    /// Let every hungry animal eat what it can reach, bury the eaten, and let
    /// those born of it be born.
    pub fn phase_feeding(&mut self)
        requires
            old(self)@.wf(),
            old(self).next_id + old(self).entities@.len() <= u32::MAX,
            old(self).stats.births + old(self).entities@.len() <= u64::MAX,
            old(self).stats.deaths + old(self).entities@.len() <= u64::MAX,
            old(self).stats.feedings + old(self).entities@.len() <= u64::MAX,
        ensures
            final(self)@ == feeding_phase(old(self)@),
            final(self)@.wf(),
            mass(final(self)@) == mass(old(self)@),
            old(self)@.inside() ==> final(self)@.inside(),
    {
        let ghost w = self@;
        let n: usize = self.entities.len();
        let ghost m = meals(w, n as int);
        proof {
            law_feeding(w);
            lemma_population_bound(w.ents, w.next_id);
            law_meals(w, n as int);
            lemma_gorged(w, m, m.pairs.len() as int);
            lemma_nourished(w, m);
        }
        let t: Table = self.find_meals();
        self.pass_material(&t, Ghost(m));
        let ghost g = self@.ents;
        assert(g.len() == self.entities@.len());
        let births: Vec<(Race, V2, u32)> = self.nourish(&t.fed);
        let ghost u = self@;
        proof {
            lemma_parents(g, m.fed, w.ecology, n as int);
            assert forall|i: int| 0 <= i < u.ents.len() && #[trigger] m.eaten[i] implies u.ents[i].alive by {
                assert(w.ents[i].alive);
                assert(u.ents[i].alive == w.ents[i].alive);
            }
            lemma_killed_upto(u, m.eaten, n as int);
        }
        self.bury_eaten(&t.eaten);
        let ghost v = self@;
        proof {
            lemma_born_upto(v, births@, births@.len() as int);
        }
        self.bear(&births);
    }

    /// Kill and bury everyone who was eaten.
    fn bury_eaten(&mut self, eaten: &Vec<bool>)
        requires
            old(self)@.wf(),
            eaten@.len() == old(self)@.ents.len(),
            forall|i: int|
                0 <= i < eaten@.len() && #[trigger] eaten@[i] ==> old(self)@.ents[i].alive,
            old(self).stats.deaths + old(self)@.ents.len() <= u64::MAX,
        ensures
            final(self)@ == killed_upto(old(self)@, eaten@, eaten@.len() as int),
            final(self)@.wf(),
    {
        let ghost u = self@;
        let n: usize = eaten.len();
        let mut i: usize = 0;
        while i < n
            invariant
                i <= n,
                n == u.ents.len(),
                u.wf(),
                eaten@.len() == n,
                forall|i: int| 0 <= i < eaten@.len() && #[trigger] eaten@[i] ==> u.ents[i].alive,
                u.stats.deaths + n <= u64::MAX,
                self@ == killed_upto(u, eaten@, i as int),
            decreases n - i,
        {
            proof {
                lemma_killed_upto(u, eaten@, i as int);
                assert(self@.ents.len() == self.entities@.len());
            }
            if eaten[i] {
                self.kill(i);
            }
            i = i + 1;
        }
        proof {
            lemma_killed_upto(u, eaten@, n as int);
        }
    }

    /// Let the offspring of the given parents be born.
    fn bear(&mut self, births: &Vec<(Race, V2, u32)>)
        requires
            old(self)@.wf(),
            old(self).next_id + births@.len() <= u32::MAX,
            old(self).stats.births + births@.len() <= u64::MAX,
        ensures
            final(self)@ == born_upto(old(self)@, births@, births@.len() as int),
    {
        let ghost v = self@;
        let mut k: usize = 0;
        while k < births.len()
            invariant
                k <= births@.len(),
                v.wf(),
                v.next_id + births@.len() <= u32::MAX,
                v.stats.births + births@.len() <= u64::MAX,
                self@ == born_upto(v, births@, k as int),
            decreases births.len() - k,
        {
            proof {
                lemma_born_upto(v, births@, k as int);
            }
            let (race, pos, id): (Race, V2, u32) = births[k];
            let x: Fx = rand_signed(self.seed, self.tick, id, Channel::Forage);
            let y: Fx = rand_signed(
                self.seed,
                self.tick,
                id.wrapping_add(0x0F0D),
                Channel::Forage,
            );
            let scatter: V2 = V2::new(x * birth_scatter(), y * birth_scatter());
            self.spawn(race, pos + scatter);
            k = k + 1;
        }
    }
}

} // verus!
