//! What becomes of a body.
//!
//! A body keeps its id, its race and the span it was born with. Each tick
//! makes it exactly one tick older, and none reaches its span. A plant, which
//! never eats, only ever gets hungrier and weaker.
use crate::aging::{aged, aged_one, aging_phase, hungrier, lemma_aged, older, starves};
use crate::collisions::{collisions_phase, law_collisions};
use crate::commands::{applied, commanded, commands_phase, headed, lemma_commanded, struck};
use crate::ecology::{attrited, law_ground_toll_is_bounded, EcologyTuning};
use crate::element::Element;
use crate::entity::EntityV;
use crate::feeding::{
    born_upto, cradle, fed_count, feeding_phase, gorged, killed, killed_upto, law_meals, lemma_gorged,
    lemma_killed_upto, lemma_nourished, lemma_parents, meals,
    nourished_upto, parents,
};
use crate::flora::{flora_phase, law_flora, lemma_offspring, offspring, refused, rooted, terrain_due};
use crate::fx::{max_int, min_int, sat32, Fx, V2};
use crate::ground::{
    existed, lemma_decayed, lemma_existed, lemma_filter_member,
    lemma_weathered, reap_phase, terrain_phase, weathered,
};
use crate::input::{stamped, CmdKind, Command};
use crate::movement::{law_movement, movement_phase};
use crate::race::{action_for, ActionRecipe, ActionSlot, Kind, Race, RecipeSlot};
use crate::recipes::{batches, fired, performed, stored, withdrawn};
use crate::replay::{ids_last, law_run, played};
use crate::terrain::{diffused, law_diffusion_is_conserved};
use crate::tick::{ids_fit, law_step, lemma_early, lemma_lived, lived, stepped};
use crate::world::{find_id, lemma_find_id, lemma_population_bound, mass, spawned, Stats, WorldV};
use vstd::prelude::*;

verus! {

/// `o` is `e` later in the same tick: the same body at the same age. A plant
/// is no less hungry and no stronger.
pub open spec fn follows(e: EntityV, o: EntityV) -> bool {
    &&& o.id == e.id
    &&& o.element == e.element
    &&& o.kind == e.kind
    &&& o.lifespan == e.lifespan
    &&& o.alive ==> e.alive && o.age == e.age
    &&& o.alive && e.kind == Kind::Plant ==> o.hunger >= e.hunger && o.hp <= max_int(e.hp as int, 0)
}

/// The bodies of `w` are the first ones of `u`, and any others are new.
pub open spec fn carries_on(w: WorldV, u: WorldV) -> bool {
    &&& u.ecology == w.ecology
    &&& u.next_id >= w.next_id
    &&& u.ents.len() >= w.ents.len()
    &&& forall|i: int| 0 <= i < w.ents.len() ==> follows(w.ents[i], #[trigger] u.ents[i])
    &&& forall|i: int| w.ents.len() <= i < u.ents.len() ==> (#[trigger] u.ents[i]).id >= w.next_id
}

proof fn lemma_carries_on_trans(w: WorldV, u: WorldV, v: WorldV)
    requires
        carries_on(w, u),
        carries_on(u, v),
    ensures
        carries_on(w, v),
{
    assert forall|i: int| 0 <= i < w.ents.len() implies follows(w.ents[i], #[trigger] v.ents[i]) by {
        assert(follows(w.ents[i], u.ents[i]));
        assert(follows(u.ents[i], v.ents[i]));
    }
    assert forall|i: int| w.ents.len() <= i < v.ents.len() implies (#[trigger] v.ents[i]).id
        >= w.next_id by {
        if i < u.ents.len() {
            assert(follows(u.ents[i], v.ents[i]));
            assert(u.ents[i].id >= w.next_id);
        }
    }
}

proof fn lemma_birth_carries_on(w: WorldV, u: WorldV)
    requires
        u.ecology == w.ecology,
        w.next_id < u32::MAX,
        u.next_id == w.next_id + 1,
        u.ents.len() == w.ents.len() + 1,
        u.ents.drop_last() =~= w.ents,
        u.ents.last().id == w.next_id,
    ensures
        carries_on(w, u),
{
    assert forall|i: int| 0 <= i < w.ents.len() implies follows(w.ents[i], #[trigger] u.ents[i]) by {
        assert(u.ents.drop_last()[i] == u.ents[i]);
    }
}

// ----------------------------------------------------------------------
// Commands.
// ----------------------------------------------------------------------

/// Moving material about leaves what a body is alone.
pub(crate) open spec fn same_lives(w: WorldV, u: WorldV) -> bool {
    &&& u.ecology == w.ecology
    &&& u.next_id == w.next_id
    &&& u.ents.len() == w.ents.len()
    &&& forall|i: int|
        0 <= i < w.ents.len() ==> (#[trigger] u.ents[i]) == (EntityV {
            material: u.ents[i].material,
            carried: u.ents[i].carried,
            items: u.ents[i].items,
            action_ready_at: u.ents[i].action_ready_at,
            ..w.ents[i]
        })
}

proof fn lemma_same_lives(w: WorldV, u: WorldV)
    requires
        same_lives(w, u),
    ensures
        carries_on(w, u),
{
    assert forall|i: int| 0 <= i < w.ents.len() implies follows(w.ents[i], #[trigger] u.ents[i]) by {}
}

proof fn lemma_withdrawn_lives(
    w: WorldV,
    i: int,
    slot: RecipeSlot,
    e: Element,
    reach: Fx,
    amount: int,
)
    requires
        0 <= i < w.ents.len(),
    ensures
        same_lives(w, withdrawn(w, i, slot, e, reach, amount)),
{
    reveal(withdrawn);
}

proof fn lemma_stored_lives(w: WorldV, i: int, slot: RecipeSlot, e: Element, amount: u64)
    requires
        0 <= i < w.ents.len(),
    ensures
        same_lives(w, stored(w, i, slot, e, amount)),
{
    reveal(stored);
}

proof fn lemma_same_lives_trans(w: WorldV, u: WorldV, v: WorldV)
    requires
        same_lives(w, u),
        same_lives(u, v),
    ensures
        same_lives(w, v),
{
    assert forall|i: int| 0 <= i < w.ents.len() implies (#[trigger] v.ents[i]) == (EntityV {
        material: v.ents[i].material,
        carried: v.ents[i].carried,
        items: v.ents[i].items,
        action_ready_at: v.ents[i].action_ready_at,
        ..w.ents[i]
    }) by {
        assert(u.ents[i].id == w.ents[i].id);
    }
}

pub(crate) proof fn lemma_performed_lives(w: WorldV, i: int, recipe: ActionRecipe, e: Element, n: int)
    requires
        0 <= i < w.ents.len(),
    ensures
        same_lives(w, performed(w, i, recipe, e, n)),
{
    let consumed = n * recipe.ratio_in;
    let produced = (n * recipe.ratio_out) as u64;
    let out = recipe.transform.spec_apply(e);
    lemma_withdrawn_lives(w, i, recipe.input, e, recipe.reach, consumed);
    let u = withdrawn(w, i, recipe.input, e, recipe.reach, consumed);
    lemma_stored_lives(u, i, recipe.output, out, produced);
    let v = stored(u, i, recipe.output, out, produced);
    lemma_same_lives_trans(w, u, v);
    assert(same_lives(v, performed(w, i, recipe, e, n)));
    lemma_same_lives_trans(w, v, performed(w, i, recipe, e, n));
}

proof fn lemma_fired_lives(
    w: WorldV,
    bodies: Seq<EntityV>,
    id: u32,
    slot: ActionSlot,
    e: Element,
)
    ensures
        carries_on(w, fired(w, bodies, id, slot, e)),
{
    lemma_find_id(w.ents, id);
    let u = fired(w, bodies, id, slot, e);
    if let Some(i) = find_id(w.ents, id) {
        if let Some(recipe) = action_for(w.races[w.ents[i].race().at()].actions, slot) {
            lemma_performed_lives(w, i, recipe, e, batches(w, bodies, i, recipe, e));
        }
    }
    lemma_same_lives(w, u);
}

proof fn lemma_applied_lives(w: WorldV, bodies: Seq<EntityV>, c: Command)
    requires
        w.next_id < u32::MAX,
    ensures
        carries_on(w, applied(w, bodies, c)),
{
    let u = applied(w, bodies, c);
    lemma_find_id(w.ents, c.entity);
    match c.kind {
        CmdKind::Spawn { element, kind, at } => {
            lemma_birth_carries_on(w, u);
        },
        CmdKind::SetHeading { dir } => {
            assert forall|i: int| 0 <= i < w.ents.len() implies follows(
                w.ents[i],
                #[trigger] u.ents[i],
            ) by {}
        },
        CmdKind::Kill => {
            assert forall|i: int| 0 <= i < w.ents.len() implies follows(
                w.ents[i],
                #[trigger] u.ents[i],
            ) by {}
        },
        CmdKind::Mine { element } => {
            lemma_fired_lives(w, bodies, c.entity, ActionSlot::Mine, element);
        },
        CmdKind::Smelt { element } => {
            lemma_fired_lives(w, bodies, c.entity, ActionSlot::Smelt, element);
        },
        CmdKind::Pickup { element } => {
            lemma_fired_lives(w, bodies, c.entity, ActionSlot::Pickup, element);
        },
        CmdKind::MakeItem { element, quantity } => {
            lemma_same_lives(w, u);
        },
        CmdKind::BreakItem { index } => {
            lemma_same_lives(w, u);
        },
    }
}

proof fn lemma_commanded_lives(w: WorldV, bodies: Seq<EntityV>, cs: Seq<Command>, k: int)
    requires
        w.wf(),
        0 <= k <= cs.len(),
        w.next_id + cs.len() <= u32::MAX,
    ensures
        carries_on(w, commanded(w, bodies, cs, k)),
    decreases k,
{
    if k > 0 {
        lemma_commanded_lives(w, bodies, cs, k - 1);
        lemma_commanded(w, bodies, cs, k - 1);
        let u = commanded(w, bodies, cs, k - 1);
        lemma_applied_lives(u, bodies, cs[k - 1]);
        lemma_carries_on_trans(w, u, commanded(w, bodies, cs, k));
    }
}

// ----------------------------------------------------------------------
// Aging.
// ----------------------------------------------------------------------

/// `o` is `e` after it has aged by a tick.
pub open spec fn grew(ecology: EcologyTuning, e: EntityV, o: EntityV) -> bool {
    &&& o.id == e.id
    &&& o.element == e.element
    &&& o.kind == e.kind
    &&& o.lifespan == e.lifespan
    &&& o.alive ==> {
        &&& e.alive
        &&& o.age == e.age + 1
        &&& o.age < o.lifespan
        &&& o.hunger == hungrier(e)
        &&& o.hp == (if starves(e, ecology) {
            sat32(e.hp - ecology.starve_rate@[e.element.at()])
        } else {
            e.hp
        })
        &&& o.hp > 0
    }
}

pub(crate) proof fn lemma_aged_lives(w: WorldV, n: int)
    requires
        w.wf(),
        0 <= n <= w.ents.len(),
    ensures
        aged(w, n).ecology == w.ecology,
        aged(w, n).next_id == w.next_id,
        aged(w, n).ents.len() == w.ents.len(),
        forall|i: int|
            0 <= i < n ==> grew(w.ecology, w.ents[i], #[trigger] aged(w, n).ents[i]),
    decreases n,
{
    lemma_aged(w, n);
    if n > 0 {
        lemma_aged_lives(w, n - 1);
        lemma_aged(w, n - 1);
        let u = aged(w, n - 1);
        let v = aged(w, n);
        assert(v == aged_one(u, n - 1));
        assert(u.ents[n - 1] == w.ents[n - 1]);
        assert forall|i: int| 0 <= i < n implies grew(w.ecology, w.ents[i], #[trigger] v.ents[i]) by {
            if i < n - 1 {
                assert(grew(w.ecology, w.ents[i], u.ents[i]));
                assert(v.ents[i] == u.ents[i]);
            } else {
                let e = u.ents[i];
                if e.alive {
                    let o = older(e, u);
                    assert(e.age < u64::MAX);
                }
            }
        }
    }
}

// ----------------------------------------------------------------------
// Feeding.
// ----------------------------------------------------------------------

proof fn lemma_killed_lives(w: WorldV, eaten: Seq<bool>, n: int)
    requires
        w.wf(),
        0 <= n <= w.ents.len(),
        eaten.len() == w.ents.len(),
        forall|i: int| 0 <= i < w.ents.len() && #[trigger] eaten[i] ==> w.ents[i].alive,
    ensures
        carries_on(w, killed_upto(w, eaten, n)),
    decreases n,
{
    if n > 0 {
        lemma_killed_lives(w, eaten, n - 1);
        lemma_killed_upto(w, eaten, n - 1);
        let u = killed_upto(w, eaten, n - 1);
        let v = killed_upto(w, eaten, n);
        if eaten[n - 1] {
            assert(v == killed(u, n - 1));
            assert forall|i: int| 0 <= i < u.ents.len() implies follows(
                u.ents[i],
                #[trigger] v.ents[i],
            ) by {}
            lemma_carries_on_trans(w, u, v);
        }
    }
}

proof fn lemma_born_lives(w: WorldV, births: Seq<(Race, V2, u32)>, k: int)
    requires
        0 <= k <= births.len(),
        w.next_id + births.len() <= u32::MAX,
    ensures
        carries_on(w, born_upto(w, births, k)),
        born_upto(w, births, k).next_id == w.next_id + k,
    decreases k,
{
    if k > 0 {
        lemma_born_lives(w, births, k - 1);
        let u = born_upto(w, births, k - 1);
        let v = born_upto(w, births, k);
        assert(v.ents.drop_last() =~= u.ents);
        lemma_birth_carries_on(u, v);
        lemma_carries_on_trans(w, u, v);
    }
}

proof fn lemma_feeding_lives(w: WorldV)
    requires
        w.wf(),
        w.next_id + w.ents.len() <= u32::MAX,
    ensures
        carries_on(w, feeding_phase(w)),
{
    let n = w.ents.len() as int;
    lemma_population_bound(w.ents, w.next_id);
    law_meals(w, n);
    let m = meals(w, n);
    let g = gorged(w.ents, m.pairs, m.pairs.len() as int);
    lemma_gorged(w, m, m.pairs.len() as int);
    lemma_nourished(w, m);
    lemma_parents(g, m.fed, w.ecology, n);
    let u = WorldV {
        ents: nourished_upto(g, m.fed, w.ecology, n),
        stats: Stats { feedings: (w.stats.feedings + fed_count(m.fed, n)) as u64, ..w.stats },
        ..w
    };
    assert forall|i: int| 0 <= i < w.ents.len() implies follows(w.ents[i], #[trigger] u.ents[i]) by {
        assert(g[i] == (EntityV { material: g[i].material, ..w.ents[i] }));
        if m.fed[i] {
            let k = choose|k: int| 0 <= k < m.pairs.len() && (#[trigger] m.pairs[k]).0 == i;
            assert(w.ents[m.pairs[k].0].kind == Kind::Animal);
        }
    }
    assert(carries_on(w, u));
    assert forall|i: int| 0 <= i < u.ents.len() && #[trigger] m.eaten[i] implies u.ents[i].alive by {
        assert(w.ents[i].alive);
        assert(u.ents[i].alive == w.ents[i].alive);
    }
    lemma_killed_lives(u, m.eaten, n);
    lemma_killed_upto(u, m.eaten, n);
    let v = killed_upto(u, m.eaten, n);
    lemma_carries_on_trans(w, u, v);
    let births = parents(g, m.fed, w.ecology, n);
    lemma_born_lives(v, births, births.len() as int);
    lemma_carries_on_trans(w, v, feeding_phase(w));
}

// ----------------------------------------------------------------------
// Plants and the ground.
// ----------------------------------------------------------------------

proof fn lemma_rooted_lives(w: WorldV, kids: Seq<(Race, V2)>, k: int)
    requires
        0 <= k <= kids.len(),
        w.next_id + kids.len() <= u32::MAX,
    ensures
        carries_on(w, rooted(w, kids, k)),
        rooted(w, kids, k).next_id == w.next_id + k,
    decreases k,
{
    if k > 0 {
        lemma_rooted_lives(w, kids, k - 1);
        let u = rooted(w, kids, k - 1);
        let v = rooted(w, kids, k);
        assert(v.ents.drop_last() =~= u.ents);
        lemma_birth_carries_on(u, v);
        lemma_carries_on_trans(w, u, v);
    }
}

proof fn lemma_flora_lives(w: WorldV)
    requires
        w.wf(),
        w.next_id + w.ents.len() <= u32::MAX,
    ensures
        carries_on(w, flora_phase(w)),
{
    let n = w.ents.len() as int;
    lemma_offspring(w, n);
    if terrain_due(w.tick) {
        let kids = offspring(w, n);
        let u = WorldV {
            stats: Stats {
                rooted_rejected: (w.stats.rooted_rejected + refused(w, n)) as u64,
                ..w.stats
            },
            ..w
        };
        lemma_rooted_lives(u, kids, kids.len() as int);
    }
}

proof fn lemma_existed_lives(w: WorldV, bodies: Seq<EntityV>, n: int)
    requires
        w.wf(),
        0 <= n <= w.ents.len(),
    ensures
        carries_on(w, existed(w, bodies, n)),
    decreases n,
{
    if n > 0 {
        lemma_existed_lives(w, bodies, n - 1);
        let u = existed(w, bodies, n - 1);
        let e = u.ents[n - 1];
        if e.alive {
            lemma_fired_lives(u, bodies, e.id, ActionSlot::Exist, e.element.spec_habitat());
            lemma_carries_on_trans(w, u, existed(w, bodies, n));
        }
    }
}

proof fn lemma_terrain_lives(w: WorldV)
    requires
        w.wf(),
    ensures
        carries_on(w, terrain_phase(w)),
        terrain_phase(w).ents.len() == w.ents.len(),
{
    if terrain_due(w.tick) {
        let n = w.ents.len() as int;
        lemma_existed(w, w.ents, n);
        lemma_existed_lives(w, w.ents, n);
        let a = existed(w, w.ents, n);
        lemma_weathered(a);
        let b = weathered(a);
        assert forall|i: int| 0 <= i < a.ents.len() implies follows(a.ents[i], #[trigger] b.ents[i]) by {
            law_ground_toll_is_bounded(a.ents[i], a.terrain, a.ecology);
            law_ground_toll_is_bounded(
                attrited(a.ents[i], a.terrain, a.ecology),
                a.terrain,
                a.ecology,
            );
        }
        assert(carries_on(a, b));
        lemma_carries_on_trans(w, a, b);
        law_diffusion_is_conserved(b.terrain, b.terrain_tuning, 0);
        let c = WorldV { terrain: diffused(b.terrain, b.terrain_tuning), ..b };
        assert(mass(c) == mass(b));
        assert(c.wf());
        lemma_decayed(c);
        assert(carries_on(w, terrain_phase(w)));
    }
}

// ----------------------------------------------------------------------
// The tick.
// ----------------------------------------------------------------------

/// `o` is what has become of `e` after one tick of its world: the same body,
/// one tick older and short of its span. A plant is hungrier by at least one,
/// and has lost at least what starving costs, if it starves.
pub open spec fn survives(ecology: EcologyTuning, e: EntityV, o: EntityV) -> bool {
    let rate = ecology.starve_rate@[e.element.at()];
    &&& o.id == e.id
    &&& o.element == e.element
    &&& o.kind == e.kind
    &&& o.lifespan == e.lifespan
    &&& e.alive
    &&& o.alive
    &&& o.age == e.age + 1
    &&& o.age < o.lifespan
    &&& e.kind == Kind::Plant && rate >= 0 ==> {
        let left = if starves(e, ecology) {
            e.hp - rate
        } else {
            e.hp as int
        };
        &&& o.hunger >= hungrier(e)
        &&& 0 < left
        &&& o.hp <= left
    }
}

proof fn lemma_survives(ecology: EcologyTuning, e: EntityV, a: EntityV, b: EntityV, o: EntityV)
    requires
        follows(e, a),
        grew(ecology, a, b),
        follows(b, o),
        o.alive,
    ensures
        survives(ecology, e, o),
{
}

/// What a tick makes of the bodies, up to the removal of the dead.
pub(crate) proof fn lemma_tick_lives(w: WorldV, log: Seq<Command>)
    requires
        w.wf(),
        ids_fit(w, log),
    ensures
        ({
            let a = commands_phase(w, log);
            let b = aging_phase(a);
            let g = terrain_phase(flora_phase(lived(w, log)));
            &&& carries_on(w, a)
            &&& b.ents.len() == a.ents.len()
            &&& b.ecology == a.ecology
            &&& b.next_id == a.next_id
            &&& forall|i: int|
                0 <= i < a.ents.len() ==> grew(a.ecology, a.ents[i], #[trigger] b.ents[i])
            &&& carries_on(b, g)
        }),
{
    lemma_early(w, log);
    lemma_lived(w, log);
    let cs = stamped(log, w.tick);
    lemma_commanded_lives(w, w.ents, cs, cs.len() as int);
    let a = commands_phase(w, log);
    lemma_aged_lives(a, a.ents.len() as int);
    let b = aging_phase(a);
    law_movement(b);
    let c = movement_phase(b);
    assert forall|i: int| 0 <= i < b.ents.len() implies follows(b.ents[i], #[trigger] c.ents[i]) by {}
    law_collisions(c);
    let d = collisions_phase(c);
    assert forall|i: int| 0 <= i < c.ents.len() implies follows(c.ents[i], #[trigger] d.ents[i]) by {}
    lemma_carries_on_trans(b, c, d);
    lemma_feeding_lives(d);
    let e = lived(w, log);
    lemma_carries_on_trans(b, d, e);
    law_flora(e);
    lemma_flora_lives(e);
    let f = flora_phase(e);
    lemma_carries_on_trans(b, e, f);
    lemma_terrain_lives(f);
    lemma_carries_on_trans(b, f, terrain_phase(f));
}

/// Every body after a tick is a body from before it, one tick older, or a new
/// one. The rates stay what they were.
pub proof fn law_a_tick_makes_bodies_older(w: WorldV, log: Seq<Command>, j: int)
    requires
        w.wf(),
        ids_fit(w, log),
    ensures
        stepped(w, log).ecology == w.ecology,
        0 <= j < stepped(w, log).ents.len() ==> ({
            let o = stepped(w, log).ents[j];
            o.id >= w.next_id || exists|i: int|
                0 <= i < w.ents.len() && survives(w.ecology, #[trigger] w.ents[i], o)
        }),
{
    reveal(stepped);
    lemma_tick_lives(w, log);
    let a = commands_phase(w, log);
    let b = aging_phase(a);
    let g = terrain_phase(flora_phase(lived(w, log)));
    let alive = |e: EntityV| e.alive;
    let h = reap_phase(g);
    assert(h.ents == g.ents.filter(alive));
    if 0 <= j < h.ents.len() {
        lemma_filter_member(g.ents, alive, j);
        g.ents.lemma_filter_pred(alive, j);
        let o = h.ents[j];
        let k = g.ents.index_of(o);
        assert(g.ents[k] == o && o.alive);
        if k < b.ents.len() {
            assert(grew(a.ecology, a.ents[k], b.ents[k]));
            assert(follows(b.ents[k], g.ents[k]));
            if k < w.ents.len() {
                assert(follows(w.ents[k], a.ents[k]));
                lemma_survives(w.ecology, w.ents[k], a.ents[k], b.ents[k], o);
            } else {
                assert(a.ents[k].id >= w.next_id);
            }
        }
    }
}

// ----------------------------------------------------------------------
// Runs.
// ----------------------------------------------------------------------

proof fn lemma_run_ids(w: WorldV, log: Seq<Command>, n: int)
    requires
        w.wf(),
        0 <= n,
        ids_last(w, log, n),
    ensures
        played(w, log, n).next_id >= w.next_id,
        played(w, log, n).ecology == w.ecology,
    decreases n,
{
    if n > 0 {
        lemma_run_ids(w, log, n - 1);
        law_run(w, log, n - 1);
        law_step(played(w, log, n - 1), log);
        law_a_tick_makes_bodies_older(played(w, log, n - 1), log, 0);
    }
}

/// The body of `w` that body `j` was one tick earlier, for a body that is
/// older than the last `n` ticks.
proof fn lemma_one_tick_earlier(w: WorldV, log: Seq<Command>, n: int, j: int) -> (k: int)
    requires
        w.wf(),
        1 <= n,
        ids_last(w, log, n),
        0 <= j < played(w, log, n).ents.len(),
        played(w, log, n).ents[j].id < w.next_id,
    ensures
        0 <= k < played(w, log, n - 1).ents.len(),
        survives(w.ecology, played(w, log, n - 1).ents[k], played(w, log, n).ents[j]),
{
    let v = played(w, log, n - 1);
    law_run(w, log, n - 1);
    lemma_run_ids(w, log, n - 1);
    law_a_tick_makes_bodies_older(v, log, j);
    let o = played(w, log, n).ents[j];
    choose|i: int| 0 <= i < v.ents.len() && survives(v.ecology, #[trigger] v.ents[i], o)
}

/// A body that lives through `n` ticks is `n` ticks older, of the same race,
/// and still short of the span it was born with.
pub proof fn law_no_body_outlives_its_span(w: WorldV, log: Seq<Command>, n: int, i: int, j: int)
    requires
        w.wf(),
        1 <= n,
        ids_last(w, log, n),
        0 <= i < w.ents.len(),
        0 <= j < played(w, log, n).ents.len(),
        played(w, log, n).ents[j].id == w.ents[i].id,
    ensures
        ({
            let o = played(w, log, n).ents[j];
            &&& w.ents[i].alive
            &&& o.race() == w.ents[i].race()
            &&& o.lifespan == w.ents[i].lifespan
            &&& o.age == w.ents[i].age + n
            &&& w.ents[i].age + n < w.ents[i].lifespan
        }),
    decreases n,
{
    let k = lemma_one_tick_earlier(w, log, n, j);
    if n == 1 {
        lemma_same_id(w, i, k);
    } else {
        law_no_body_outlives_its_span(w, log, n - 1, i, k);
    }
}

proof fn lemma_same_id(w: WorldV, i: int, k: int)
    requires
        w.wf(),
        0 <= i < w.ents.len(),
        0 <= k < w.ents.len(),
        w.ents[i].id == w.ents[k].id,
    ensures
        i == k,
{
    if i < k {
        assert(w.ents[i].id < w.ents[k].id);
    }
    if k < i {
        assert(w.ents[k].id < w.ents[i].id);
    }
}

/// The ticks out of the next `n` in which a body that never eats starves, if
/// it has `patience` ticks left before it does.
pub open spec fn starving_ticks(n: int, patience: int) -> int {
    max_int(n - max_int(patience, 0), 0)
}

/// A plant never eats. Each tick makes it hungrier, and once its patience is
/// at an end each costs it the starving rate; it is dead before that comes to
/// all the strength it had.
pub proof fn law_a_plant_starves(w: WorldV, log: Seq<Command>, n: int, i: int, j: int)
    requires
        w.wf(),
        1 <= n,
        ids_last(w, log, n),
        0 <= i < w.ents.len(),
        w.ents[i].kind == Kind::Plant,
        w.ecology.starve_rate@[w.ents[i].element.at()] >= 0,
        w.ecology.starve_after@[w.ents[i].element.at()] < u32::MAX,
        0 <= j < played(w, log, n).ents.len(),
        played(w, log, n).ents[j].id == w.ents[i].id,
    ensures
        ({
            let e = w.ents[i];
            let o = played(w, log, n).ents[j];
            let rate = w.ecology.starve_rate@[e.element.at()];
            let patience = w.ecology.starve_after@[e.element.at()] - e.hunger;
            let lost = rate * starving_ticks(n, patience);
            &&& o.hunger >= min_int(e.hunger + n, u32::MAX as int)
            &&& lost < e.hp
            &&& o.hp <= e.hp - lost
        }),
    decreases n,
{
    let k = lemma_one_tick_earlier(w, log, n, j);
    let e = w.ents[i];
    let p = played(w, log, n - 1).ents[k];
    let rate = w.ecology.starve_rate@[e.element.at()] as int;
    let patience = w.ecology.starve_after@[e.element.at()] - e.hunger;
    if n == 1 {
        lemma_same_id(w, i, k);
        assert(rate * 0 == 0);
        assert(rate * 1 == rate);
    } else {
        law_no_body_outlives_its_span(w, log, n - 1, i, k);
        law_a_plant_starves(w, log, n - 1, i, k);
        let a = starving_ticks(n - 1, patience);
        assert(rate * (a + 1) == rate * a + rate) by (nonlinear_arith);
    }
}

// ----------------------------------------------------------------------
// Strength.
// ----------------------------------------------------------------------

/// A body is dead, or its strength is on the scale.
pub open spec fn strong(e: EntityV) -> bool {
    e.alive ==> 0 <= e.hp <= 100
}

/// The strength of every living body is on the scale, and a meal never weakens
/// nor starving strengthens.
pub open spec fn on_scale(w: WorldV) -> bool {
    &&& forall|i: int| 0 <= i < w.ents.len() ==> strong(#[trigger] w.ents[i])
    &&& forall|k: int|
        0 <= k < 5 ==> #[trigger] w.ecology.feed_gain@[k] >= 0 && w.ecology.starve_rate@[k] >= 0
}

proof fn lemma_same_lives_scale(w: WorldV, u: WorldV)
    requires
        on_scale(w),
        same_lives(w, u),
    ensures
        on_scale(u),
{
    assert forall|i: int| 0 <= i < u.ents.len() implies strong(#[trigger] u.ents[i]) by {
        assert(strong(w.ents[i]));
    }
}

proof fn lemma_spawned_scale(w: WorldV, race: Race, at: V2, size: u16)
    requires
        on_scale(w),
    ensures
        on_scale(spawned(w, race, at, size)),
{
    let u = spawned(w, race, at, size);
    assert forall|i: int| 0 <= i < u.ents.len() implies strong(#[trigger] u.ents[i]) by {
        if i < w.ents.len() {
            assert(u.ents[i] == w.ents[i]);
        }
    }
}

proof fn lemma_fired_scale(
    w: WorldV,
    bodies: Seq<EntityV>,
    id: u32,
    slot: ActionSlot,
    e: Element,
)
    requires
        on_scale(w),
    ensures
        on_scale(fired(w, bodies, id, slot, e)),
{
    lemma_find_id(w.ents, id);
    if let Some(i) = find_id(w.ents, id) {
        if let Some(recipe) = action_for(w.races[w.ents[i].race().at()].actions, slot) {
            lemma_performed_lives(w, i, recipe, e, batches(w, bodies, i, recipe, e));
        }
    }
    lemma_same_lives_scale(w, fired(w, bodies, id, slot, e));
}

proof fn lemma_commanded_scale(w: WorldV, bodies: Seq<EntityV>, cs: Seq<Command>, k: int)
    requires
        on_scale(w),
        0 <= k <= cs.len(),
    ensures
        on_scale(commanded(w, bodies, cs, k)),
    decreases k,
{
    if k > 0 {
        lemma_commanded_scale(w, bodies, cs, k - 1);
        let u = commanded(w, bodies, cs, k - 1);
        let v = commanded(w, bodies, cs, k);
        let c = cs[k - 1];
        lemma_find_id(u.ents, c.entity);
        match c.kind {
            CmdKind::Spawn { element, kind, at } => {
                lemma_spawned_scale(u, Race { element, kind }, at, 1000);
            },
            CmdKind::Mine { element } => {
                lemma_fired_scale(u, bodies, c.entity, ActionSlot::Mine, element);
            },
            CmdKind::Smelt { element } => {
                lemma_fired_scale(u, bodies, c.entity, ActionSlot::Smelt, element);
            },
            CmdKind::Pickup { element } => {
                lemma_fired_scale(u, bodies, c.entity, ActionSlot::Pickup, element);
            },
            CmdKind::MakeItem { .. } => {
                lemma_same_lives_scale(u, v);
            },
            CmdKind::BreakItem { .. } => {
                lemma_same_lives_scale(u, v);
            },
            CmdKind::SetHeading { dir } => {
                assert(v == headed(u, c.entity, dir));
                assert forall|i: int| 0 <= i < v.ents.len() implies strong(#[trigger] v.ents[i]) by {
                    assert(strong(u.ents[i]));
                }
            },
            CmdKind::Kill => {
                assert(v == struck(u, c.entity));
                assert forall|i: int| 0 <= i < v.ents.len() implies strong(#[trigger] v.ents[i]) by {
                    assert(strong(u.ents[i]));
                }
            },
        }
        assert(v == applied(u, bodies, c));
    }
}

proof fn lemma_killed_scale(w: WorldV, eaten: Seq<bool>, n: int)
    requires
        on_scale(w),
        0 <= n <= w.ents.len(),
    ensures
        on_scale(killed_upto(w, eaten, n)),
        killed_upto(w, eaten, n).ents.len() == w.ents.len(),
    decreases n,
{
    if n > 0 {
        lemma_killed_scale(w, eaten, n - 1);
        let u = killed_upto(w, eaten, n - 1);
        let v = killed_upto(w, eaten, n);
        assert forall|i: int| 0 <= i < v.ents.len() implies strong(#[trigger] v.ents[i]) by {
            assert(strong(u.ents[i]));
        }
    }
}

proof fn lemma_born_scale(w: WorldV, births: Seq<(Race, V2, u32)>, k: int)
    requires
        on_scale(w),
    ensures
        on_scale(born_upto(w, births, k)),
    decreases k,
{
    if k > 0 {
        lemma_born_scale(w, births, k - 1);
        let (race, pos, id) = births[k - 1];
        lemma_spawned_scale(born_upto(w, births, k - 1), race, cradle(w, pos, id), 1000);
    }
}

proof fn lemma_feeding_scale(w: WorldV)
    requires
        w.wf(),
        on_scale(w),
    ensures
        on_scale(feeding_phase(w)),
{
    let n = w.ents.len() as int;
    lemma_population_bound(w.ents, w.next_id);
    law_meals(w, n);
    let m = meals(w, n);
    let g = gorged(w.ents, m.pairs, m.pairs.len() as int);
    lemma_gorged(w, m, m.pairs.len() as int);
    let u = WorldV {
        ents: nourished_upto(g, m.fed, w.ecology, n),
        stats: Stats { feedings: (w.stats.feedings + fed_count(m.fed, n)) as u64, ..w.stats },
        ..w
    };
    assert forall|i: int| 0 <= i < u.ents.len() implies strong(#[trigger] u.ents[i]) by {
        assert(strong(w.ents[i]));
        assert(g[i] == (EntityV { material: g[i].material, ..w.ents[i] }));
        assert(w.ecology.feed_gain@[w.ents[i].element.at()] >= 0);
    }
    lemma_killed_scale(u, m.eaten, n);
    let births = parents(g, m.fed, w.ecology, n);
    lemma_born_scale(killed_upto(u, m.eaten, n), births, births.len() as int);
}

proof fn lemma_rooted_scale(w: WorldV, kids: Seq<(Race, V2)>, k: int)
    requires
        on_scale(w),
    ensures
        on_scale(rooted(w, kids, k)),
    decreases k,
{
    if k > 0 {
        lemma_rooted_scale(w, kids, k - 1);
        let (race, pos) = kids[k - 1];
        let u = rooted(w, kids, k - 1);
        let size = w.propagation.offspring_size@[race.element.at()];
        lemma_spawned_scale(u, race, pos, size);
        let v = spawned(u, race, pos, size);
        assert(rooted(w, kids, k).ents == v.ents);
    }
}

proof fn lemma_existed_scale(w: WorldV, bodies: Seq<EntityV>, n: int)
    requires
        on_scale(w),
    ensures
        on_scale(existed(w, bodies, n)),
    decreases n,
{
    if n > 0 {
        lemma_existed_scale(w, bodies, n - 1);
        let u = existed(w, bodies, n - 1);
        let e = u.ents[n - 1];
        lemma_fired_scale(u, bodies, e.id, ActionSlot::Exist, e.element.spec_habitat());
    }
}

proof fn lemma_terrain_scale(w: WorldV)
    requires
        w.wf(),
        on_scale(w),
    ensures
        on_scale(terrain_phase(w)),
{
    if terrain_due(w.tick) {
        let n = w.ents.len() as int;
        lemma_existed(w, w.ents, n);
        lemma_existed_scale(w, w.ents, n);
        let a = existed(w, w.ents, n);
        lemma_weathered(a);
        let b = weathered(a);
        assert forall|i: int| 0 <= i < b.ents.len() implies strong(#[trigger] b.ents[i]) by {
            assert(strong(a.ents[i]));
            law_ground_toll_is_bounded(a.ents[i], a.terrain, a.ecology);
            law_ground_toll_is_bounded(
                attrited(a.ents[i], a.terrain, a.ecology),
                a.terrain,
                a.ecology,
            );
        }
        law_diffusion_is_conserved(b.terrain, b.terrain_tuning, 0);
        let c = WorldV { terrain: diffused(b.terrain, b.terrain_tuning), ..b };
        assert(mass(c) == mass(b));
        assert(c.wf());
        lemma_decayed(c);
    }
}

proof fn lemma_flora_scale(w: WorldV)
    requires
        on_scale(w),
    ensures
        on_scale(flora_phase(w)),
{
    if terrain_due(w.tick) {
        let n = w.ents.len() as int;
        let kids = offspring(w, n);
        let u = WorldV {
            stats: Stats {
                rooted_rejected: (w.stats.rooted_rejected + refused(w, n)) as u64,
                ..w.stats
            },
            ..w
        };
        assert(u.ents == w.ents && u.ecology == w.ecology);
        lemma_rooted_scale(u, kids, kids.len() as int);
    }
}

proof fn lemma_aging_scale(w: WorldV)
    requires
        w.wf(),
        on_scale(w),
    ensures
        on_scale(aging_phase(w)),
{
    lemma_aged_lives(w, w.ents.len() as int);
    let u = aging_phase(w);
    assert forall|i: int| 0 <= i < u.ents.len() implies strong(#[trigger] u.ents[i]) by {
        assert(strong(w.ents[i]));
        assert(grew(w.ecology, w.ents[i], u.ents[i]));
        assert(w.ecology.feed_gain@[w.ents[i].element.at()] >= 0);
    }
}

proof fn lemma_motion_scale(w: WorldV)
    requires
        w.wf(),
        on_scale(w),
    ensures
        on_scale(collisions_phase(movement_phase(w))),
{
    law_movement(w);
    let c = movement_phase(w);
    law_collisions(c);
    let d = collisions_phase(c);
    assert forall|i: int| 0 <= i < d.ents.len() implies strong(#[trigger] d.ents[i]) by {
        assert(strong(w.ents[i]));
        assert(c.ents[i].hp == w.ents[i].hp && c.ents[i].alive == w.ents[i].alive);
    }
}

proof fn lemma_reaping_scale(w: WorldV)
    requires
        on_scale(w),
    ensures
        on_scale(reap_phase(w)),
{
    let alive = |e: EntityV| e.alive;
    let h = reap_phase(w);
    assert forall|j: int| 0 <= j < h.ents.len() implies strong(#[trigger] h.ents[j]) by {
        lemma_filter_member(w.ents, alive, j);
        assert(strong(w.ents[w.ents.index_of(h.ents[j])]));
    }
}

/// Strength stays on its scale from nothing to one hundred: no phase of a tick
/// takes a living body off it.
pub proof fn law_strength_stays_on_its_scale(w: WorldV, log: Seq<Command>)
    requires
        w.wf(),
        ids_fit(w, log),
        on_scale(w),
    ensures
        on_scale(stepped(w, log)),
{
    let cs = stamped(log, w.tick);
    lemma_early(w, log);
    lemma_lived(w, log);
    lemma_commanded_scale(w, w.ents, cs, cs.len() as int);
    let a = commands_phase(w, log);
    lemma_aging_scale(a);
    let b = aging_phase(a);
    lemma_motion_scale(b);
    let d = collisions_phase(movement_phase(b));
    lemma_feeding_scale(d);
    let e = lived(w, log);
    lemma_flora_scale(e);
    law_flora(e);
    let f = flora_phase(e);
    lemma_terrain_scale(f);
    lemma_reaping_scale(terrain_phase(f));
    assert(on_scale(stepped(w, log))) by {
        reveal(stepped);
    }
}

} // verus!
