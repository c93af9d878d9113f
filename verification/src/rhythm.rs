//! The order of a tick, and how a world begins.
use crate::aging::aging_phase;
use crate::collisions::collisions_phase;
use crate::commands::{applied, commanded, commands_phase, lemma_commanded};
use crate::element::Element;
use crate::entity::EntityV;
use crate::fate::{follows, grew, lemma_performed_lives, lemma_tick_lives, same_lives};
use crate::feeding::feeding_phase;
use crate::flora::flora_phase;
use crate::fx::V2;
use crate::ground::{lemma_filter_member, reap_phase, terrain_phase};
use crate::input::{stamped, CmdKind, Command};
use crate::movement::movement_phase;
use crate::race::{action_for, race_at, ActionSlot};
use crate::rand::{law_draw_below_bound, Channel};
use crate::recipes::{batches, fired};
use crate::seeding::{is_newborn, law_a_birth_adds_a_newborn};
use crate::tick::{ids_fit, stepped};
use crate::world::{find_id, in_square, lemma_find_id, scattered, seeded, seeded_race, WorldV};
use vstd::prelude::*;

verus! {

// ----------------------------------------------------------------------
// The order of a tick.
// ----------------------------------------------------------------------

/// A tick goes: commands, aging, movement, collisions, feeding, flora, terrain,
/// and the dead are removed; then the clock moves on.
pub proof fn law_the_order_of_a_tick(w: WorldV, log: Seq<Command>)
    requires
        w.tick < u64::MAX,
    ensures
        ({
            let told = commands_phase(w, log);
            let aged = aging_phase(told);
            let moved = movement_phase(aged);
            let parted = collisions_phase(moved);
            let fed = feeding_phase(parted);
            let sown = flora_phase(fed);
            let tilled = terrain_phase(sown);
            let reaped = reap_phase(tilled);
            &&& stepped(w, log).tick == w.tick + 1
            &&& stepped(w, log) == (WorldV { tick: stepped(w, log).tick, ..reaped })
        }),
{
    reveal(stepped);
}

/// Plants spread and the ground works in every hundredth tick only.
pub proof fn law_the_ground_works_every_hundredth_tick(w: WorldV)
    ensures
        (w.tick + 1) % 100 != 0 ==> flora_phase(w) == w && terrain_phase(w) == w,
{
}

/// Commands stamped for a tick are applied in it, one after another, and no
/// others: a log without any for this tick changes nothing, and the last one is
/// applied to what the ones before it have made of the world.
pub proof fn law_commands_apply_in_turn(w: WorldV, bodies: Seq<EntityV>, cs: Seq<Command>)
    ensures
        commanded(w, bodies, Seq::empty(), 0) == w,
        cs.len() > 0 ==> commanded(w, bodies, cs, cs.len() as int) == applied(
            commanded(w, bodies, cs.drop_last(), cs.len() - 1),
            bodies,
            cs.last(),
        ),
{
    if cs.len() > 0 {
        lemma_same_commands(w, bodies, cs, cs.drop_last(), cs.len() - 1);
    }
}

proof fn lemma_same_commands(
    w: WorldV,
    bodies: Seq<EntityV>,
    a: Seq<Command>,
    b: Seq<Command>,
    k: int,
)
    requires
        0 <= k <= a.len(),
        k <= b.len(),
        forall|i: int| 0 <= i < k ==> a[i] == b[i],
    ensures
        commanded(w, bodies, a, k) == commanded(w, bodies, b, k),
    decreases k,
{
    if k > 0 {
        lemma_same_commands(w, bodies, a, b, k - 1);
    }
}

/// What is stamped for a tick is what the log holds for it, in its order.
pub proof fn law_a_stamp_is_a_tick(log: Seq<Command>, tick: u64, c: Command)
    ensures
        stamped(log, tick).contains(c) <==> log.contains(c) && c.tick == tick,
{
    let f = |c: Command| c.tick == tick;
    if log.contains(c) && c.tick == tick {
        log.lemma_filter_contains(f, log.index_of(c));
    }
    if stamped(log, tick).contains(c) {
        let i = stamped(log, tick).index_of(c);
        log.lemma_filter_pred(f, i);
        lemma_filter_member(log, f, i);
    }
}

// ----------------------------------------------------------------------
// Condemned.
// ----------------------------------------------------------------------

/// A body keeps its place and its strength under a command, or loses all of it.
proof fn lemma_strength_kept(w: WorldV, bodies: Seq<EntityV>, c: Command, i: int)
    requires
        w.wf(),
        0 <= i < w.ents.len(),
    ensures
        ({
            let u = applied(w, bodies, c);
            &&& i < u.ents.len()
            &&& u.ents[i].id == w.ents[i].id
            &&& u.ents[i].hp == w.ents[i].hp || u.ents[i].hp == 0
            &&& c.kind is Kill && c.entity == w.ents[i].id ==> u.ents[i].hp == 0
            &&& u.ents[i].element == w.ents[i].element
            &&& u.ecology == w.ecology
        }),
{
    let u = applied(w, bodies, c);
    lemma_find_id(w.ents, c.entity);
    match c.kind {
        CmdKind::Mine { element } => {
            lemma_fired_kept(w, bodies, c.entity, ActionSlot::Mine, element, i);
        },
        CmdKind::Smelt { element } => {
            lemma_fired_kept(w, bodies, c.entity, ActionSlot::Smelt, element, i);
        },
        CmdKind::Pickup { element } => {
            lemma_fired_kept(w, bodies, c.entity, ActionSlot::Pickup, element, i);
        },
        CmdKind::Kill => {
            if c.entity == w.ents[i].id {
                assert forall|j: int| 0 <= j < i implies (#[trigger] w.ents[j]).id
                    != w.ents[i].id by {
                    assert(w.ents[j].id < w.ents[i].id);
                }
                crate::world::lemma_id_pos(w.ents, c.entity, i);
            }
        },
        _ => {},
    }
}

proof fn lemma_fired_kept(
    w: WorldV,
    bodies: Seq<EntityV>,
    id: u32,
    slot: ActionSlot,
    e: Element,
    i: int,
)
    requires
        0 <= i < w.ents.len(),
    ensures
        ({
            let u = fired(w, bodies, id, slot, e);
            &&& u.ents.len() == w.ents.len()
            &&& u.ents[i].id == w.ents[i].id
            &&& u.ents[i].hp == w.ents[i].hp
            &&& u.ents[i].element == w.ents[i].element
            &&& u.ecology == w.ecology
        }),
{
    lemma_find_id(w.ents, id);
    if let Some(x) = find_id(w.ents, id) {
        if let Some(recipe) = action_for(w.races[w.ents[x].race().at()].actions, slot) {
            let n = batches(w, bodies, x, recipe, e);
            lemma_performed_lives(w, x, recipe, e, n);
            let u = crate::recipes::performed(w, x, recipe, e, n);
            assert(same_lives(w, u));
            assert(u.ents[i].hp == w.ents[i].hp);
        }
    }
}

proof fn lemma_condemned(w: WorldV, bodies: Seq<EntityV>, cs: Seq<Command>, k: int, i: int, x: int)
    requires
        w.wf(),
        0 <= i < w.ents.len(),
        0 <= x < k <= cs.len(),
        w.next_id + cs.len() <= u32::MAX,
        cs[x].kind is Kill,
        cs[x].entity == w.ents[i].id,
    ensures
        ({
            let u = commanded(w, bodies, cs, k);
            &&& i < u.ents.len()
            &&& u.ents[i].id == w.ents[i].id
            &&& u.ents[i].hp == 0
            &&& u.ents[i].element == w.ents[i].element
            &&& u.ecology == w.ecology
        }),
    decreases k,
{
    lemma_commanded(w, bodies, cs, k - 1);
    let v = commanded(w, bodies, cs, k - 1);
    if k - 1 > x {
        lemma_condemned(w, bodies, cs, k - 1, i, x);
    } else {
        lemma_still_there(w, bodies, cs, k - 1, i);
    }
    lemma_strength_kept(v, bodies, cs[k - 1], i);
}

proof fn lemma_still_there(w: WorldV, bodies: Seq<EntityV>, cs: Seq<Command>, k: int, i: int)
    requires
        w.wf(),
        0 <= i < w.ents.len(),
        0 <= k <= cs.len(),
        w.next_id + cs.len() <= u32::MAX,
    ensures
        ({
            let u = commanded(w, bodies, cs, k);
            &&& i < u.ents.len()
            &&& u.ents[i].id == w.ents[i].id
            &&& u.ents[i].element == w.ents[i].element
            &&& u.ecology == w.ecology
        }),
    decreases k,
{
    if k > 0 {
        lemma_still_there(w, bodies, cs, k - 1, i);
        lemma_commanded(w, bodies, cs, k - 1);
        lemma_strength_kept(commanded(w, bodies, cs, k - 1), bodies, cs[k - 1], i);
    }
}

/// A body that is told to die in a tick is gone by its end.
pub proof fn law_the_condemned_are_gone_by_the_end(w: WorldV, log: Seq<Command>, i: int, c: Command)
    requires
        w.wf(),
        ids_fit(w, log),
        0 <= i < w.ents.len(),
        log.contains(c),
        c.tick == w.tick,
        c.kind is Kill,
        c.entity == w.ents[i].id,
        w.ecology.starve_rate@[w.ents[i].element.at()] >= 0,
    ensures
        forall|j: int|
            0 <= j < stepped(w, log).ents.len() ==> (#[trigger] stepped(w, log).ents[j]).id
                != w.ents[i].id,
{
    let cs = stamped(log, w.tick);
    law_a_stamp_is_a_tick(log, w.tick, c);
    let x = cs.index_of(c);
    lemma_condemned(w, w.ents, cs, cs.len() as int, i, x);
    lemma_tick_lives(w, log);
    let a = commands_phase(w, log);
    let b = aging_phase(a);
    let g = terrain_phase(flora_phase(crate::tick::lived(w, log)));
    assert(grew(a.ecology, a.ents[i], b.ents[i]));
    assert(!b.ents[i].alive);
    assert(follows(b.ents[i], g.ents[i]));
    assert(!g.ents[i].alive);
    assert(stepped(w, log).ents == reap_phase(g).ents) by {
        reveal(stepped);
    }
    lemma_last_phase(w, log);
    let f = |e: EntityV| e.alive;
    assert forall|j: int| 0 <= j < stepped(w, log).ents.len() implies (
    #[trigger] stepped(w, log).ents[j]).id != w.ents[i].id by {
        let o = stepped(w, log).ents[j];
        lemma_filter_member(g.ents, f, j);
        g.ents.lemma_filter_pred(f, j);
        let k = g.ents.index_of(o);
        assert(g.ents[k] == o);
        if k < i {
            assert(g.ents[k].id < g.ents[i].id);
        } else if i < k {
            assert(g.ents[i].id < g.ents[k].id);
        }
    }
}

proof fn lemma_last_phase(w: WorldV, log: Seq<Command>)
    requires
        w.wf(),
        ids_fit(w, log),
    ensures
        terrain_phase(flora_phase(crate::tick::lived(w, log))).wf(),
{
    crate::tick::lemma_lived(w, log);
    let e = crate::tick::lived(w, log);
    crate::flora::law_flora(e);
    crate::ground::law_terrain_phase(flora_phase(e));
}

/// Removing the dead removes nobody else: whoever lives is still there, in the
/// same order, and nobody is there who does not live.
pub proof fn law_the_living_stay(w: WorldV, e: EntityV)
    ensures
        reap_phase(w).ents.contains(e) <==> w.ents.contains(e) && e.alive,
        reap_phase(w) == (WorldV { ents: reap_phase(w).ents, ..w }),
{
    let f = |e: EntityV| e.alive;
    if w.ents.contains(e) && e.alive {
        w.ents.lemma_filter_contains(f, w.ents.index_of(e));
    }
    if reap_phase(w).ents.contains(e) {
        let i = reap_phase(w).ents.index_of(e);
        w.ents.lemma_filter_pred(f, i);
        lemma_filter_member(w.ents, f, i);
    }
}

// ----------------------------------------------------------------------
// The first bodies.
// ----------------------------------------------------------------------

proof fn lemma_scatter(w: WorldV, salt: int, axis: u64)
    requires
        w.size.0 >= 65536,
    ensures
        0 <= scattered(w, salt, axis).0 < w.size.0,
{
    let n = w.size.floor();
    assert(1 <= n <= 32767);
    law_draw_below_bound(w.seed, axis, salt as u32, Channel::SpawnPlacement, n as u32);
}

/// The bodies that are placed for one race.
proof fn lemma_seeded_race(w: WorldV, r: int, k: int)
    requires
        w.size.0 >= 65536,
        0 <= r < 10,
        0 <= k,
        w.next_id + k <= u32::MAX,
    ensures
        ({
            let u = seeded_race(w, r, k);
            let n = w.ents.len() as int;
            &&& u.ents.len() == n + k
            &&& u.next_id == w.next_id + k
            &&& u.size == w.size
            &&& u.seed == w.seed
            &&& u.races == w.races
            &&& forall|i: int| 0 <= i < n ==> #[trigger] u.ents[i] == w.ents[i]
            &&& forall|i: int| n <= i < n + k ==> founder(w, #[trigger] u.ents[i], r)
        }),
    decreases k,
{
    if k > 0 {
        lemma_seeded_race(w, r, k - 1);
        let v = seeded_race(w, r, k - 1);
        let u = seeded_race(w, r, k);
        let salt = r * 7919 + (k - 1);
        let at = V2 { x: scattered(v, salt, 0), y: scattered(v, salt, 1) };
        lemma_scatter(v, salt, 0);
        lemma_scatter(v, salt, 1);
        law_a_birth_adds_a_newborn(v, race_at(r), at, 1000);
        assert forall|i: int| 0 <= i < u.ents.len() - 1 implies #[trigger] u.ents[i]
            == v.ents[i] by {
            assert(u.ents.drop_last()[i] == u.ents[i]);
        }
        crate::race::law_race_positions(race_at(r), r);
        let n = w.ents.len() as int;
        assert forall|i: int| n <= i < n + k implies founder(w, #[trigger] u.ents[i], r) by {
            if i == n + k - 1 {
                assert(u.ents[i] == u.ents.last());
            } else {
                assert(u.ents[i] == v.ents[i]);
            }
        }
    }
}

/// A body as it is placed when a world begins: a newborn of full size of the
/// race at place `r`, somewhere inside the square.
pub open spec fn founder(w: WorldV, o: EntityV, r: int) -> bool {
    &&& is_newborn(w, o, o.element, o.pos, 1000)
    &&& o.element.at() == r / 2
    &&& o.kind == w.races[r].kind
    &&& in_square(w.size, o.pos)
    &&& o.pos.x.0 < w.size.0
    &&& o.pos.y.0 < w.size.0
}

/// A world is peopled race by race, as many of each as asked for, all inside.
pub proof fn law_a_world_is_peopled_evenly(w: WorldV, n: int, per_race: int)
    requires
        w.size.0 >= 65536,
        0 <= n <= 10,
        0 <= per_race,
        w.next_id + 10 * per_race <= u32::MAX,
    ensures
        ({
            let u = seeded(w, n, per_race);
            let m = w.ents.len() as int;
            &&& u.ents.len() == m + n * per_race
            &&& u.next_id == w.next_id + n * per_race
            &&& u.size == w.size
            &&& u.seed == w.seed
            &&& u.races == w.races
            &&& forall|i: int| 0 <= i < m ==> #[trigger] u.ents[i] == w.ents[i]
            &&& forall|r: int, k: int|
                0 <= r < n && 0 <= k < per_race ==> founder(
                    w,
                    #[trigger] u.ents[m + r * per_race + k],
                    r,
                )
        }),
    decreases n,
{
    if n > 0 {
        law_a_world_is_peopled_evenly(w, n - 1, per_race);
        let v = seeded(w, n - 1, per_race);
        let u = seeded(w, n, per_race);
        let m = w.ents.len() as int;
        assert(n * per_race == (n - 1) * per_race + per_race) by (nonlinear_arith);
        assert(n * per_race <= 10 * per_race) by (nonlinear_arith)
            requires
                n <= 10,
                0 <= per_race,
        ;
        lemma_seeded_race(v, n - 1, per_race);
        assert forall|r: int, k: int| 0 <= r < n && 0 <= k < per_race implies founder(
            w,
            #[trigger] u.ents[m + r * per_race + k],
            r,
        ) by {
            if r < n - 1 {
                assert(r * per_race + per_race <= (n - 1) * per_race) by (nonlinear_arith)
                    requires
                        r + 1 <= n - 1,
                        0 <= per_race,
                ;
                assert(0 <= r * per_race) by (nonlinear_arith)
                    requires
                        0 <= r,
                        0 <= per_race,
                ;
                assert(u.ents[m + r * per_race + k] == v.ents[m + r * per_race + k]);
            } else {
                assert(founder(v, u.ents[m + (n - 1) * per_race + k], n - 1));
            }
        }
    } else {
        assert(0 * per_race == 0) by (nonlinear_arith);
    }
}

} // verus!
