//! The tick.
use crate::aging::{aged, aging_phase, lemma_aged};
use crate::collisions::{collisions_phase, law_collisions, lemma_shoved};
use crate::commands::{commanded, commands_phase, lemma_commanded};
use crate::element::Element;
use crate::entity::EntityV;
use crate::feeding::{
    born_upto, fed_count, feeding_phase, gorged, killed_upto, law_feeding, meals, nourished_upto,
    parents,
};
use crate::flora::{flora_phase, law_flora, offspring, refused, rooted};
use crate::fx::{min_int, V2};
use crate::ground::{
    eroded, existed, law_reaping, law_terrain_phase, reap_phase, terrain_phase, weathered,
};
use crate::input::{stamped, CmdKind, Command, InputLog};
use crate::movement::{law_movement, lemma_driven, movement_phase};
use crate::race::{ActionSlot, Kind, Race};
use crate::recipes::{fired, stored, withdrawn};
use crate::sums::sum_by;
use crate::terrain::{deposited, diffused};
use crate::world::{
    lemma_population_bound, mass, pile_mass, GroundItem, Stats, World, WorldV,
};
use vstd::prelude::*;

verus! {

/// The counters of a world can hold one more tick in which `k` commands are
/// applied. With `m` bodies after the commands, a tick brings at most `4 * m`
/// ids and `m * m` collisions.
pub open spec fn has_room(w: WorldV, k: int) -> bool {
    let m = w.ents.len() + k;
    &&& w.tick + 65536 <= u64::MAX
    &&& w.next_id + 4 * m <= u32::MAX
    &&& w.stats.room(m * m + 4 * m)
}

/// The counters of a world have room for its next tick under a log.
#[verifier::opaque]
pub open spec fn fits(w: WorldV, log: Seq<Command>) -> bool {
    has_room(w, stamped(log, w.tick).len() as int)
}

/// There are ids left for every body that the next tick under a log can bring.
pub open spec fn ids_fit(w: WorldV, log: Seq<Command>) -> bool {
    w.next_id + 4 * (w.ents.len() + stamped(log, w.tick).len()) <= u32::MAX
}

/// The world after the phases that end with feeding.
pub open spec fn lived(w: WorldV, log: Seq<Command>) -> WorldV {
    feeding_phase(collisions_phase(movement_phase(aging_phase(commands_phase(w, log)))))
}

/// The world one tick later, under a log.
#[verifier::opaque]
pub open spec fn stepped(w: WorldV, log: Seq<Command>) -> WorldV {
    let u = reap_phase(terrain_phase(flora_phase(lived(w, log))));
    WorldV { tick: (w.tick + 1) as u64, ..u }
}

/// Everything that tells how a world runs is the same in both: the five
/// tables, and the band of the ground's decay.
pub open spec fn same_tables(w: WorldV, u: WorldV) -> bool {
    &&& u.races == w.races
    &&& u.terrain_tuning == w.terrain_tuning
    &&& u.ecology == w.ecology
    &&& u.behavior == w.behavior
    &&& u.propagation == w.propagation
    &&& u.decay.band == w.decay.band
}

proof fn lemma_fired_tables(
    w: WorldV,
    bodies: Seq<EntityV>,
    id: u32,
    slot: ActionSlot,
    e: Element,
)
    ensures
        same_tables(w, fired(w, bodies, id, slot, e)),
{
    reveal(withdrawn);
    reveal(stored);
}

proof fn lemma_commanded_tables(w: WorldV, bodies: Seq<EntityV>, cs: Seq<Command>, k: int)
    ensures
        same_tables(w, commanded(w, bodies, cs, k)),
    decreases k,
{
    if k > 0 {
        lemma_commanded_tables(w, bodies, cs, k - 1);
        let u = commanded(w, bodies, cs, k - 1);
        let c = cs[k - 1];
        match c.kind {
            CmdKind::Mine { element } => {
                lemma_fired_tables(u, bodies, c.entity, ActionSlot::Mine, element);
            },
            CmdKind::Smelt { element } => {
                lemma_fired_tables(u, bodies, c.entity, ActionSlot::Smelt, element);
            },
            CmdKind::Pickup { element } => {
                lemma_fired_tables(u, bodies, c.entity, ActionSlot::Pickup, element);
            },
            _ => {},
        }
    }
}

proof fn lemma_aged_tables(w: WorldV, n: int)
    ensures
        same_tables(w, aged(w, n)),
    decreases n,
{
    if n > 0 {
        lemma_aged_tables(w, n - 1);
    }
}

proof fn lemma_killed_tables(w: WorldV, eaten: Seq<bool>, n: int)
    ensures
        same_tables(w, killed_upto(w, eaten, n)),
    decreases n,
{
    if n > 0 {
        lemma_killed_tables(w, eaten, n - 1);
    }
}

proof fn lemma_born_tables(w: WorldV, births: Seq<(Race, V2, u32)>, k: int)
    ensures
        same_tables(w, born_upto(w, births, k)),
    decreases k,
{
    if k > 0 {
        lemma_born_tables(w, births, k - 1);
    }
}

proof fn lemma_feeding_tables(w: WorldV)
    ensures
        same_tables(w, feeding_phase(w)),
{
    let n = w.ents.len() as int;
    let m = meals(w, n);
    let g = gorged(w.ents, m.pairs, m.pairs.len() as int);
    let u = WorldV {
        ents: nourished_upto(g, m.fed, w.ecology, n),
        stats: Stats { feedings: (w.stats.feedings + fed_count(m.fed, n)) as u64, ..w.stats },
        ..w
    };
    lemma_killed_tables(u, m.eaten, n);
    let births = parents(g, m.fed, w.ecology, n);
    lemma_born_tables(killed_upto(u, m.eaten, n), births, births.len() as int);
}

proof fn lemma_rooted_tables(w: WorldV, kids: Seq<(Race, V2)>, k: int)
    ensures
        same_tables(w, rooted(w, kids, k)),
    decreases k,
{
    if k > 0 {
        lemma_rooted_tables(w, kids, k - 1);
    }
}

proof fn lemma_existed_tables(w: WorldV, bodies: Seq<EntityV>, n: int)
    ensures
        same_tables(w, existed(w, bodies, n)),
    decreases n,
{
    if n > 0 {
        lemma_existed_tables(w, bodies, n - 1);
        let u = existed(w, bodies, n - 1);
        let e = u.ents[n - 1];
        lemma_fired_tables(u, bodies, e.id, ActionSlot::Exist, e.element.spec_habitat());
    }
}

proof fn lemma_eroded_tables(w: WorldV, i: int, remaining: int)
    ensures
        same_tables(w, eroded(w, i, remaining)),
    decreases w.ground.len() - i,
{
    if 0 <= i < w.ground.len() && remaining > 0 {
        let g = w.ground[i];
        let take = min_int(g.quantity as int, remaining);
        let t = deposited(
            w.terrain,
            Race { element: g.element, kind: Kind::Animal },
            g.element,
            take as u64,
            g.pos,
        );
        if g.quantity == take {
            let ground = w.ground.update(i, w.ground.last()).drop_last();
            lemma_eroded_tables(WorldV { terrain: t, ground, ..w }, i, remaining - take);
        } else {
            let ground = w.ground.update(
                i,
                GroundItem { quantity: (g.quantity - take) as u64, ..g },
            );
            lemma_eroded_tables(WorldV { terrain: t, ground, ..w }, i + 1, remaining - take);
        }
    }
}

/// A tick reads the tables and leaves them alone.
pub proof fn law_a_tick_keeps_the_tables(w: WorldV, log: Seq<Command>)
    ensures
        same_tables(w, stepped(w, log)),
{
    reveal(stepped);
    let cs = stamped(log, w.tick);
    lemma_commanded_tables(w, w.ents, cs, cs.len() as int);
    let a = commands_phase(w, log);
    lemma_aged_tables(a, a.ents.len() as int);
    let d = collisions_phase(movement_phase(aging_phase(a)));
    assert(same_tables(w, d));
    lemma_feeding_tables(d);
    let e = lived(w, log);
    assert(same_tables(w, e));
    let k = e.ents.len() as int;
    let kids = offspring(e, k);
    let tried = WorldV {
        stats: Stats {
            rooted_rejected: (e.stats.rooted_rejected + refused(e, k)) as u64,
            ..e.stats
        },
        ..e
    };
    lemma_rooted_tables(tried, kids, kids.len() as int);
    let f = flora_phase(e);
    assert(same_tables(w, f));
    lemma_existed_tables(f, f.ents, f.ents.len() as int);
    let b = weathered(existed(f, f.ents, f.ents.len() as int));
    let c = WorldV { terrain: diffused(b.terrain, b.terrain_tuning), ..b };
    let total = sum_by(c.ground, pile_mass());
    lemma_eroded_tables(
        WorldV { decay: c.decay.settled(total as u64), ..c },
        0,
        c.decay.payable(total as u64),
    );
    assert(same_tables(w, terrain_phase(f)));
}

/// What every phase keeps of the world `w` that the tick began with.
pub open spec fn keeps(w: WorldV, u: WorldV) -> bool {
    &&& u.wf()
    &&& mass(u) == mass(w)
    &&& w.inside() ==> u.inside()
    &&& u.tick == w.tick
    &&& u.seed == w.seed
    &&& u.size == w.size
    &&& u.terrain.side == w.terrain.side
    &&& same_tables(w, u)
}

proof fn lemma_squares(a: int, b: int)
    requires
        0 <= a <= b,
    ensures
        0 <= a * a <= b * b,
{
    assert(0 <= a * a <= b * b) by (nonlinear_arith)
        requires
            0 <= a <= b,
    ;
}

/// Commands, aging and movement.
pub proof fn lemma_early(w: WorldV, log: Seq<Command>)
    requires
        w.wf(),
        ids_fit(w, log),
    ensures
        ({
            let k = stamped(log, w.tick).len() as int;
            let m = w.ents.len() + k;
            let a = commands_phase(w, log);
            let b = aging_phase(a);
            let c = movement_phase(b);
            &&& keeps(w, a)
            &&& keeps(w, b)
            &&& keeps(w, c)
            &&& a.ents.len() <= m
            &&& b.ents.len() == a.ents.len()
            &&& c.ents.len() == a.ents.len()
            &&& w.next_id <= a.next_id <= w.next_id + k
            &&& b.next_id == a.next_id
            &&& c.next_id == a.next_id
            &&& a.stats == (Stats { births: a.stats.births, ..w.stats })
            &&& b.stats == (Stats {
                deaths: b.stats.deaths,
                starved: b.stats.starved,
                ..a.stats
            })
            &&& c.stats == (Stats {
                grazed: c.stats.grazed,
                hunted: c.stats.hunted,
                fled: c.stats.fled,
                actions: c.stats.actions,
                ..b.stats
            })
            &&& fits(w, log) ==> {
                &&& w.stats.births <= a.stats.births <= w.stats.births + k
                &&& a.stats.deaths <= b.stats.deaths <= a.stats.deaths + m
                &&& a.stats.starved <= b.stats.starved <= a.stats.starved + m
                &&& c.stats.within(b.stats, m)
            }
        }),
{
    reveal(fits);
    let cs = stamped(log, w.tick);
    let k = cs.len() as int;
    let m = w.ents.len() + k;
    lemma_squares(0, m);
    lemma_commanded(w, w.ents, cs, k);
    lemma_commanded_tables(w, w.ents, cs, k);
    let a = commands_phase(w, log);
    lemma_aged(a, a.ents.len() as int);
    lemma_aged_tables(a, a.ents.len() as int);
    let b = aging_phase(a);
    law_movement(b);
    lemma_driven(b, b.ents.len() as int);
}

/// Collisions and feeding.
pub proof fn lemma_lived(w: WorldV, log: Seq<Command>)
    requires
        w.wf(),
        ids_fit(w, log),
    ensures
        ({
            let k = stamped(log, w.tick).len() as int;
            let m = w.ents.len() + k;
            let c = movement_phase(aging_phase(commands_phase(w, log)));
            let d = collisions_phase(c);
            let e = lived(w, log);
            &&& keeps(w, d)
            &&& keeps(w, e)
            &&& d.ents.len() <= m
            &&& d.ents.len() == c.ents.len()
            &&& d.next_id == c.next_id
            &&& d.stats == (Stats { collisions: d.stats.collisions, ..c.stats })
            &&& e.ents.len() <= 2 * m
            &&& w.next_id <= e.next_id <= w.next_id + 2 * m
            &&& fits(w, log) ==> {
                &&& c.stats.collisions <= d.stats.collisions <= c.stats.collisions + m * m
                &&& e.stats.within(w.stats, m * m + 2 * m)
            }
        }),
{
    reveal(fits);
    lemma_early(w, log);
    let k = stamped(log, w.tick).len() as int;
    let m = w.ents.len() + k;
    let c = movement_phase(aging_phase(commands_phase(w, log)));
    let n = c.ents.len() as int;
    lemma_squares(n, m);
    lemma_population_bound(c.ents, c.next_id);
    law_collisions(c);
    lemma_shoved(c, n);
    let d = collisions_phase(c);
    law_feeding(d);
    lemma_feeding_tables(d);
}

/// What one tick keeps. Material is conserved: not a unit of it is created or
/// destroyed. The invariant stays, ids in ascending order included; every body
/// stays inside the square; nothing dead is left; the tables stay what they
/// are; and counters that have room for the tick move by bounded amounts. All
/// that it takes is that the ids do not run out.
pub proof fn law_step(w: WorldV, log: Seq<Command>)
    requires
        w.wf(),
        ids_fit(w, log),
    ensures
        ({
            let u = stepped(w, log);
            let m = w.ents.len() + stamped(log, w.tick).len() as int;
            &&& mass(u) == mass(w)
            &&& u.wf()
            &&& w.inside() ==> u.inside()
            &&& w.tick < u64::MAX ==> u.tick == w.tick + 1
            &&& u.seed == w.seed
            &&& u.size == w.size
            &&& u.terrain.side == w.terrain.side
            &&& same_tables(w, u)
            &&& forall|i: int| 0 <= i < u.ents.len() ==> (#[trigger] u.ents[i]).alive
            &&& u.ents.len() <= 4 * m
            &&& w.next_id <= u.next_id <= w.next_id + 4 * m
            &&& fits(w, log) ==> u.stats.within(w.stats, m * m + 4 * m)
        }),
{
    reveal(fits);
    reveal(stepped);
    law_a_tick_keeps_the_tables(w, log);
    lemma_lived(w, log);
    let m = w.ents.len() + stamped(log, w.tick).len() as int;
    let e = lived(w, log);
    law_flora(e);
    let f = flora_phase(e);
    law_terrain_phase(f);
    let g = terrain_phase(f);
    law_reaping(g);
    let h = reap_phase(g);
    let u = stepped(w, log);
    assert(mass(u) == mass(h));
    assert(u.wf());
}

impl World {
    /// Whether this world can take another tick under `log`: whether its
    /// counters have room for all that one tick can bring.
    pub fn can_step(&self, log: &InputLog) -> (r: bool)
        requires
            log.ready(),
        ensures
            r == fits(self@, log@),
    {
        reveal(fits);
        let now: &[Command] = log.at(self.tick);
        let m: u128 = self.entities.len() as u128 + now.len() as u128;
        if m > 0xFFFF_FFFF {
            return false;
        }
        proof {
            lemma_squares(m as int, 0xFFFF_FFFF);
        }
        let n: u128 = m * m + 4 * m;
        let top: u128 = u64::MAX as u128;
        let s: Stats = self.stats;
        self.tick as u128 + 65536 <= top && self.next_id as u128 + 4 * m <= u32::MAX as u128
            && s.births as u128 + n <= top && s.deaths as u128 + n <= top && s.collisions as u128 + n
            <= top && s.actions as u128 + n <= top && s.feedings as u128 + n <= top
            && s.starved as u128 + n <= top && s.grazed as u128 + n <= top && s.hunted as u128 + n
            <= top && s.fled as u128 + n <= top && s.propagated as u128 + n <= top
            && s.rooted_rejected as u128 + n <= top
    }

    /// Advance the world by one tick, applying the commands of `log` that are
    /// stamped for it.
    pub fn step(&mut self, log: &InputLog)
        requires
            old(self)@.wf(),
            log.ready(),
            fits(old(self)@, log@),
        ensures
            final(self)@ == stepped(old(self)@, log@),
            final(self)@.wf(),
            mass(final(self)@) == mass(old(self)@),
            old(self)@.inside() ==> final(self)@.inside(),
            same_tables(old(self)@, final(self)@),
            final(self).tick == old(self).tick + 1,
    {
        let ghost w = self@;
        proof {
            reveal(fits);
            reveal(stepped);
            law_step(w, log@);
            lemma_early(w, log@);
            lemma_lived(w, log@);
            lemma_squares(0, w.ents.len() + stamped(log@, w.tick).len() as int);
        }
        self.phase_commands(log);
        assert(self@.ents.len() == self.entities@.len());
        self.phase_aging();
        assert(self@.ents.len() == self.entities@.len());
        self.phase_movement();
        assert(self@.ents.len() == self.entities@.len());
        proof {
            lemma_squares(
                self@.ents.len() as int,
                w.ents.len() + stamped(log@, w.tick).len() as int,
            );
        }
        self.phase_collisions();
        assert(self@.ents.len() == self.entities@.len());
        self.phase_feeding();
        assert(self@.ents.len() == self.entities@.len());
        proof {
            law_flora(self@);
        }
        self.phase_flora();
        proof {
            law_terrain_phase(self@);
        }
        self.phase_terrain();
        self.phase_reap();
        self.tick = self.tick + 1;
    }
}

} // verus!
