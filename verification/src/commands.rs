//! Applying commands.
use crate::element::Element;
use crate::entity::EntityV;
use crate::fx::V2;
use crate::input::{stamped, CmdKind, Command, InputLog};
use crate::race::{ActionSlot, Race};
use crate::recipes::{
    fired, item_broken, item_made, law_breaking_an_item_conserves, law_firing_conserves,
    law_making_an_item_conserves, lemma_keeps_form_wf, lemma_with_body_form, with_body,
};
use crate::spatial::Occupancy;
use crate::world::{
    body_mass, find_id, law_birth_keeps_the_books, lemma_find_id, lemma_population_bound, mass,
    shaped, spawned, Stats, World, WorldV,
};
use vstd::prelude::*;

verus! {

/// The world after a body has been told to head along `dir`: nothing happens
/// when the direction is too short to have a length.
pub open spec fn headed(w: WorldV, id: u32, dir: V2) -> WorldV {
    match find_id(w.ents, id) {
        None => w,
        Some(i) => if dir.spec_normalized().spec_len_sq().0 == 0 {
            w
        } else {
            with_body(w, i, EntityV { heading: dir.spec_normalized(), ..w.ents[i] })
        },
    }
}

/// The world after a body has lost all its `hp`; it dies when it next ages.
pub open spec fn struck(w: WorldV, id: u32) -> WorldV {
    match find_id(w.ents, id) {
        None => w,
        Some(i) => with_body(w, i, EntityV { hp: 0, ..w.ents[i] }),
    }
}

/// The world after one command. `bodies` is the population that crowding is
/// counted in.
pub open spec fn applied(w: WorldV, bodies: Seq<EntityV>, c: Command) -> WorldV {
    match c.kind {
        CmdKind::Spawn { element, kind, at } => spawned(w, Race { element, kind }, at, 1000),
        CmdKind::SetHeading { dir } => headed(w, c.entity, dir),
        CmdKind::Kill => struck(w, c.entity),
        CmdKind::Mine { element } => fired(w, bodies, c.entity, ActionSlot::Mine, element),
        CmdKind::Smelt { element } => fired(w, bodies, c.entity, ActionSlot::Smelt, element),
        CmdKind::Pickup { element } => fired(w, bodies, c.entity, ActionSlot::Pickup, element),
        CmdKind::MakeItem { element, quantity } => item_made(w, c.entity, element, quantity),
        CmdKind::BreakItem { index } => item_broken(w, c.entity, index),
    }
}

/// The world after the first `k` of the commands `cs`, in order.
pub open spec fn commanded(w: WorldV, bodies: Seq<EntityV>, cs: Seq<Command>, k: int) -> WorldV
    decreases k,
{
    if k <= 0 {
        w
    } else {
        applied(commanded(w, bodies, cs, k - 1), bodies, cs[k - 1])
    }
}

/// One command brings at most one body, and changes no total but births.
pub open spec fn at_most_one_birth(w: WorldV, u: WorldV) -> bool {
    &&& w.next_id <= u.next_id <= w.next_id + 1
    &&& w.ents.len() <= u.ents.len() <= w.ents.len() + 1
    &&& w.stats.births < u64::MAX ==> w.stats.births <= u.stats.births <= w.stats.births + 1
    &&& u.stats == (Stats { births: u.stats.births, ..w.stats })
    &&& u.terrain.side == w.terrain.side
    &&& u.tick == w.tick
    &&& u.seed == w.seed
    &&& u.size == w.size
}

/// No command creates or destroys material, and each keeps the invariant.
pub proof fn law_command_conserves(w: WorldV, bodies: Seq<EntityV>, c: Command)
    requires
        w.wf(),
        w.next_id < u32::MAX,
    ensures
        mass(applied(w, bodies, c)) == mass(w),
        applied(w, bodies, c).wf(),
        w.inside() ==> applied(w, bodies, c).inside(),
        at_most_one_birth(w, applied(w, bodies, c)),
{
    let u = applied(w, bodies, c);
    match c.kind {
        CmdKind::Spawn { element, kind, at } => {
            law_birth_keeps_the_books(w, Race { element, kind }, at, 1000);
        },
        CmdKind::SetHeading { dir } => {
            lemma_find_id(w.ents, c.entity);
            match find_id(w.ents, c.entity) {
                None => {},
                Some(i) => {
                    assert(shaped(w.ents[i]));
                    let e = EntityV { heading: dir.spec_normalized(), ..w.ents[i] };
                    assert(body_mass(e) == body_mass(w.ents[i]));
                    lemma_with_body_form(w, i, e);
                    lemma_keeps_form_wf(w, with_body(w, i, e));
                },
            }
        },
        CmdKind::Kill => {
            lemma_find_id(w.ents, c.entity);
            match find_id(w.ents, c.entity) {
                None => {},
                Some(i) => {
                    assert(shaped(w.ents[i]));
                    let e = EntityV { hp: 0, ..w.ents[i] };
                    assert(body_mass(e) == body_mass(w.ents[i]));
                    lemma_with_body_form(w, i, e);
                    lemma_keeps_form_wf(w, with_body(w, i, e));
                },
            }
        },
        CmdKind::Mine { element } => {
            law_firing_conserves(w, bodies, c.entity, ActionSlot::Mine, element);
        },
        CmdKind::Smelt { element } => {
            law_firing_conserves(w, bodies, c.entity, ActionSlot::Smelt, element);
        },
        CmdKind::Pickup { element } => {
            law_firing_conserves(w, bodies, c.entity, ActionSlot::Pickup, element);
        },
        CmdKind::MakeItem { element, quantity } => {
            law_making_an_item_conserves(w, c.entity, element, quantity);
        },
        CmdKind::BreakItem { index } => {
            law_breaking_an_item_conserves(w, c.entity, index);
        },
    }
}

/// What the commands phase does to the world: every command stamped for this
/// tick, in order, crowding counted as it was when the phase began.
pub open spec fn commands_phase(w: WorldV, log: Seq<Command>) -> WorldV {
    let cs = stamped(log, w.tick);
    commanded(w, w.ents, cs, cs.len() as int)
}

/// What holds after `k` of the commands.
pub proof fn lemma_commanded(w: WorldV, bodies: Seq<EntityV>, cs: Seq<Command>, k: int)
    requires
        w.wf(),
        0 <= k <= cs.len(),
        w.next_id + cs.len() <= u32::MAX,
    ensures
        ({
            let u = commanded(w, bodies, cs, k);
            &&& u.wf()
            &&& mass(u) == mass(w)
            &&& w.inside() ==> u.inside()
            &&& w.next_id <= u.next_id <= w.next_id + k
            &&& w.ents.len() <= u.ents.len() <= w.ents.len() + k
            &&& w.stats.births + cs.len() <= u64::MAX ==> w.stats.births <= u.stats.births
                <= w.stats.births + k
            &&& u.stats == (Stats { births: u.stats.births, ..w.stats })
            &&& u.terrain.side == w.terrain.side
            &&& u.tick == w.tick
            &&& u.seed == w.seed
            &&& u.size == w.size
        }),
    decreases k,
{
    if k > 0 {
        lemma_commanded(w, bodies, cs, k - 1);
        law_command_conserves(commanded(w, bodies, cs, k - 1), bodies, cs[k - 1]);
    }
}

impl World {
    /// Apply one command. `occ` says how crowded the cells are.
    pub fn apply(&mut self, c: Command, occ: &Occupancy)
        requires
            old(self)@.wf(),
            old(self).next_id < u32::MAX,
            old(self).stats.births < u64::MAX,
            old(self).tick + 65535 <= u64::MAX,
            occ.wf(),
            occ.side@ == old(self).terrain.side,
        ensures
            final(self)@ == applied(old(self)@, occ.bodies@, c),
            final(self)@.wf(),
            mass(final(self)@) == mass(old(self)@),
            old(self)@.inside() ==> final(self)@.inside(),
            at_most_one_birth(old(self)@, final(self)@),
    {
        let ghost before = self@;
        proof {
            law_command_conserves(before, occ.bodies@, c);
        }
        match c.kind {
            CmdKind::Spawn { element, kind, at } => {
                self.spawn(Race { element, kind }, at);
            },
            CmdKind::SetHeading { dir } => {
                if let Some(i) = self.find(c.entity) {
                    assert(before.ents[i as int] == self.entities@[i as int]@);
                    let n: V2 = dir.normalized();
                    if !n.len_sq().is_zero() {
                        self.entities[i].heading = n;
                        assert(self@.ents =~= headed(before, c.entity, dir).ents);
                    }
                }
                assert(self@ =~= headed(before, c.entity, dir));
            },
            CmdKind::Kill => {
                if let Some(i) = self.find(c.entity) {
                    assert(before.ents[i as int] == self.entities@[i as int]@);
                    self.entities[i].hp = 0;
                    assert(self@.ents =~= struck(before, c.entity).ents);
                }
                assert(self@ =~= struck(before, c.entity));
            },
            CmdKind::Mine { element } => {
                self.apply_action_recipe(c.entity, ActionSlot::Mine, element, occ);
            },
            CmdKind::Smelt { element } => {
                self.apply_action_recipe(c.entity, ActionSlot::Smelt, element, occ);
            },
            CmdKind::Pickup { element } => {
                self.apply_action_recipe(c.entity, ActionSlot::Pickup, element, occ);
            },
            CmdKind::MakeItem { element, quantity } => {
                self.make_item(c.entity, element, quantity);
            },
            CmdKind::BreakItem { index } => {
                self.break_item(c.entity, index);
            },
        }
    }

    /// Apply every command stamped for this tick, in order.
    pub fn phase_commands(&mut self, log: &InputLog)
        requires
            old(self)@.wf(),
            log.ready(),
            old(self).next_id + stamped(log@, old(self).tick).len() <= u32::MAX,
            old(self).stats.births + stamped(log@, old(self).tick).len() <= u64::MAX,
            old(self).tick + 65535 <= u64::MAX,
        ensures
            final(self)@ == commands_phase(old(self)@, log@),
            final(self)@.wf(),
            mass(final(self)@) == mass(old(self)@),
            old(self)@.inside() ==> final(self)@.inside(),
    {
        let ghost before = self@;
        proof {
            lemma_population_bound(before.ents, before.next_id);
        }
        let occ: Occupancy = Occupancy::build(&self.entities, &self.terrain);
        let cs: &[Command] = log.at(self.tick);
        let mut k: usize = 0;
        proof {
            lemma_commanded(before, before.ents, cs@, 0);
        }
        while k < cs.len()
            invariant
                k <= cs@.len(),
                before.wf(),
                before.next_id + cs@.len() <= u32::MAX,
                before.stats.births + cs@.len() <= u64::MAX,
                before.tick + 65535 <= u64::MAX,
                occ.wf(),
                occ.side@ == before.terrain.side,
                occ.bodies@ == before.ents,
                self@ == commanded(before, before.ents, cs@, k as int),
                self@.wf(),
            decreases cs.len() - k,
        {
            proof {
                lemma_commanded(before, before.ents, cs@, k as int);
            }
            self.apply(cs[k], &occ);
            k = k + 1;
        }
        proof {
            lemma_commanded(before, before.ents, cs@, k as int);
        }
    }

    /// Let one body mine, crowding counted now.
    pub fn mine(&mut self, id: u32, element: Element)
        requires
            old(self)@.wf(),
            old(self).tick + 65535 <= u64::MAX,
        ensures
            final(self)@ == fired(old(self)@, old(self)@.ents, id, ActionSlot::Mine, element),
            final(self)@.wf(),
            mass(final(self)@) == mass(old(self)@),
    {
        proof {
            lemma_population_bound(self@.ents, self.next_id);
        }
        let occ: Occupancy = Occupancy::build(&self.entities, &self.terrain);
        self.apply_action_recipe(id, ActionSlot::Mine, element, &occ);
    }

    /// Let one body smelt, crowding counted now.
    pub fn smelt(&mut self, id: u32, element: Element)
        requires
            old(self)@.wf(),
            old(self).tick + 65535 <= u64::MAX,
        ensures
            final(self)@ == fired(old(self)@, old(self)@.ents, id, ActionSlot::Smelt, element),
            final(self)@.wf(),
            mass(final(self)@) == mass(old(self)@),
    {
        proof {
            lemma_population_bound(self@.ents, self.next_id);
        }
        let occ: Occupancy = Occupancy::build(&self.entities, &self.terrain);
        self.apply_action_recipe(id, ActionSlot::Smelt, element, &occ);
    }
}

} // verus!
