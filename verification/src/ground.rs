//! The terrain phase, the decay of what lies on the ground, and the removal
//! of the dead.
use crate::ecology::{apply_attrition, apply_suppression, attrited, suppressed};
use crate::element::Element;
use crate::entity::EntityV;
use crate::flora::terrain_due;
use crate::fx::min_int;
use crate::governor::Grant;
use crate::race::{ActionSlot, Kind, Race, TERRAIN_PERIOD};
use crate::recipes::{
    fired, keeps_form, law_firing_conserves, lemma_keeps_form_trans, lemma_same_bodies_form,
    lemma_sum_first,
};
use crate::spatial::Occupancy;
use crate::sums::{lemma_sum_bounds, lemma_sum_update, sum_by};
use crate::terrain::{
    apply_diffusion, deposit_at, deposited, diffused, law_deposit_is_conserved,
    law_diffusion_is_conserved, lemma_deposited_wf,
};
use crate::world::{
    body_masses, ids_ascend, in_square, lemma_mass_parts, lemma_population_bound, lemma_same_books,
    mass, pile_mass, same_books, shaped, GroundItem, World, WorldV,
};
use vstd::prelude::*;

verus! {

/// The world after the first `n` bodies have fired their `Exist` recipes.
pub open spec fn existed(w: WorldV, bodies: Seq<EntityV>, n: int) -> WorldV
    decreases n,
{
    if n <= 0 {
        w
    } else {
        let u = existed(w, bodies, n - 1);
        let e = u.ents[n - 1];
        if e.alive {
            fired(u, bodies, e.id, ActionSlot::Exist, e.element.spec_habitat())
        } else {
            u
        }
    }
}

/// The world after the ground has worn on bodies and brought hunger on.
pub open spec fn weathered(w: WorldV) -> WorldV {
    WorldV {
        ents: Seq::new(
            w.ents.len(),
            |i: int| suppressed(attrited(w.ents[i], w.terrain, w.ecology), w.terrain, w.ecology),
        ),
        ..w
    }
}

/// The world once `remaining` of what lies on the ground from pile `i` on has
/// gone back into it. A pile that is used up is replaced by the last one.
pub open spec fn eroded(w: WorldV, i: int, remaining: int) -> WorldV
    decreases w.ground.len() - i,
{
    if i < 0 || i >= w.ground.len() || remaining <= 0 {
        w
    } else {
        let g = w.ground[i];
        let take = min_int(g.quantity as int, remaining);
        let t = deposited(
            w.terrain,
            Race { element: g.element, kind: Kind::Animal },
            g.element,
            take as u64,
            g.pos,
        );
        if g.quantity == take {
            eroded(
                WorldV {
                    terrain: t,
                    ground: w.ground.update(i, w.ground.last()).drop_last(),
                    ..w
                },
                i,
                remaining - take,
            )
        } else {
            eroded(
                WorldV {
                    terrain: t,
                    ground: w.ground.update(
                        i,
                        GroundItem { quantity: (g.quantity - take) as u64, ..g },
                    ),
                    ..w
                },
                i + 1,
                remaining - take,
            )
        }
    }
}

/// The world after one terrain tick's decay of what lies on the ground: as
/// much as the governor grants goes back into the terrain.
pub open spec fn decayed(w: WorldV) -> WorldV {
    let total = sum_by(w.ground, pile_mass());
    if total == 0 {
        w
    } else {
        eroded(
            WorldV { decay: w.decay.settled(total as u64), ..w },
            0,
            w.decay.payable(total as u64),
        )
    }
}

/// What the terrain phase does to the world, once per terrain tick: existence,
/// attrition, suppression, diffusion, decay.
pub open spec fn terrain_phase(w: WorldV) -> WorldV {
    if !terrain_due(w.tick) {
        w
    } else {
        let a = existed(w, w.ents, w.ents.len() as int);
        let b = weathered(a);
        decayed(WorldV { terrain: diffused(b.terrain, b.terrain_tuning), ..b })
    }
}

/// The world without the dead.
pub open spec fn reap_phase(w: WorldV) -> WorldV {
    WorldV { ents: w.ents.filter(|e: EntityV| e.alive), ..w }
}

pub proof fn lemma_existed(w: WorldV, bodies: Seq<EntityV>, n: int)
    requires
        w.wf(),
        0 <= n <= w.ents.len(),
    ensures
        existed(w, bodies, n).wf(),
        mass(existed(w, bodies, n)) == mass(w),
        keeps_form(w, existed(w, bodies, n)),
        w.inside() ==> existed(w, bodies, n).inside(),
    decreases n,
{
    if n > 0 {
        lemma_existed(w, bodies, n - 1);
        let u = existed(w, bodies, n - 1);
        let e = u.ents[n - 1];
        if e.alive {
            law_firing_conserves(u, bodies, e.id, ActionSlot::Exist, e.element.spec_habitat());
            lemma_keeps_form_trans(w, u, existed(w, bodies, n));
        }
    } else {
        lemma_same_bodies_form(w, w);
    }
}

pub proof fn lemma_weathered(w: WorldV)
    requires
        w.wf(),
    ensures
        weathered(w).wf(),
        mass(weathered(w)) == mass(w),
        w.inside() ==> weathered(w).inside(),
{
    let u = weathered(w);
    assert(same_books(w.ents, u.ents));
    lemma_same_books(w, u);
    if w.inside() {
        assert forall|i: int| 0 <= i < u.ents.len() implies in_square(
            u.size,
            (#[trigger] u.ents[i]).pos,
        ) by {
            assert(in_square(w.size, w.ents[i].pos));
        }
    }
}

/// Decay moves material from the ground's piles into the ground and creates
/// and destroys none.
pub proof fn law_erosion_conserves(w: WorldV, i: int, remaining: int)
    requires
        w.wf(),
        0 <= i,
    ensures
        eroded(w, i, remaining).wf(),
        mass(eroded(w, i, remaining)) == mass(w),
        eroded(w, i, remaining) == (WorldV {
            terrain: eroded(w, i, remaining).terrain,
            ground: eroded(w, i, remaining).ground,
            ..w
        }),
        eroded(w, i, remaining).terrain.side == w.terrain.side,
    decreases w.ground.len() - i,
{
    if i < w.ground.len() && remaining > 0 {
        let g = w.ground[i];
        let take = min_int(g.quantity as int, remaining);
        let r = Race { element: g.element, kind: Kind::Animal };
        let t = deposited(w.terrain, r, g.element, take as u64, g.pos);
        lemma_mass_parts(w);
        lemma_sum_bounds(w.ground, pile_mass());
        assert(pile_mass()(g) <= sum_by(w.ground, pile_mass()));
        law_deposit_is_conserved(w.terrain, r, g.element, take as u64, g.pos);
        lemma_deposited_wf(w.terrain, r, g.element, take as u64, g.pos);
        if g.quantity == take {
            let moved = w.ground.update(i, w.ground.last());
            lemma_sum_update(w.ground, i, w.ground.last(), pile_mass());
            let rest = moved.drop_last();
            assert(moved.last() == w.ground.last());
            let u = WorldV { terrain: t, ground: rest, ..w };
            assert(mass(u) == mass(w));
            law_erosion_conserves(u, i, remaining - take);
        } else {
            let h = GroundItem { quantity: (g.quantity - take) as u64, ..g };
            lemma_sum_update(w.ground, i, h, pile_mass());
            let u = WorldV { terrain: t, ground: w.ground.update(i, h), ..w };
            assert(mass(u) == mass(w));
            law_erosion_conserves(u, i + 1, remaining - take);
        }
    }
}

pub proof fn lemma_decayed(w: WorldV)
    requires
        w.wf(),
    ensures
        decayed(w).wf(),
        mass(decayed(w)) == mass(w),
        decayed(w) == (WorldV {
            terrain: decayed(w).terrain,
            ground: decayed(w).ground,
            decay: decayed(w).decay,
            ..w
        }),
        decayed(w).terrain.side == w.terrain.side,
{
    let total = sum_by(w.ground, pile_mass());
    lemma_mass_parts(w);
    if total != 0 {
        crate::governor::law_settle_keeps_wf(w.decay, seq![total as u64]);
        reveal_with_fuel(crate::governor::settled_all, 2);
        assert(seq![total as u64].drop_last() =~= Seq::<u64>::empty());
        let u = WorldV { decay: w.decay.settled(total as u64), ..w };
        assert(u.decay.wf());
        law_erosion_conserves(u, 0, w.decay.payable(total as u64));
    }
}

/// What lies on the ground from pile `i` on.
spec fn lying_from(w: WorldV, i: int) -> int {
    sum_by(w.ground.skip(i), pile_mass())
}

proof fn lemma_eroded_amount(w: WorldV, i: int, remaining: int)
    requires
        0 <= i <= w.ground.len(),
        0 <= remaining,
    ensures
        sum_by(eroded(w, i, remaining).ground, pile_mass()) == sum_by(w.ground, pile_mass())
            - min_int(remaining, lying_from(w, i)),
        0 <= lying_from(w, i),
    decreases w.ground.len() - i,
{
    let rest = w.ground.skip(i);
    assert forall|k: int| 0 <= k < rest.len() implies pile_mass()(#[trigger] rest[k]) >= 0 by {}
    lemma_sum_bounds(rest, pile_mass());
    if i < w.ground.len() && remaining > 0 {
        let g = w.ground[i];
        let take = min_int(g.quantity as int, remaining);
        let r = Race { element: g.element, kind: Kind::Animal };
        let t = deposited(w.terrain, r, g.element, take as u64, g.pos);
        lemma_sum_first(rest, pile_mass());
        assert(rest.skip(1) =~= w.ground.skip(i + 1));
        if g.quantity == take {
            let last = w.ground.last();
            let moved = w.ground.update(i, last);
            lemma_sum_update(w.ground, i, last, pile_mass());
            let u = WorldV { terrain: t, ground: moved.drop_last(), ..w };
            assert(moved.last() == last);
            lemma_eroded_amount(u, i, remaining - take);
            lemma_sum_update(rest, 0, last, pile_mass());
            assert(u.ground.skip(i) =~= rest.update(0, last).drop_last());
            assert(rest.update(0, last).last() == last);
        } else {
            let h = GroundItem { quantity: (g.quantity - take) as u64, ..g };
            lemma_sum_update(w.ground, i, h, pile_mass());
            let u = WorldV { terrain: t, ground: w.ground.update(i, h), ..w };
            lemma_eroded_amount(u, i + 1, remaining - take);
            assert(u.ground.skip(i + 1) =~= w.ground.skip(i + 1));
        }
    } else {
        if i == w.ground.len() {
            assert(rest =~= Seq::<GroundItem>::empty());
        }
    }
}

/// One terrain tick returns to the ground exactly what the governor grants of
/// what lies there, and so never more than the ceiling of its band.
pub proof fn law_decay_is_within_the_band(w: WorldV)
    requires
        w.wf(),
    ensures
        ({
            let total = sum_by(w.ground, pile_mass());
            let left = sum_by(decayed(w).ground, pile_mass());
            &&& total - left == w.decay.payable(total as u64)
            &&& total - left <= w.decay.band.ceiling
        }),
{
    let total = sum_by(w.ground, pile_mass());
    lemma_mass_parts(w);
    assert(w.ground.skip(0) =~= w.ground);
    if total != 0 {
        let u = WorldV { decay: w.decay.settled(total as u64), ..w };
        lemma_eroded_amount(u, 0, w.decay.payable(total as u64));
    }
}

/// The terrain phase conserves material and keeps the invariant.
pub proof fn law_terrain_phase(w: WorldV)
    requires
        w.wf(),
    ensures
        ({
            let u = terrain_phase(w);
            &&& u.wf()
            &&& mass(u) == mass(w)
            &&& w.inside() ==> u.inside()
            &&& u.ents.len() == w.ents.len()
            &&& u.next_id == w.next_id
            &&& u.stats == w.stats
            &&& u.tick == w.tick
            &&& u.seed == w.seed
            &&& u.size == w.size
            &&& u.terrain.side == w.terrain.side
        }),
{
    if terrain_due(w.tick) {
        let n = w.ents.len() as int;
        lemma_existed(w, w.ents, n);
        let a = existed(w, w.ents, n);
        lemma_weathered(a);
        let b = weathered(a);
        law_diffusion_is_conserved(b.terrain, b.terrain_tuning, 0);
        let c = WorldV { terrain: diffused(b.terrain, b.terrain_tuning), ..b };
        assert(mass(c) == mass(b));
        assert(c.wf());
        lemma_decayed(c);
    }
}

/// Removing the dead keeps the order of ids, the invariant and the books, for
/// a dead body has nothing left.
pub proof fn law_reaping(w: WorldV)
    requires
        w.wf(),
    ensures
        reap_phase(w).wf(),
        mass(reap_phase(w)) == mass(w),
        w.inside() ==> reap_phase(w).inside(),
        reap_phase(w).ents.len() <= w.ents.len(),
        forall|i: int| 0 <= i < reap_phase(w).ents.len() ==> (#[trigger] reap_phase(w).ents[i]).alive,
{
    lemma_filter_alive(w.ents, w.next_id);
    let u = reap_phase(w);
    let t = u.ents;
    let f = |e: EntityV| e.alive;
    assert forall|i: int| 0 <= i < t.len() implies shaped(#[trigger] t[i]) && t[i].age < u64::MAX
        && t[i].alive && t[i].id < w.next_id && (w.inside() ==> in_square(w.size, t[i].pos)) by {
        w.ents.lemma_filter_pred(f, i);
        assert(w.ents.contains(t[i])) by {
            lemma_filter_member(w.ents, f, i);
        }
        let j = w.ents.index_of(t[i]);
        assert(w.ents[j] == t[i]);
        assert(shaped(w.ents[j]));
    }
    assert(mass(u) == mass(w));
}

pub proof fn lemma_filter_member<A>(s: Seq<A>, f: spec_fn(A) -> bool, i: int)
    requires
        0 <= i < s.filter(f).len(),
    ensures
        s.contains(s.filter(f)[i]),
    decreases s.len(),
{
    reveal(Seq::filter);
    if s.len() > 0 {
        let p = s.drop_last();
        if i < p.filter(f).len() {
            lemma_filter_member(p, f, i);
            let j = p.index_of(p.filter(f)[i]);
            assert(s[j] == p.filter(f)[i]);
        } else {
            assert(s[s.len() - 1] == s.filter(f)[i]);
        }
    }
}

proof fn lemma_filter_alive(s: Seq<EntityV>, next_id: u32)
    requires
        ids_ascend(s, next_id),
    ensures
        ({
            let t = s.filter(|e: EntityV| e.alive);
            &&& t.len() <= s.len()
            &&& ids_ascend(t, next_id)
            &&& sum_by(t, body_masses()) == sum_by(s, body_masses())
            &&& s.len() > 0 && t.len() > 0 ==> t.last().id <= s.last().id
        }),
    decreases s.len(),
{
    reveal(Seq::filter);
    let f = |e: EntityV| e.alive;
    let t = s.filter(f);
    if s.len() > 0 {
        let p = s.drop_last();
        assert forall|i: int, j: int| 0 <= i < j < p.len() implies (#[trigger] p[i]).id < (
        #[trigger] p[j]).id by {
            assert(p[i] == s[i] && p[j] == s[j]);
        }
        assert forall|i: int| 0 <= i < p.len() implies (#[trigger] p[i]).id < next_id by {
            assert(p[i] == s[i]);
        }
        lemma_filter_alive(p, next_id);
        let q = p.filter(f);
        let x = s.last();
        if p.len() > 0 {
            assert(s[p.len() - 1].id < s[s.len() - 1].id);
        }
        if x.alive {
            assert(t =~= q.push(x));
            crate::sums::lemma_sum_push(q, x, body_masses());
            assert(s[s.len() - 1].id < next_id);
            assert forall|i: int, j: int| 0 <= i < j < t.len() implies (#[trigger] t[i]).id < (
            #[trigger] t[j]).id by {
                assert(t[i] == q[i]);
                if j < q.len() {
                    assert(t[j] == q[j]);
                } else {
                    if i < q.len() - 1 {
                        assert(q[i].id < q[q.len() - 1].id);
                    }
                    assert(q.last().id <= p.last().id);
                }
            }
            assert forall|i: int| 0 <= i < t.len() implies (#[trigger] t[i]).id < next_id by {
                if i < q.len() {
                    assert(t[i] == q[i]);
                }
            }
        } else {
            assert(t =~= q);
        }
    } else {
        assert(t =~= s);
    }
}

impl World {
    /// Fire the `Exist` recipe of every living body.
    fn fire_existence(&mut self)
        requires
            old(self)@.wf(),
            old(self).tick + 65535 <= u64::MAX,
        ensures
            final(self)@ == existed(old(self)@, old(self)@.ents, old(self)@.ents.len() as int),
    {
        let ghost w = self@;
        proof {
            lemma_population_bound(w.ents, w.next_id);
        }
        let occ: Occupancy = Occupancy::build(&self.entities, &self.terrain);
        let n: usize = self.entities.len();
        let mut i: usize = 0;
        while i < n
            invariant
                i <= n,
                n == w.ents.len(),
                w.wf(),
                w.tick + 65535 <= u64::MAX,
                occ.wf(),
                occ.bodies@ == w.ents,
                occ.side@ == w.terrain.side,
                self@ == existed(w, w.ents, i as int),
            decreases n - i,
        {
            proof {
                lemma_existed(w, w.ents, i as int);
                assert(self@.ents.len() == self.entities@.len());
                assert(self@.ents[i as int] == self.entities@[i as int]@);
            }
            if self.entities[i].alive {
                let id: u32 = self.entities[i].id;
                let habitat: Element = self.entities[i].element.habitat();
                self.apply_action_recipe(id, ActionSlot::Exist, habitat, &occ);
            }
            i = i + 1;
        }
    }

    /// Let the ground wear on bodies and bring hunger on.
    fn weather(&mut self)
        requires
            old(self)@.wf(),
        ensures
            final(self)@ == weathered(old(self)@),
    {
        let ghost w = self@;
        apply_attrition(&mut self.entities, &self.terrain, &self.ecology);
        let ghost mid = self@.ents;
        assert(mid =~= Seq::new(
            w.ents.len(),
            |i: int| attrited(w.ents[i], w.terrain, w.ecology),
        ));
        apply_suppression(&mut self.entities, &self.terrain, &self.ecology);
        assert(self@.ents =~= weathered(w).ents);
    }

    /// Run the terrain operators, once per terrain tick.
    pub fn phase_terrain(&mut self)
        requires
            old(self)@.wf(),
            old(self).tick + 65535 <= u64::MAX,
        ensures
            final(self)@ == terrain_phase(old(self)@),
            final(self)@.wf(),
            mass(final(self)@) == mass(old(self)@),
            old(self)@.inside() ==> final(self)@.inside(),
    {
        let ghost w = self@;
        proof {
            law_terrain_phase(w);
        }
        if (self.tick + 1) % TERRAIN_PERIOD != 0 {
            return ;
        }
        proof {
            lemma_existed(w, w.ents, w.ents.len() as int);
        }
        self.fire_existence();
        let ghost a = self@;
        proof {
            lemma_weathered(a);
        }
        self.weather();
        let ghost b = self@;
        apply_diffusion(&mut self.terrain, &self.terrain_tuning);
        let ghost c = self@;
        proof {
            law_diffusion_is_conserved(b.terrain, b.terrain_tuning, 0);
            assert(c =~= WorldV { terrain: diffused(b.terrain, b.terrain_tuning), ..b });
            assert(mass(c) == mass(b));
            assert(c.wf());
        }
        self.decay_ground_items();
    }

    /// How much lies on the ground in all.
    fn ground_total(&self) -> (r: u64)
        requires
            sum_by(self@.ground, pile_mass()) <= u64::MAX,
        ensures
            r == sum_by(self@.ground, pile_mass()),
    {
        let ghost g = self.ground_items@;
        let mut total: u64 = 0;
        let mut i: usize = 0;
        while i < self.ground_items.len()
            invariant
                g == self.ground_items@,
                i <= g.len(),
                sum_by(g, pile_mass()) <= u64::MAX,
                total == sum_by(g.take(i as int), pile_mass()),
            decreases self.ground_items.len() - i,
        {
            proof {
                assert(g.take(i + 1).drop_last() =~= g.take(i as int));
                crate::sums::lemma_sum_prefix(g, i + 1, pile_mass());
            }
            total = total + self.ground_items[i].quantity;
            i = i + 1;
        }
        assert(g.take(i as int) =~= g);
        total
    }

    /// Return what lies on the ground to it, at a bounded rate.
    pub fn decay_ground_items(&mut self)
        requires
            old(self)@.wf(),
        ensures
            final(self)@ == decayed(old(self)@),
            final(self)@.wf(),
            mass(final(self)@) == mass(old(self)@),
    {
        let ghost w = self@;
        proof {
            lemma_mass_parts(w);
            lemma_decayed(w);
        }
        let total: u64 = self.ground_total();
        if total == 0 {
            return ;
        }
        let grant: Grant = self.ground_decay_gov.settle(total);
        let mut remaining: u64 = grant.granted;
        let mut i: usize = 0;
        let ghost want = decayed(w);
        assert(self@.wf());
        while i < self.ground_items.len() && remaining > 0
            invariant
                self@.wf(),
                i <= self.ground_items@.len(),
                eroded(self@, i as int, remaining as int) == want,
            decreases self.ground_items.len() - i,
        {
            let ghost before = self@;
            proof {
                law_erosion_conserves(before, i as int, remaining as int);
            }
            let g: GroundItem = self.ground_items[i];
            let take: u64 = if g.quantity < remaining {
                g.quantity
            } else {
                remaining
            };
            let race: Race = Race { element: g.element, kind: Kind::Animal };
            proof {
                lemma_erosion_step(before, i as int, remaining as int);
            }
            deposit_at(&mut self.terrain, race, g.element, take, g.pos);
            remaining = remaining - take;
            if g.quantity == take {
                self.ground_items.swap_remove(i);
                assert(self@.ground =~= before.ground.update(
                    i as int,
                    before.ground.last(),
                ).drop_last());
            } else {
                self.ground_items[i] = GroundItem {
                    element: g.element,
                    quantity: g.quantity - take,
                    pos: g.pos,
                };
                i = i + 1;
            }
        }
    }

    /// Remove the dead.
    pub fn phase_reap(&mut self)
        requires
            old(self)@.wf(),
        ensures
            final(self)@ == reap_phase(old(self)@),
            final(self)@.wf(),
            mass(final(self)@) == mass(old(self)@),
            old(self)@.inside() ==> final(self)@.inside(),
    {
        let ghost w = self@;
        let ghost f = |e: EntityV| e.alive;
        proof {
            law_reaping(w);
        }
        let mut i: usize = 0;
        assert(w.ents.skip(0) =~= w.ents);
        while i < self.entities.len()
            invariant
                i <= self.entities@.len(),
                f == (|e: EntityV| e.alive),
                self@ == (WorldV { ents: self@.ents, ..w }),
                self@.ents.filter(f) == w.ents.filter(f),
                forall|j: int| 0 <= j < i ==> (#[trigger] self@.ents[j]).alive,
            decreases self.entities.len() - i,
        {
            let ghost s = self@.ents;
            assert(s[i as int] == self.entities@[i as int]@);
            if self.entities[i].alive {
                i = i + 1;
            } else {
                self.entities.remove(i);
                proof {
                    assert(self@.ents =~= s.remove(i as int));
                    lemma_filter_remove(s, i as int, f);
                    assert forall|j: int| 0 <= j < i implies (#[trigger] self@.ents[j]).alive by {
                        assert(self@.ents[j] == s[j]);
                    }
                }
            }
        }
        proof {
            assert(self@.ents.len() == self.entities@.len());
            lemma_filter_all(self@.ents, f);
        }
    }
}

/// One pile's decay keeps the invariant.
proof fn lemma_erosion_step(w: WorldV, i: int, remaining: int)
    requires
        w.wf(),
        0 <= i < w.ground.len(),
        remaining > 0,
    ensures
        ({
            let g = w.ground[i];
            let take = min_int(g.quantity as int, remaining);
            let t = deposited(
                w.terrain,
                Race { element: g.element, kind: Kind::Animal },
                g.element,
                take as u64,
                g.pos,
            );
            let a = WorldV {
                terrain: t,
                ground: w.ground.update(i, w.ground.last()).drop_last(),
                ..w
            };
            let b = WorldV {
                terrain: t,
                ground: w.ground.update(
                    i,
                    GroundItem { quantity: (g.quantity - take) as u64, ..g },
                ),
                ..w
            };
            &&& g.quantity == take ==> a.wf()
            &&& g.quantity != take ==> b.wf()
        }),
{
    let g = w.ground[i];
    let take = min_int(g.quantity as int, remaining);
    let r = Race { element: g.element, kind: Kind::Animal };
    lemma_mass_parts(w);
    lemma_sum_bounds(w.ground, pile_mass());
    assert(pile_mass()(g) <= sum_by(w.ground, pile_mass()));
    law_deposit_is_conserved(w.terrain, r, g.element, take as u64, g.pos);
    lemma_deposited_wf(w.terrain, r, g.element, take as u64, g.pos);
    let moved = w.ground.update(i, w.ground.last());
    lemma_sum_update(w.ground, i, w.ground.last(), pile_mass());
    assert(moved.last() == w.ground.last());
    let h = GroundItem { quantity: (g.quantity - take) as u64, ..g };
    lemma_sum_update(w.ground, i, h, pile_mass());
}

proof fn lemma_filter_remove<A>(s: Seq<A>, i: int, f: spec_fn(A) -> bool)
    requires
        0 <= i < s.len(),
        !f(s[i]),
    ensures
        s.remove(i).filter(f) == s.filter(f),
    decreases s.len(),
{
    reveal(Seq::filter);
    let p = s.drop_last();
    if i == s.len() - 1 {
        assert(s.remove(i) =~= p);
    } else {
        lemma_filter_remove(p, i, f);
        assert(s.remove(i).drop_last() =~= p.remove(i));
        assert(s.remove(i).last() == s.last());
    }
}

proof fn lemma_filter_all<A>(s: Seq<A>, f: spec_fn(A) -> bool)
    requires
        forall|i: int| 0 <= i < s.len() ==> f(#[trigger] s[i]),
    ensures
        s.filter(f) == s,
    decreases s.len(),
{
    reveal(Seq::filter);
    if s.len() > 0 {
        let p = s.drop_last();
        assert forall|i: int| 0 <= i < p.len() implies f(#[trigger] p[i]) by {
            assert(p[i] == s[i]);
        }
        lemma_filter_all(p, f);
        assert(f(s[s.len() - 1]));
        assert(s =~= p.push(s.last()));
    }
}

} // verus!
