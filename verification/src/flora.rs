//! Plant reproduction.
use crate::element::Element;
use crate::fx::{Fx, V2};
use crate::race::{Kind, Race, TERRAIN_PERIOD};
use crate::rand::{draw_chance, draw_signed, rand_chance, rand_signed, Channel};
use crate::spatial::{crowd, Occupancy};
use crate::terrain::cell_at;
use crate::world::{
    clamped, law_birth_keeps_the_books, lemma_population_bound, mass, spawned, Stats, World, WorldV,
};
use vstd::prelude::*;

verus! {

/// Whether this tick ends a terrain tick.
pub open spec fn terrain_due(tick: u64) -> bool {
    (tick + 1) % 100 == 0
}

/// Whether body `i` tries to propagate this tick.
pub open spec fn sprouts(w: WorldV, i: int) -> bool {
    let e = w.ents[i];
    let period = w.propagation.period@[e.element.at()];
    &&& e.alive
    &&& e.kind == Kind::Plant
    &&& period != 0
    &&& ((w.tick + 1) / 100) % (period as int) == 0
    &&& draw_chance(
        w.seed,
        w.tick,
        e.id,
        Channel::Propagate,
        w.propagation.chance@[e.element.at()] as u32,
        1000,
    )
}

/// Where an offspring of body `i` lands.
pub open spec fn seedbed(w: WorldV, i: int) -> V2 {
    let e = w.ents[i];
    let far = w.propagation.dispersal@[e.element.at()];
    let d = V2 {
        x: draw_signed(w.seed, w.tick, e.id, Channel::Disperse).times(far),
        y: draw_signed(w.seed, w.tick, e.id.wrapping_add(0x0D15), Channel::Disperse).times(far),
    };
    clamped(w.size, e.pos.plus(d))
}

/// Whether an offspring of body `i` can root where it lands: enough of the
/// habitat element, and not too many of its race there already.
pub open spec fn roots(w: WorldV, i: int) -> bool {
    let e = w.ents[i];
    let c = cell_at(w.terrain.side, seedbed(w, i));
    &&& w.terrain.stock(c, e.element.spec_habitat()) >= w.propagation.root_min@[e.element.at()]
    &&& crowd(w.ents, w.terrain.side, e.race(), c) < w.propagation.crowd_max@[e.element.at()]
}

/// The offspring of the first `n` bodies: race and place.
pub open spec fn offspring(w: WorldV, n: int) -> Seq<(Race, V2)>
    decreases n,
{
    if n <= 0 {
        Seq::empty()
    } else {
        let s = offspring(w, n - 1);
        if sprouts(w, n - 1) && roots(w, n - 1) {
            s.push((w.ents[n - 1].race(), seedbed(w, n - 1)))
        } else {
            s
        }
    }
}

/// How many of the first `n` bodies tried and could not root.
pub open spec fn refused(w: WorldV, n: int) -> int
    decreases n,
{
    if n <= 0 {
        0
    } else {
        refused(w, n - 1) + (if sprouts(w, n - 1) && !roots(w, n - 1) {
            1
        } else {
            0int
        })
    }
}

/// The world after the first `k` offspring have rooted.
pub open spec fn rooted(w: WorldV, kids: Seq<(Race, V2)>, k: int) -> WorldV
    decreases k,
{
    if k <= 0 {
        w
    } else {
        let u = rooted(w, kids, k - 1);
        let (race, pos) = kids[k - 1];
        let v = spawned(u, race, pos, w.propagation.offspring_size@[race.element.at()]);
        WorldV {
            stats: Stats { propagated: (v.stats.propagated + 1) as u64, ..v.stats },
            ..v
        }
    }
}

/// What the flora phase does to the world. Every attempt is decided on the
/// population that the phase began with.
pub open spec fn flora_phase(w: WorldV) -> WorldV {
    let n = w.ents.len() as int;
    if !terrain_due(w.tick) {
        w
    } else {
        let kids = offspring(w, n);
        let u = WorldV {
            stats: Stats {
                rooted_rejected: (w.stats.rooted_rejected + refused(w, n)) as u64,
                ..w.stats
            },
            ..w
        };
        rooted(u, kids, kids.len() as int)
    }
}

pub proof fn lemma_offspring(w: WorldV, n: int)
    requires
        0 <= n,
    ensures
        offspring(w, n).len() + refused(w, n) <= n,
        0 <= refused(w, n),
    decreases n,
{
    if n > 0 {
        lemma_offspring(w, n - 1);
    }
}

proof fn lemma_rooted(w: WorldV, kids: Seq<(Race, V2)>, k: int)
    requires
        w.wf(),
        0 <= k <= kids.len(),
        w.next_id + kids.len() <= u32::MAX,
    ensures
        ({
            let u = rooted(w, kids, k);
            &&& u.wf()
            &&& mass(u) == mass(w)
            &&& w.inside() ==> u.inside()
            &&& u.ents.len() == w.ents.len() + k
            &&& u.next_id == w.next_id + k
            &&& u.stats == (Stats {
                births: u.stats.births,
                propagated: u.stats.propagated,
                ..w.stats
            })
            &&& w.stats.births + kids.len() <= u64::MAX ==> u.stats.births == w.stats.births + k
            &&& w.stats.propagated + kids.len() <= u64::MAX ==> u.stats.propagated
                == w.stats.propagated + k
            &&& u == (WorldV { ents: u.ents, next_id: u.next_id, stats: u.stats, ..w })
        }),
    decreases k,
{
    if k > 0 {
        lemma_rooted(w, kids, k - 1);
        let u = rooted(w, kids, k - 1);
        let (race, pos) = kids[k - 1];
        law_birth_keeps_the_books(
            u,
            race,
            pos,
            w.propagation.offspring_size@[race.element.at()],
        );
    }
}

/// Plant reproduction brings no material, keeps the invariant, and brings at
/// most one birth per body.
pub proof fn law_flora(w: WorldV)
    requires
        w.wf(),
        w.next_id + w.ents.len() <= u32::MAX,
    ensures
        ({
            let u = flora_phase(w);
            &&& u.wf()
            &&& mass(u) == mass(w)
            &&& w.inside() ==> u.inside()
            &&& w.ents.len() <= u.ents.len() <= 2 * w.ents.len()
            &&& w.next_id <= u.next_id <= w.next_id + w.ents.len()
            &&& w.stats.room(w.ents.len() as int) ==> u.stats.within(
                w.stats,
                w.ents.len() as int,
            )
            &&& u.tick == w.tick
            &&& u.seed == w.seed
            &&& u.size == w.size
            &&& u.terrain == w.terrain
        }),
{
    let n = w.ents.len() as int;
    lemma_offspring(w, n);
    if terrain_due(w.tick) {
        let kids = offspring(w, n);
        let u = WorldV {
            stats: Stats {
                rooted_rejected: (w.stats.rooted_rejected + refused(w, n)) as u64,
                ..w.stats
            },
            ..w
        };
        assert(u.wf());
        lemma_rooted(u, kids, kids.len() as int);
    }
}

impl World {
    /// Whether body `i` tries to propagate this tick.
    fn tries_to_sprout(&self, i: usize) -> (r: bool)
        requires
            i < self.entities@.len(),
            self.tick < u64::MAX,
        ensures
            r == sprouts(self@, i as int),
    {
        assert(self@.ents[i as int] == self.entities@[i as int]@);
        if !self.entities[i].alive || self.entities[i].kind != Kind::Plant {
            return false;
        }
        let el: Element = self.entities[i].element;
        let period: u64 = *self.propagation.period.get(el);
        if period == 0 || ((self.tick + 1) / TERRAIN_PERIOD) % period != 0 {
            return false;
        }
        let chance: u32 = *self.propagation.chance.get(el) as u32;
        let id: u32 = self.entities[i].id;
        rand_chance(self.seed, self.tick, id, Channel::Propagate, chance, 1000)
    }

    /// Where an offspring of body `i` lands.
    fn landing(&self, i: usize) -> (r: V2)
        requires
            i < self.entities@.len(),
        ensures
            r == seedbed(self@, i as int),
    {
        assert(self@.ents[i as int] == self.entities@[i as int]@);
        let id: u32 = self.entities[i].id;
        let far: Fx = *self.propagation.dispersal.get(self.entities[i].element);
        let x: Fx = rand_signed(self.seed, self.tick, id, Channel::Disperse);
        let y: Fx = rand_signed(self.seed, self.tick, id.wrapping_add(0x0D15), Channel::Disperse);
        let d: V2 = V2::new(x * far, y * far);
        self.clamp_to_bounds(self.entities[i].pos + d)
    }

    /// Whether an offspring of body `i` can root at `at`.
    fn can_root(&self, i: usize, at: V2, occ: &Occupancy) -> (r: bool)
        requires
            self@.terrain.wf(),
            i < self.entities@.len(),
            at == seedbed(self@, i as int),
            occ.wf(),
            occ.bodies@ == self@.ents,
            occ.side@ == self.terrain.side,
        ensures
            r == roots(self@, i as int),
    {
        assert(self@.ents[i as int] == self.entities@[i as int]@);
        let el: Element = self.entities[i].element;
        let race: Race = self.entities[i].race();
        if self.terrain.stock_at(at, el.habitat()) < *self.propagation.root_min.get(el) {
            return false;
        }
        let cell: u32 = self.terrain.index_at(at) as u32;
        occ.count(race, cell) < *self.propagation.crowd_max.get(el) as u32
    }

    /// Let plants propagate, once per terrain tick.
    pub fn phase_flora(&mut self)
        requires
            old(self)@.wf(),
            old(self).tick < u64::MAX,
            old(self).next_id + old(self).entities@.len() <= u32::MAX,
            old(self).stats.births + old(self).entities@.len() <= u64::MAX,
            old(self).stats.propagated + old(self).entities@.len() <= u64::MAX,
            old(self).stats.rooted_rejected + old(self).entities@.len() <= u64::MAX,
        ensures
            final(self)@ == flora_phase(old(self)@),
            final(self)@.wf(),
            mass(final(self)@) == mass(old(self)@),
            old(self)@.inside() ==> final(self)@.inside(),
    {
        let ghost w = self@;
        proof {
            law_flora(w);
            lemma_population_bound(w.ents, w.next_id);
        }
        if (self.tick + 1) % TERRAIN_PERIOD != 0 {
            return ;
        }
        let occ: Occupancy = Occupancy::build(&self.entities, &self.terrain);
        let n: usize = self.entities.len();
        let mut kids: Vec<(Race, V2)> = Vec::new();
        let mut rejected: u64 = 0;
        let mut i: usize = 0;
        while i < n
            invariant
                i <= n,
                w == self@,
                w.wf(),
                n == self.entities@.len(),
                n == w.ents.len(),
                n <= u32::MAX,
                self.tick < u64::MAX,
                occ.wf(),
                occ.bodies@ == w.ents,
                occ.side@ == self.terrain.side,
                kids@ == offspring(w, i as int),
                rejected == refused(w, i as int),
                rejected <= i,
            decreases n - i,
        {
            assert(w.ents[i as int] == self.entities@[i as int]@);
            if self.tries_to_sprout(i) {
                let at: V2 = self.landing(i);
                if self.can_root(i, at, &occ) {
                    kids.push((self.entities[i].race(), at));
                } else {
                    rejected = rejected + 1;
                }
            }
            i = i + 1;
        }
        proof {
            lemma_offspring(w, n as int);
        }
        self.stats.rooted_rejected = self.stats.rooted_rejected + rejected;
        let ghost u = self@;
        assert(u.wf());
        let mut k: usize = 0;
        while k < kids.len()
            invariant
                k <= kids@.len(),
                u.wf(),
                u.next_id + kids@.len() <= u32::MAX,
                u.stats.births + kids@.len() <= u64::MAX,
                u.stats.propagated + kids@.len() <= u64::MAX,
                self@ == rooted(u, kids@, k as int),
            decreases kids.len() - k,
        {
            proof {
                lemma_rooted(u, kids@, k as int);
                lemma_rooted(u, kids@, k + 1);
            }
            let (race, pos): (Race, V2) = kids[k];
            let size: u16 = *self.propagation.offspring_size.get(race.element);
            self.spawn_sized(race, pos, size);
            self.stats.propagated = self.stats.propagated + 1;
            k = k + 1;
        }
    }
}

} // verus!
