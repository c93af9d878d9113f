//! Movement: steer, step, jitter, and reflect off the bounds.
use crate::behavior::{drive, drive_of, steer, steered, Drive};
use crate::entity::{action_threshold, spec_action_threshold, EntityV};
use crate::fx::{Fx, V2};
use crate::race::{Kind, Race};
use crate::rand::{draw_signed, rand_signed, Channel};
use crate::spatial::SpatialIndex;
use crate::world::{
    clamped, in_square, jitter, lemma_population_bound, lemma_same_books, mass, same_books,
    spec_jitter, Stats, World, WorldV,
};
use std::ops::Neg;
use vstd::prelude::*;

verus! {

/// Only a living animal moves by itself.
pub open spec fn moves(e: EntityV) -> bool {
    e.alive && e.kind == Kind::Animal
}

/// The drive of body `i` of a world.
#[verifier::opaque]
pub open spec fn drive_in(w: WorldV, i: int) -> (Drive, Option<V2>) {
    drive_of(w.ents, w.terrain, w.ecology, w.behavior, i)
}

/// The heading of body `i` once it has turned toward what it wants.
pub open spec fn turned(w: WorldV, i: int) -> V2 {
    let e = w.ents[i];
    match drive_in(w, i).1 {
        Some(target) => steered(e.heading, target, w.behavior.turn_rate@[e.race().at()]),
        None => e.heading,
    }
}

/// The displacement of body `i` this tick: its step and a little noise.
pub open spec fn displacement(w: WorldV, i: int) -> V2 {
    let e = w.ents[i];
    let step = turned(w, i).spec_scale(w.races[e.race().at()].speed);
    let noise = V2 {
        x: draw_signed(w.seed, w.tick, e.id, Channel::MoveJitter).times(spec_jitter()),
        y: draw_signed(
            w.seed,
            w.tick,
            e.id.wrapping_add(0x9E37),
            Channel::MoveJitter,
        ).times(spec_jitter()),
    };
    step.plus(noise)
}

/// A coordinate and its heading after reflection off `0` and `size`.
pub open spec fn reflected(p: Fx, heading: Fx, size: Fx) -> (Fx, Fx) {
    if p.0 < 0 {
        (p.negated(), heading.negated())
    } else if p.0 > size.0 {
        (size.plus(size).minus(p), heading.negated())
    } else {
        (p, heading)
    }
}

/// Whether body `i`'s displacement counts as an action.
#[verifier::opaque]
pub open spec fn acts(w: WorldV, i: int) -> bool {
    let t = spec_action_threshold();
    displacement(w, i).spec_len_sq().0 > t.times(t).0
}

/// Body `i` after this tick's movement.
#[verifier::opaque]
pub open spec fn moved(w: WorldV, i: int) -> EntityV {
    let e = w.ents[i];
    if !moves(e) {
        e
    } else {
        let p = e.pos.plus(displacement(w, i));
        let h = turned(w, i);
        let (px, hx) = reflected(p.x, h.x, w.size);
        let (py, hy) = reflected(p.y, h.y, w.size);
        EntityV {
            pos: clamped(w.size, V2 { x: px, y: py }),
            heading: V2 { x: hx, y: hy },
            acted: if acts(w, i) {
                true
            } else {
                e.acted
            },
            ..e
        }
    }
}

proof fn lemma_moved_still(w: WorldV, i: int)
    ensures
        !moves(w.ents[i]) ==> moved(w, i) == w.ents[i],
{
    reveal(moved);
}

/// How many of the first `n` bodies move with the given drive.
pub open spec fn driven(w: WorldV, d: Drive, n: int) -> int
    decreases n,
{
    if n <= 0 {
        0
    } else {
        driven(w, d, n - 1) + (if moves(w.ents[n - 1]) && drive_in(w, n - 1).0 == d {
            1
        } else {
            0int
        })
    }
}

/// How many of the first `n` bodies act by moving.
pub open spec fn acting(w: WorldV, n: int) -> int
    decreases n,
{
    if n <= 0 {
        0
    } else {
        acting(w, n - 1) + (if moves(w.ents[n - 1]) && acts(w, n - 1) {
            1
        } else {
            0int
        })
    }
}

/// What the movement phase does to the world. Every drive is read off the
/// positions that the phase began with, so the order of bodies does not
/// matter.
pub open spec fn movement_phase(w: WorldV) -> WorldV {
    let n = w.ents.len() as int;
    WorldV {
        ents: Seq::new(w.ents.len(), |i: int| moved(w, i)),
        stats: Stats {
            grazed: (w.stats.grazed + driven(w, Drive::Graze, n)) as u64,
            hunted: (w.stats.hunted + driven(w, Drive::Hunt, n)) as u64,
            fled: (w.stats.fled + driven(w, Drive::Flee, n)) as u64,
            actions: (w.stats.actions + acting(w, n)) as u64,
            ..w.stats
        },
        ..w
    }
}

pub proof fn lemma_driven(w: WorldV, n: int)
    requires
        0 <= n,
    ensures
        0 <= driven(w, Drive::Graze, n) <= n,
        0 <= driven(w, Drive::Hunt, n) <= n,
        0 <= driven(w, Drive::Flee, n) <= n,
        0 <= acting(w, n) <= n,
    decreases n,
{
    if n > 0 {
        lemma_driven(w, n - 1);
    }
}

/// Movement changes where bodies are and head and nothing else: it keeps the
/// invariant and the books, and leaves every body inside. A plant does not
/// move.
pub proof fn law_movement(w: WorldV)
    requires
        w.wf(),
    ensures
        movement_phase(w).wf(),
        mass(movement_phase(w)) == mass(w),
        w.inside() ==> movement_phase(w).inside(),
        forall|i: int|
            0 <= i < w.ents.len() && (#[trigger] w.ents[i]).kind == Kind::Plant
                ==> movement_phase(w).ents[i] == w.ents[i],
        forall|i: int|
            0 <= i < w.ents.len() ==> (#[trigger] movement_phase(w).ents[i]) == (EntityV {
                pos: movement_phase(w).ents[i].pos,
                heading: movement_phase(w).ents[i].heading,
                acted: movement_phase(w).ents[i].acted,
                ..w.ents[i]
            }),
{
    reveal(moved);
    let u = movement_phase(w);
    assert(same_books(w.ents, u.ents));
    lemma_same_books(w, u);
    if w.inside() {
        assert forall|i: int| 0 <= i < u.ents.len() implies in_square(
            u.size,
            (#[trigger] u.ents[i]).pos,
        ) by {
            assert(in_square(w.size, w.ents[i].pos));
        }
    }
}

/// Reflect a coordinate and its heading.
fn reflect(p: Fx, heading: Fx, size: Fx) -> (r: (Fx, Fx))
    ensures
        r == reflected(p, heading, size),
{
    if p.0 < 0 {
        (p.neg(), heading.neg())
    } else if p.0 > size.0 {
        (size + size - p, heading.neg())
    } else {
        (p, heading)
    }
}

impl World {
    /// Derive every living animal's drive from where bodies are now.
    fn drives(&self) -> (r: Vec<Option<(Drive, Option<V2>)>>)
        requires
            self@.wf(),
        ensures
            r@.len() == self@.ents.len(),
            forall|j: int|
                0 <= j < r@.len() ==> #[trigger] r@[j] == (if moves(self@.ents[j]) {
                    Some(drive_in(self@, j))
                } else {
                    None
                }),
    {
        proof {
            lemma_population_bound(self@.ents, self.next_id);
        }
        let index: SpatialIndex = SpatialIndex::build(&self.entities, &self.terrain);
        let mut r: Vec<Option<(Drive, Option<V2>)>> = Vec::new();
        let mut i: usize = 0;
        while i < self.entities.len()
            invariant
                self@.wf(),
                index.indexes(self@.ents, self.terrain.side as int),
                i <= self.entities@.len(),
                r@.len() == i,
                forall|j: int|
                    0 <= j < i ==> #[trigger] r@[j] == (if moves(self@.ents[j]) {
                        Some(drive_in(self@, j))
                    } else {
                        None
                    }),
            decreases self.entities.len() - i,
        {
            proof {
                reveal(drive_in);
                assert(self@.ents[i as int] == self.entities@[i as int]@);
            }
            if self.entities[i].alive && self.entities[i].kind == Kind::Animal {
                r.push(
                    Some(
                        drive(
                            &self.entities,
                            &self.terrain,
                            &index,
                            &self.ecology,
                            &self.behavior,
                            i,
                        ),
                    ),
                );
            } else {
                r.push(None);
            }
            i = i + 1;
        }
        r
    }

    /// Move body `i`, a living animal with the given wish. `w` is the world
    /// that the phase began with; the result says whether it acted.
    fn move_one(&mut self, i: usize, desired: Option<V2>, Ghost(w): Ghost<WorldV>) -> (acted: bool)
        requires
            i < old(self).entities@.len(),
            i < w.ents.len(),
            old(self).entities@[i as int]@ == w.ents[i as int],
            moves(w.ents[i as int]),
            desired == drive_in(w, i as int).1,
            old(self)@ == (WorldV { ents: old(self)@.ents, ..w }),
        ensures
            final(self)@ == (WorldV {
                ents: old(self)@.ents.update(i as int, moved(w, i as int)),
                ..old(self)@
            }),
            acted == acts(w, i as int),
    {
        let ghost before = self@;
        proof {
            reveal(acts);
            reveal(moved);
            assert(before.ents[i as int] == w.ents[i as int]);
        }
        let race: Race = self.entities[i].race();
        let id: u32 = self.entities[i].id;
        let pos: V2 = self.entities[i].pos;
        let mut heading: V2 = self.entities[i].heading;
        proof {
            crate::race::law_race_positions(race, 0);
            assert(w.races[race.at()] == self.races@[race.at()]@);
        }
        if let Some(target) = desired {
            heading = steer(heading, target, *self.behavior.turn_rate.get(race));
        }
        let step: V2 = heading.scale(self.races.get(race).speed);
        let nx: Fx = rand_signed(self.seed, self.tick, id, Channel::MoveJitter);
        let ny: Fx = rand_signed(
            self.seed,
            self.tick,
            id.wrapping_add(0x9E37),
            Channel::MoveJitter,
        );
        let noise: V2 = V2::new(nx * jitter(), ny * jitter());
        let delta: V2 = step + noise;
        let p: V2 = pos + delta;
        let (px, hx): (Fx, Fx) = reflect(p.x, heading.x, self.size);
        let (py, hy): (Fx, Fx) = reflect(p.y, heading.y, self.size);
        let threshold: Fx = action_threshold();
        let acted: bool = delta.len_sq().0 > (threshold * threshold).0;
        let settled: V2 = self.clamp_to_bounds(V2::new(px, py));
        self.entities[i].pos = settled;
        self.entities[i].heading = V2::new(hx, hy);
        if acted {
            self.entities[i].acted = true;
        }
        proof {
            assert(self.entities@[i as int]@ == moved(w, i as int));
            assert(self@.ents =~= before.ents.update(i as int, moved(w, i as int)));
        }
        acted
    }

    /// Move every living animal.
    pub fn phase_movement(&mut self)
        requires
            old(self)@.wf(),
            old(self).stats.grazed + old(self).entities@.len() <= u64::MAX,
            old(self).stats.hunted + old(self).entities@.len() <= u64::MAX,
            old(self).stats.fled + old(self).entities@.len() <= u64::MAX,
            old(self).stats.actions + old(self).entities@.len() <= u64::MAX,
        ensures
            final(self)@ == movement_phase(old(self)@),
            final(self)@.wf(),
            mass(final(self)@) == mass(old(self)@),
            old(self)@.inside() ==> final(self)@.inside(),
    {
        let ghost w = self@;
        proof {
            law_movement(w);
        }
        let wishes: Vec<Option<(Drive, Option<V2>)>> = self.drives();
        let n: usize = self.entities.len();
        let mut grazed: u64 = 0;
        let mut hunted: u64 = 0;
        let mut fled: u64 = 0;
        let mut actions: u64 = 0;
        let mut i: usize = 0;
        while i < n
            invariant
                i <= n,
                n == w.ents.len(),
                self.entities@.len() == n,
                wishes@.len() == n,
                forall|j: int|
                    0 <= j < n ==> #[trigger] wishes@[j] == (if moves(w.ents[j]) {
                        Some(drive_in(w, j))
                    } else {
                        None
                    }),
                self@ == (WorldV { ents: self@.ents, ..w }),
                forall|j: int|
                    0 <= j < n ==> #[trigger] self@.ents[j] == (if j < i {
                        moved(w, j)
                    } else {
                        w.ents[j]
                    }),
                grazed == driven(w, Drive::Graze, i as int),
                hunted == driven(w, Drive::Hunt, i as int),
                fled == driven(w, Drive::Flee, i as int),
                actions == acting(w, i as int),
            decreases n - i,
        {
            proof {
                lemma_driven(w, i as int);
                assert(self@.ents[i as int] == w.ents[i as int]);
                assert(self.entities@[i as int]@ == self@.ents[i as int]);
            }
            if let Some((d, desired)) = wishes[i] {
                match d {
                    Drive::Graze => {
                        grazed = grazed + 1;
                    },
                    Drive::Hunt => {
                        hunted = hunted + 1;
                    },
                    Drive::Flee => {
                        fled = fled + 1;
                    },
                }
                let acted: bool = self.move_one(i, desired, Ghost(w));
                if acted {
                    actions = actions + 1;
                }
                assert(self@.ents.len() == self.entities@.len());
            }
            proof {
                lemma_moved_still(w, i as int);
            }
            i = i + 1;
        }
        proof {
            lemma_driven(w, n as int);
        }
        self.stats.grazed = self.stats.grazed + grazed;
        self.stats.hunted = self.stats.hunted + hunted;
        self.stats.fled = self.stats.fled + fled;
        self.stats.actions = self.stats.actions + actions;
        proof {
            assert(self@.ents =~= movement_phase(w).ents);
            assert(self@ =~= movement_phase(w));
        }
    }
}

} // verus!
