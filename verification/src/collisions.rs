//! Pairwise separation of bodies that overlap.
use crate::entity::EntityV;
use crate::fx::{v2_zero, Fx, V2};
use crate::race::{PerRace, Race, RaceAttrs, RaceAttrsV};
use crate::order::lemma_ascending_len;
use crate::spatial::{
    law_a_ring_leaves_nobody_out, law_a_query_finds_the_ring, lemma_ring_members, ring, spec_radius_cells,
    SpatialIndex,
};
use crate::terrain::cell_xy;
use crate::world::{
    clamped, in_square, lemma_population_bound, lemma_same_books, mass, rows, same_books, Stats,
    World, WorldV,
};
use vstd::prelude::*;

verus! {

/// The collision radius of a body: its race's, scaled by its size.
pub open spec fn radius_of(w: WorldV, e: EntityV) -> Fx {
    w.races[e.race().at()].radius.times(Fx::of_ratio(e.size as int, 1000))
}

/// The largest radius among the first `n` races, and of the first one at least.
pub open spec fn widest(races: Seq<RaceAttrsV>, n: int) -> Fx
    decreases n,
{
    if n <= 1 {
        races[0].radius
    } else {
        let r = widest(races, n - 1);
        if races[n - 1].radius.0 > r.0 {
            races[n - 1].radius
        } else {
            r
        }
    }
}

/// How far bodies `i` and `j` must be apart.
pub open spec fn clearance(w: WorldV, i: int, j: int) -> Fx {
    radius_of(w, w.ents[i]).plus(radius_of(w, w.ents[j]))
}

/// Bodies `i` and `j` overlap without standing on the same spot.
pub open spec fn overlap(w: WorldV, i: int, j: int) -> bool {
    let d = w.ents[j].pos.minus(w.ents[i].pos);
    let min = clearance(w, i, j);
    d.spec_len_sq().0 < min.times(min).0 && d.spec_len_sq().0 != 0
}

/// What pushes body `j` away from body `i`: half of what they overlap by,
/// along the line between them.
pub open spec fn shove(w: WorldV, i: int, j: int) -> V2 {
    let d = w.ents[j].pos.minus(w.ents[i].pos);
    d.spec_normalized().spec_scale(clearance(w, i, j).minus(d.spec_len()).times(Fx(32768)))
}

/// The pushes gathered so far, per body, and how many pairs gave them.
#[verifier::ext_equal]
pub struct Shoves {
    pub fix: Seq<V2>,
    pub count: int,
}

/// The pushes after the pair `i`, `j` has been looked at. Each pair is looked
/// at from its lower number.
#[verifier::opaque]
pub open spec fn shoved_pair(w: WorldV, s: Shoves, i: int, j: int) -> Shoves {
    if j <= i || !w.ents[j].alive || !overlap(w, i, j) {
        s
    } else {
        let f = s.fix.update(i, s.fix[i].minus(shove(w, i, j)));
        Shoves { fix: f.update(j, f[j].plus(shove(w, i, j))), count: s.count + 1 }
    }
}

/// The pushes after body `i` has been paired with the first `k` of `near`.
pub open spec fn shoved_row(w: WorldV, s: Shoves, i: int, near: Seq<u32>, k: int) -> Shoves
    decreases k,
{
    if k <= 0 {
        s
    } else {
        shoved_pair(w, shoved_row(w, s, i, near, k - 1), i, near[k - 1] as int)
    }
}

/// The bodies close enough to body `i` to overlap it.
pub open spec fn close_to(w: WorldV, i: int) -> Seq<u32> {
    let e = w.ents[i];
    let (cx, cy) = cell_xy(w.terrain.side, e.pos);
    ring(
        w.ents,
        w.terrain.side,
        cx,
        cy,
        spec_radius_cells(radius_of(w, e).plus(widest(w.races, 10))),
    )
}

/// The pushes after the first `n` bodies have been paired.
pub open spec fn shoved(w: WorldV, n: int) -> Shoves
    decreases n,
{
    if n <= 0 {
        Shoves { fix: Seq::new(w.ents.len(), |i: int| v2_zero()), count: 0 }
    } else {
        let s = shoved(w, n - 1);
        if w.ents[n - 1].alive {
            let near = close_to(w, n - 1);
            shoved_row(w, s, n - 1, near, near.len() as int)
        } else {
            s
        }
    }
}

/// A body after it has been pushed.
pub open spec fn displaced(e: EntityV, fix: V2, size: Fx) -> EntityV {
    if !e.alive || fix == v2_zero() {
        e
    } else {
        EntityV { pos: clamped(size, e.pos.plus(fix)), ..e }
    }
}

/// What the collisions phase does to the world: all pushes are found first,
/// then applied.
pub open spec fn collisions_phase(w: WorldV) -> WorldV {
    let s = shoved(w, w.ents.len() as int);
    WorldV {
        ents: Seq::new(w.ents.len(), |i: int| displaced(w.ents[i], s.fix[i], w.size)),
        stats: Stats { collisions: (w.stats.collisions + s.count) as u64, ..w.stats },
        ..w
    }
}

proof fn lemma_shoved_pair(w: WorldV, s: Shoves, i: int, j: int)
    requires
        0 <= i < s.fix.len(),
        0 <= j < s.fix.len(),
    ensures
        shoved_pair(w, s, i, j).fix.len() == s.fix.len(),
        s.count <= shoved_pair(w, s, i, j).count <= s.count + 1,
{
    reveal(shoved_pair);
}

proof fn lemma_shoved_row(w: WorldV, s: Shoves, i: int, near: Seq<u32>, k: int)
    requires
        0 <= k <= near.len(),
        0 <= i < s.fix.len(),
        forall|m: int| 0 <= m < near.len() ==> #[trigger] near[m] < s.fix.len(),
    ensures
        shoved_row(w, s, i, near, k).fix.len() == s.fix.len(),
        s.count <= shoved_row(w, s, i, near, k).count <= s.count + k,
    decreases k,
{
    if k > 0 {
        lemma_shoved_row(w, s, i, near, k - 1);
        lemma_shoved_pair(w, shoved_row(w, s, i, near, k - 1), i, near[k - 1] as int);
    }
}

/// The number of pairs is at most the square of the population.
pub proof fn lemma_shoved(w: WorldV, n: int)
    requires
        0 <= n <= w.ents.len() <= u32::MAX,
    ensures
        shoved(w, n).fix.len() == w.ents.len(),
        0 <= shoved(w, n).count <= n * w.ents.len(),
    decreases n,
{
    if n > 0 {
        lemma_shoved(w, n - 1);
        assert(n * w.ents.len() == (n - 1) * w.ents.len() + w.ents.len()) by (nonlinear_arith);
        if w.ents[n - 1].alive {
            let e = w.ents[n - 1];
            let near = close_to(w, n - 1);
            let (cx, cy) = cell_xy(w.terrain.side, e.pos);
            lemma_ring_members(
                w.ents,
                w.terrain.side,
                cx,
                cy,
                spec_radius_cells(radius_of(w, e).plus(widest(w.races, 10))),
            );
            lemma_ascending_len(near, w.ents.len() as int);
            lemma_shoved_row(w, shoved(w, n - 1), n - 1, near, near.len() as int);
        }
    } else {
        assert(0 * w.ents.len() == 0) by (nonlinear_arith);
    }
}

proof fn lemma_widest(races: Seq<RaceAttrsV>, n: int, k: int)
    requires
        0 <= k < n,
    ensures
        races[k].radius.0 <= widest(races, n).0,
    decreases n,
{
    if n > 1 && k < n - 1 {
        lemma_widest(races, n - 1, k);
    }
}

/// A body that is no larger than full size is no wider than its race.
proof fn lemma_radius(w: WorldV, e: EntityV)
    requires
        e.size <= 1000,
        w.races[e.race().at()].radius.0 >= 0,
    ensures
        0 <= radius_of(w, e).0 <= w.races[e.race().at()].radius.0,
{
    let r = w.races[e.race().at()].radius.0 as int;
    let f = Fx::of_ratio(e.size as int, 1000).0 as int;
    assert(0 <= f <= 65536) by {
        assert(f == e.size * 65536 / 1000);
    }
    assert(0 <= r * f / 65536 <= r) by (nonlinear_arith)
        requires
            0 <= r,
            0 <= f <= 65536,
    ;
}

/// No overlap goes unseen: looking at the nearby cells alone finds every pair
/// of living bodies that overlap. Bodies are no larger than full size, radii
/// are not negative, and their square can be held.
pub proof fn law_no_overlap_goes_unseen(w: WorldV, i: int, j: int)
    requires
        w.terrain.side >= 1,
        w.races.len() == 10,
        forall|k: int| 0 <= k < 10 ==> (#[trigger] w.races[k]).radius.0 >= 0,
        0 <= i < w.ents.len() <= u32::MAX,
        0 <= j < w.ents.len(),
        w.ents[j].alive,
        w.ents[i].size <= 1000,
        w.ents[j].size <= 1000,
        clearance(w, i, j).times(clearance(w, i, j)).0 < i32::MAX,
        overlap(w, i, j),
    ensures
        close_to(w, i).contains(j as u32),
{
    let (a, b) = (w.ents[i], w.ents[j]);
    crate::race::law_race_positions(a.race(), 0);
    crate::race::law_race_positions(b.race(), 0);
    assert(w.races[a.race().at()].radius.0 >= 0);
    assert(w.races[b.race().at()].radius.0 >= 0);
    lemma_radius(w, a);
    lemma_radius(w, b);
    lemma_widest(w.races, 10, b.race().at());
    law_a_ring_leaves_nobody_out(
        w.ents,
        w.terrain.side,
        a.pos,
        clearance(w, i, j),
        spec_radius_cells(radius_of(w, a).plus(widest(w.races, 10))),
        j,
    );
}

/// Collisions change only where bodies are: the books and the invariant stay,
/// and every body stays inside.
pub proof fn law_collisions(w: WorldV)
    requires
        w.wf(),
    ensures
        collisions_phase(w).wf(),
        mass(collisions_phase(w)) == mass(w),
        w.inside() ==> collisions_phase(w).inside(),
        forall|i: int|
            0 <= i < w.ents.len() ==> (#[trigger] collisions_phase(w).ents[i]) == (EntityV {
                pos: collisions_phase(w).ents[i].pos,
                ..w.ents[i]
            }),
{
    let u = collisions_phase(w);
    assert(same_books(w.ents, u.ents));
    lemma_same_books(w, u);
    if w.inside() {
        assert forall|i: int| 0 <= i < u.ents.len() implies in_square(
            u.size,
            (#[trigger] u.ents[i]).pos,
        ) by {
            assert(in_square(w.size, w.ents[i].pos));
        }
    }
}

/// The largest radius in a table.
fn max_radius(races: &PerRace<RaceAttrs>) -> (r: Fx)
    ensures
        r == widest(rows(races@), 10),
{
    let mut r: Fx = races.0[0].radius;
    let mut k: usize = 1;
    while k < 10
        invariant
            1 <= k <= 10,
            r == widest(rows(races@), k as int),
        decreases 10 - k,
    {
        assert(rows(races@)[k as int] == races@[k as int]@);
        if races.0[k].radius.0 > r.0 {
            r = races.0[k].radius;
        }
        k = k + 1;
    }
    r
}

impl World {
    fn body_radius(&self, i: usize) -> (r: Fx)
        requires
            i < self.entities@.len(),
        ensures
            r == radius_of(self@, self@.ents[i as int]),
    {
        let race: Race = self.entities[i].race();
        proof {
            crate::race::law_race_positions(race, 0);
            assert(self@.ents[i as int] == self.entities@[i as int]@);
            assert(self@.races[race.at()] == self.races@[race.at()]@);
        }
        self.races.get(race).radius * Fx::ratio(self.entities[i].size as i32, 1000)
    }

    /// Look at the pair `i`, `j`, and gather its push if it overlaps.
    fn shove_pair(&self, fix: &mut Vec<V2>, i: usize, j: usize, radius: Fx, Ghost(s): Ghost<Shoves>) -> (
        hit: bool)
        requires
            i < self.entities@.len(),
            j < self.entities@.len(),
            old(fix)@.len() == self.entities@.len(),
            old(fix)@ == s.fix,
            radius == radius_of(self@, self@.ents[i as int]),
        ensures
            final(fix)@ == shoved_pair(self@, s, i as int, j as int).fix,
            hit == (shoved_pair(self@, s, i as int, j as int).count > s.count),
            shoved_pair(self@, s, i as int, j as int).count == s.count + (if hit {
                1int
            } else {
                0
            }),
    {
        proof {
            reveal(shoved_pair);
            assert(self@.ents[i as int] == self.entities@[i as int]@);
            assert(self@.ents[j as int] == self.entities@[j as int]@);
        }
        if j <= i || !self.entities[j].alive {
            return false;
        }
        let d: V2 = self.entities[j].pos - self.entities[i].pos;
        let min: Fx = radius + self.body_radius(j);
        let dist_sq: Fx = d.len_sq();
        if dist_sq.0 >= (min * min).0 || dist_sq.is_zero() {
            return false;
        }
        let push: V2 = d.normalized().scale((min - d.len()) * Fx::half());
        let a: V2 = fix[i] - push;
        fix[i] = a;
        let b: V2 = fix[j] + push;
        fix[j] = b;
        true
    }

    /// Pair body `i` with the bodies close to it.
    fn shove_row(
        &self,
        index: &SpatialIndex,
        fix: &mut Vec<V2>,
        i: usize,
        widest_radius: Fx,
        Ghost(s): Ghost<Shoves>,
    ) -> (hits: u64)
        requires
            self@.wf(),
            index.indexes(self@.ents, self.terrain.side as int),
            i < self.entities@.len(),
            old(fix)@.len() == self.entities@.len(),
            old(fix)@ == s.fix,
            widest_radius == widest(self@.races, 10),
        ensures
            ({
                let near = close_to(self@, i as int);
                let t = shoved_row(self@, s, i as int, near, near.len() as int);
                final(fix)@ == t.fix && hits == t.count - s.count
            }),
    {
        let ghost w = self@;
        assert(w.ents[i as int] == self.entities@[i as int]@);
        let radius: Fx = self.body_radius(i);
        let (cx, cy): (i32, i32) = self.terrain.cell_of(self.entities[i].pos);
        let r: i32 = SpatialIndex::radius_cells(radius + widest_radius);
        let near: Vec<u32> = index.query_ring(cx, cy, r);
        proof {
            law_a_query_finds_the_ring(
                *index,
                w.ents,
                w.terrain.side,
                cx as int,
                cy as int,
                r as int,
                near@,
            );
            lemma_ring_members(w.ents, w.terrain.side, cx as int, cy as int, r as int);
            lemma_ascending_len(near@, w.ents.len() as int);
        }
        let mut hits: u64 = 0;
        let mut k: usize = 0;
        while k < near.len()
            invariant
                k <= near@.len(),
                w == self@,
                i < self.entities@.len(),
                near@.len() <= u32::MAX,
                near@ == close_to(w, i as int),
                forall|m: int| 0 <= m < near@.len() ==> #[trigger] near@[m] < w.ents.len(),
                fix@.len() == self.entities@.len(),
                radius == radius_of(w, w.ents[i as int]),
                fix@ == shoved_row(w, s, i as int, near@, k as int).fix,
                hits == shoved_row(w, s, i as int, near@, k as int).count - s.count,
                hits <= k,
            decreases near.len() - k,
        {
            let j: usize = near[k] as usize;
            let ghost t = shoved_row(w, s, i as int, near@, k as int);
            proof {
                lemma_shoved_pair(w, t, i as int, j as int);
            }
            if self.shove_pair(fix, i, j, radius, Ghost(t)) {
                hits = hits + 1;
            }
            k = k + 1;
        }
        hits
    }

    /// Push overlapping bodies apart.
    pub fn phase_collisions(&mut self)
        requires
            old(self)@.wf(),
            old(self).stats.collisions + old(self).entities@.len() * old(self).entities@.len()
                <= u64::MAX,
        ensures
            final(self)@ == collisions_phase(old(self)@),
            final(self)@.wf(),
            mass(final(self)@) == mass(old(self)@),
            old(self)@.inside() ==> final(self)@.inside(),
    {
        let ghost w = self@;
        let n: usize = self.entities.len();
        proof {
            law_collisions(w);
            lemma_population_bound(w.ents, w.next_id);
            lemma_shoved(w, n as int);
        }
        let mut fix: Vec<V2> = vec![V2::zero(); n];
        assert(fix@ =~= shoved(w, 0).fix);
        let index: SpatialIndex = SpatialIndex::build(&self.entities, &self.terrain);
        let widest_radius: Fx = max_radius(&self.races);
        let mut hits: u64 = 0;
        let mut i: usize = 0;
        while i < n
            invariant
                i <= n,
                n == w.ents.len(),
                n <= u32::MAX,
                w.wf(),
                self@ == w,
                self.entities@.len() == n,
                index.indexes(w.ents, self.terrain.side as int),
                widest_radius == widest(w.races, 10),
                fix@.len() == n,
                fix@ == shoved(w, i as int).fix,
                hits == shoved(w, i as int).count,
                hits <= i * n,
                n * n <= u64::MAX,
            decreases n - i,
        {
            proof {
                lemma_shoved(w, i as int);
                lemma_shoved(w, i + 1);
                assert((i + 1) * n <= n * n) by (nonlinear_arith)
                    requires
                        i + 1 <= n,
                        0 <= n,
                ;
                assert(w.ents[i as int] == self.entities@[i as int]@);
            }
            if self.entities[i].alive {
                let h: u64 = self.shove_row(
                    &index,
                    &mut fix,
                    i,
                    widest_radius,
                    Ghost(shoved(w, i as int)),
                );
                hits = hits + h;
            }
            i = i + 1;
        }
        let ghost s = shoved(w, n as int);
        let size: Fx = self.size;
        i = 0;
        while i < n
            invariant
                i <= n,
                n == w.ents.len(),
                self.entities@.len() == n,
                fix@.len() == n,
                fix@ == s.fix,
                size == w.size,
                self@ == (WorldV { ents: self@.ents, ..w }),
                forall|j: int|
                    0 <= j < n ==> #[trigger] self@.ents[j] == (if j < i {
                        displaced(w.ents[j], s.fix[j], w.size)
                    } else {
                        w.ents[j]
                    }),
            decreases n - i,
        {
            proof {
                assert(self@.ents[i as int] == w.ents[i as int]);
                assert(self.entities@[i as int]@ == self@.ents[i as int]);
            }
            let ghost before = self@.ents;
            if self.entities[i].alive && fix[i] != V2::zero() {
                let p: V2 = self.entities[i].pos + fix[i];
                let q: V2 = self.clamp_to_bounds(p);
                self.entities[i].pos = q;
            }
            proof {
                let e = displaced(w.ents[i as int], s.fix[i as int], w.size);
                assert(self.entities@[i as int]@ == e);
                assert(self@.ents =~= before.update(i as int, e));
            }
            i = i + 1;
        }
        self.stats.collisions = self.stats.collisions + hits;
        proof {
            assert(self@.ents =~= collisions_phase(w).ents);
            assert(self@ =~= collisions_phase(w));
        }
    }
}

} // verus!
