//! Where the young come up.
//!
//! A seedling stands no farther from its parent than seeds of its element are
//! carried, on ground that holds enough of what it lives on, and where its
//! kind is not yet too many.
use crate::element::Element;
use crate::entity::EntityV;
use crate::flora::{
    flora_phase, lemma_offspring, offspring, refused, rooted, roots, seedbed, sprouts, terrain_due,
};
use crate::fx::{abs_int, Fx, V2};
use crate::hunting::{lemma_under, under};
use crate::race::{Kind, Race};
use crate::rand::{draw_chance, draw_signed, law_draw_below_bound, Channel};
use crate::spatial::crowd;
use crate::world::{in_square, spawned, Stats, WorldV};
use vstd::prelude::*;

verus! {

// ----------------------------------------------------------------------
// Chance, scatter and crowds.
// ----------------------------------------------------------------------

/// A chance of none never comes up, and one of the whole always does.
pub proof fn law_sure_chances(seed: u64, tick: u64, id: u32, ch: Channel, num: u32, den: u32)
    requires
        den > 0,
    ensures
        num == 0 ==> !draw_chance(seed, tick, id, ch, num, den),
        num >= den ==> draw_chance(seed, tick, id, ch, num, den),
{
    law_draw_below_bound(seed, tick, id, ch, den);
}

/// From `from` to `to` is the share of `reach` that the draw is of one, rounded
/// down, unless that leaves the square: then `to` is at its edge. All are raw
/// values.
pub open spec fn thrown(from: int, to: int, draw: int, reach: int, size: int) -> bool {
    &&& 0 <= to <= size
    &&& 0 < to < size ==> 65536 * (to - from) <= draw * reach < 65536 * (to - from + 1)
    &&& to == 0 && 0 < size ==> 65536 * from + draw * reach < 65536
    &&& to == size ==> 65536 * from + draw * reach >= 65536 * size || size == 0
}

/// What is scattered from inside a square by a share of `reach` and put back
/// inside it lies within `reach` of where it was.
pub(crate) proof fn lemma_scattered(p: Fx, d: Fx, reach: Fx, size: Fx)
    requires
        0 <= p.0 <= size.0,
        -65536 <= d.0 <= 65536,
    ensures
        ({
            let q = p.plus(d.times(reach)).spec_clamp(Fx(0), size);
            &&& 0 <= q.0 <= size.0
            &&& abs_int(q.0 - p.0) <= abs_int(reach.0 as int)
            &&& thrown(p.0 as int, q.0 as int, d.0 as int, reach.0 as int, size.0 as int)
        }),
{
    let (a, b) = (d.0 as int, reach.0 as int);
    let k = a * b;
    assert(-65536 * abs_int(b) <= k <= 65536 * abs_int(b)) by (nonlinear_arith)
        requires
            k == a * b,
            -65536 <= a <= 65536,
    ;
    assert(-abs_int(b) <= k / 65536 <= abs_int(b));
}

/// A living body of an element and a kind in a cell.
pub open spec fn in_cell(side: int, el: Element, kind: Kind, c: int) -> spec_fn(EntityV) -> bool {
    |e: EntityV| e.alive && e.element == el && e.kind == kind && under(side, e.pos) == c
}

/// A crowd is the number of living bodies of a race in a cell.
pub proof fn law_a_crowd_is_a_count(ents: Seq<EntityV>, side: int, r: Race, c: int)
    requires
        1 <= side,
        forall|m: int|
            0 <= m < ents.len() ==> (#[trigger] ents[m]).pos.x.0 >= 0 && ents[m].pos.y.0 >= 0,
    ensures
        crowd(ents, side, r, c) == ents.filter(in_cell(side, r.element, r.kind, c)).len(),
    decreases ents.len(),
{
    reveal(Seq::filter);
    if ents.len() > 0 {
        let p = ents.drop_last();
        assert forall|m: int| 0 <= m < p.len() implies (#[trigger] p[m]).pos.x.0 >= 0
            && p[m].pos.y.0 >= 0 by {
            assert(p[m] == ents[m]);
        }
        law_a_crowd_is_a_count(p, side, r, c);
        let e = ents[ents.len() - 1];
        lemma_under(side, e.pos);
    }
}

// ----------------------------------------------------------------------
// Births.
// ----------------------------------------------------------------------

/// A newborn: of its element, on its spot or the nearest one inside, alive and
/// at half strength, of the given size, with nothing behind it and nothing on
/// it.
pub open spec fn is_newborn(w: WorldV, o: EntityV, el: Element, at: V2, size: u16) -> bool {
    &&& o.alive
    &&& o.element == el
    &&& in_square(w.size, at) ==> o.pos == at
    &&& o.age == 0
    &&& o.hp == 50
    &&& o.hunger == 0
    &&& o.size == size
    &&& o.material == 0
    &&& o.carried == seq![0u64, 0, 0, 0, 0]
    &&& o.items.len() == 0
    &&& o.action_ready_at == seq![0u64, 0, 0, 0, 0]
}

/// A birth adds one body behind all others, with the next id, and counts.
pub proof fn law_a_birth_adds_a_newborn(w: WorldV, race: Race, at: V2, size: u16)
    requires
        w.size.0 >= 0,
        w.next_id < u32::MAX,
    ensures
        ({
            let u = spawned(w, race, at, size);
            let o = u.ents.last();
            &&& u.ents.len() == w.ents.len() + 1
            &&& u.ents.drop_last() == w.ents
            &&& o.id == w.next_id
            &&& u.next_id == w.next_id + 1
            &&& w.stats.births < u64::MAX ==> u.stats.births == w.stats.births + 1
            &&& is_newborn(w, o, race.element, at, size)
            &&& o.kind == w.races[race.at()].kind
            &&& in_square(w.size, o.pos)
        }),
{
    let u = spawned(w, race, at, size);
    let o = u.ents.last();
    assert(u.ents.drop_last() =~= w.ents);
    assert(o.carried =~= seq![0u64, 0, 0, 0, 0]);
    assert(o.action_ready_at =~= seq![0u64, 0, 0, 0, 0]);
}

// ----------------------------------------------------------------------
// Seedlings.
// ----------------------------------------------------------------------

/// Whether plants of an element try to spread at the end of this tick: the
/// tick ends a terrain tick, and that one is a multiple of their period.
pub open spec fn season_for(w: WorldV, el: Element) -> bool {
    let period = w.propagation.period@[el.at()] as int;
    (w.tick + 1) % 100 == 0 && period != 0 && ((w.tick + 1) / 100) % period == 0
}

/// `o` may have come up from body `i`: a living plant of its element in its
/// season, off along either axis by the share of how far seeds of the element are
/// carried that the parent drew for it.
pub open spec fn springs_from(w: WorldV, o: EntityV, i: int) -> bool {
    let p = w.ents[i];
    let reach = abs_int(w.propagation.dispersal@[p.element.at()].0 as int);
    &&& 0 <= i < w.ents.len()
    &&& p.alive
    &&& p.kind == Kind::Plant
    &&& season_for(w, p.element)
    &&& o.element == p.element
    &&& o.kind == w.races[p.element.at() * 2].kind
    &&& abs_int(o.pos.x.0 - p.pos.x.0) <= reach
    &&& abs_int(o.pos.y.0 - p.pos.y.0) <= reach
    &&& thrown(
        p.pos.x.0 as int,
        o.pos.x.0 as int,
        draw_signed(w.seed, w.tick, p.id, Channel::Disperse).0 as int,
        w.propagation.dispersal@[p.element.at()].0 as int,
        w.size.0 as int,
    )
    &&& thrown(
        p.pos.y.0 as int,
        o.pos.y.0 as int,
        draw_signed(w.seed, w.tick, p.id.wrapping_add(0x0D15), Channel::Disperse).0 as int,
        w.propagation.dispersal@[p.element.at()].0 as int,
        w.size.0 as int,
    )
}

/// The ground at `at` takes a seedling: it holds enough of the element before
/// its own on the ring, and not too many of its plants stand there.
pub open spec fn takes_root(w: WorldV, el: Element, at: V2) -> bool {
    let c = under(w.terrain.side, at);
    &&& w.terrain.cells[c][(el.at() + 4) % 5] >= w.propagation.root_min@[el.at()]
    &&& w.ents.filter(in_cell(w.terrain.side, el, Kind::Plant, c)).len()
        < w.propagation.crowd_max@[el.at()]
}

proof fn lemma_seedbed(w: WorldV, i: int)
    requires
        0 <= i < w.ents.len(),
        w.size.0 >= 0,
        in_square(w.size, w.ents[i].pos),
    ensures
        in_square(w.size, seedbed(w, i)),
        abs_int(seedbed(w, i).x.0 - w.ents[i].pos.x.0) <= abs_int(
            w.propagation.dispersal@[w.ents[i].element.at()].0 as int,
        ),
        abs_int(seedbed(w, i).y.0 - w.ents[i].pos.y.0) <= abs_int(
            w.propagation.dispersal@[w.ents[i].element.at()].0 as int,
        ),
        thrown(
            w.ents[i].pos.x.0 as int,
            seedbed(w, i).x.0 as int,
            draw_signed(w.seed, w.tick, w.ents[i].id, Channel::Disperse).0 as int,
            w.propagation.dispersal@[w.ents[i].element.at()].0 as int,
            w.size.0 as int,
        ),
        thrown(
            w.ents[i].pos.y.0 as int,
            seedbed(w, i).y.0 as int,
            draw_signed(
                w.seed,
                w.tick,
                w.ents[i].id.wrapping_add(0x0D15),
                Channel::Disperse,
            ).0 as int,
            w.propagation.dispersal@[w.ents[i].element.at()].0 as int,
            w.size.0 as int,
        ),
{
    let e = w.ents[i];
    let far = w.propagation.dispersal@[e.element.at()];
    lemma_scattered(
        e.pos.x,
        draw_signed(w.seed, w.tick, e.id, Channel::Disperse),
        far,
        w.size,
    );
    lemma_scattered(
        e.pos.y,
        draw_signed(w.seed, w.tick, e.id.wrapping_add(0x0D15), Channel::Disperse),
        far,
        w.size,
    );
}

proof fn lemma_roots(w: WorldV, i: int)
    requires
        w.wf(),
        w.inside(),
        0 <= i < w.ents.len(),
        w.ents[i].kind == Kind::Plant,
    ensures
        roots(w, i) == takes_root(w, w.ents[i].element, seedbed(w, i)),
{
    let e = w.ents[i];
    assert(in_square(w.size, e.pos));
    lemma_seedbed(w, i);
    lemma_under(w.terrain.side, seedbed(w, i));
    let c = under(w.terrain.side, seedbed(w, i));
    assert forall|m: int| 0 <= m < w.ents.len() implies (#[trigger] w.ents[m]).pos.x.0 >= 0
        && w.ents[m].pos.y.0 >= 0 by {
        assert(in_square(w.size, w.ents[m].pos));
    }
    law_a_crowd_is_a_count(w.ents, w.terrain.side, e.race(), c);
}

/// The parent of an offspring.
proof fn lemma_parent(w: WorldV, n: int, x: int) -> (i: int)
    requires
        0 <= n,
        0 <= x < offspring(w, n).len(),
    ensures
        0 <= i < n,
        sprouts(w, i),
        roots(w, i),
        offspring(w, n)[x] == (w.ents[i].race(), seedbed(w, i)),
    decreases n,
{
    let s = offspring(w, n - 1);
    if x < s.len() {
        lemma_parent(w, n - 1, x)
    } else {
        n - 1
    }
}

/// Every plant that spreads and finds ground has its offspring.
proof fn lemma_child(w: WorldV, n: int, i: int) -> (x: int)
    requires
        0 <= i < n,
        sprouts(w, i),
        roots(w, i),
    ensures
        0 <= x < offspring(w, n).len(),
        offspring(w, n)[x] == (w.ents[i].race(), seedbed(w, i)),
    decreases n,
{
    if i == n - 1 {
        offspring(w, n).len() - 1
    } else {
        lemma_child(w, n - 1, i)
    }
}

/// What the offspring are once they have come up.
proof fn lemma_rooted_bodies(w: WorldV, kids: Seq<(Race, V2)>, k: int)
    requires
        w.size.0 >= 0,
        0 <= k <= kids.len(),
        w.next_id + kids.len() <= u32::MAX,
    ensures
        ({
            let u = rooted(w, kids, k);
            &&& u.ents.len() == w.ents.len() + k
            &&& u.next_id == w.next_id + k
            &&& u.size == w.size
            &&& u.races == w.races
            &&& forall|i: int| 0 <= i < w.ents.len() ==> #[trigger] u.ents[i] == w.ents[i]
            &&& forall|x: int|
                w.ents.len() <= x < u.ents.len() ==> {
                    let (race, at) = kids[x - w.ents.len()];
                    &&& is_newborn(
                        w,
                        #[trigger] u.ents[x],
                        race.element,
                        at,
                        w.propagation.offspring_size@[race.element.at()],
                    )
                    &&& u.ents[x].kind == w.races[race.at()].kind
                }
        }),
    decreases k,
{
    if k > 0 {
        lemma_rooted_bodies(w, kids, k - 1);
        let v = rooted(w, kids, k - 1);
        let u = rooted(w, kids, k);
        let (race, at) = kids[k - 1];
        let size = w.propagation.offspring_size@[race.element.at()];
        law_a_birth_adds_a_newborn(v, race, at, size);
        assert(u.ents == spawned(v, race, at, size).ents);
        assert forall|x: int| w.ents.len() <= x < u.ents.len() implies {
            let (race, at) = kids[x - w.ents.len()];
            &&& is_newborn(
                w,
                #[trigger] u.ents[x],
                race.element,
                at,
                w.propagation.offspring_size@[race.element.at()],
            )
            &&& u.ents[x].kind == w.races[race.at()].kind
        } by {
            if x < v.ents.len() {
                assert(u.ents.drop_last()[x] == u.ents[x]);
                assert(u.ents[x] == v.ents[x]);
            }
        }
        assert forall|i: int| 0 <= i < w.ents.len() implies #[trigger] u.ents[i] == w.ents[i] by {
            assert(u.ents.drop_last()[i] == u.ents[i]);
            assert(v.ents[i] == w.ents[i]);
        }
    }
}

/// Every seedling has a parent: a living plant of its element, in its season
/// and no farther off than its seeds are carried; it comes up at the size that
/// seedlings have, on ground that takes it. Nobody else is touched.
pub proof fn law_a_seedling_stands_near_its_parent(w: WorldV, x: int)
    requires
        w.wf(),
        w.inside(),
        w.next_id + w.ents.len() <= u32::MAX,
    ensures
        ({
            let u = flora_phase(w);
            &&& 0 <= x < w.ents.len() ==> u.ents[x] == w.ents[x]
            &&& w.ents.len() <= x < u.ents.len() ==> {
                let o = u.ents[x];
                &&& exists|i: int| #[trigger] springs_from(w, o, i)
                &&& takes_root(w, o.element, o.pos)
                &&& in_square(w.size, o.pos)
                &&& is_newborn(
                    w,
                    o,
                    o.element,
                    o.pos,
                    w.propagation.offspring_size@[o.element.at()],
                )
            }
        }),
{
    let n = w.ents.len() as int;
    lemma_offspring(w, n);
    let u = flora_phase(w);
    if terrain_due(w.tick) {
        let kids = offspring(w, n);
        let v = WorldV {
            stats: Stats {
                rooted_rejected: (w.stats.rooted_rejected + refused(w, n)) as u64,
                ..w.stats
            },
            ..w
        };
        lemma_rooted_bodies(v, kids, kids.len() as int);
        if n <= x < u.ents.len() {
            let o = u.ents[x];
            let i = lemma_parent(w, n, x - n);
            let p = w.ents[i];
            assert(in_square(w.size, p.pos));
            lemma_seedbed(w, i);
            lemma_roots(w, i);
            assert(o.pos == seedbed(w, i));
            assert(springs_from(w, o, i));
        }
    }
}

/// A living plant in its season, whose element spreads for sure, brings up a
/// seedling near it, or is refused for want of ground.
pub proof fn law_a_plant_in_season_spreads(w: WorldV, i: int)
    requires
        w.wf(),
        w.inside(),
        w.next_id + w.ents.len() <= u32::MAX,
        w.stats.rooted_rejected + w.ents.len() <= u64::MAX,
        0 <= i < w.ents.len(),
        w.ents[i].alive,
        w.ents[i].kind == Kind::Plant,
        season_for(w, w.ents[i].element),
        w.propagation.chance@[w.ents[i].element.at()] >= 1000,
    ensures
        ({
            let u = flora_phase(w);
            let el = w.ents[i].element;
            let sure = w.propagation.root_min@[el.at()] == 0 && w.propagation.crowd_max@[el.at()]
                > w.ents.len();
            let came_up = exists|x: int|
                w.ents.len() <= x < u.ents.len() && springs_from(w, #[trigger] u.ents[x], i);
            &&& came_up || u.stats.rooted_rejected > w.stats.rooted_rejected
            &&& sure ==> came_up
        }),
{
    let n = w.ents.len() as int;
    let e = w.ents[i];
    lemma_offspring(w, n);
    let u = flora_phase(w);
    law_sure_chances(
        w.seed,
        w.tick,
        e.id,
        Channel::Propagate,
        w.propagation.chance@[e.element.at()] as u32,
        1000,
    );
    assert(sprouts(w, i));
    let kids = offspring(w, n);
    let v = WorldV {
        stats: Stats {
            rooted_rejected: (w.stats.rooted_rejected + refused(w, n)) as u64,
            ..w.stats
        },
        ..w
    };
    lemma_rooted_bodies(v, kids, kids.len() as int);
    lemma_rooted_stats(v, kids, kids.len() as int);
    lemma_roots(w, i);
    assert(in_square(w.size, e.pos));
    lemma_seedbed(w, i);
    let el = e.element;
    w.ents.lemma_filter_len(
        in_cell(w.terrain.side, el, Kind::Plant, under(w.terrain.side, seedbed(w, i))),
    );
    if roots(w, i) {
        let k = lemma_child(w, n, i);
        let o = u.ents[n + k];
        assert(o.pos == seedbed(w, i));
        assert(springs_from(w, o, i));
    } else {
        lemma_refused(w, n, i);
    }
}

proof fn lemma_rooted_stats(w: WorldV, kids: Seq<(Race, V2)>, k: int)
    ensures
        rooted(w, kids, k).stats.rooted_rejected == w.stats.rooted_rejected,
    decreases k,
{
    if k > 0 {
        lemma_rooted_stats(w, kids, k - 1);
    }
}

proof fn lemma_refused(w: WorldV, n: int, i: int)
    requires
        0 <= i < n,
        sprouts(w, i),
        !roots(w, i),
    ensures
        refused(w, n) >= 1,
    decreases n,
{
    if i < n - 1 {
        lemma_refused(w, n - 1, i);
    } else {
        lemma_offspring(w, n - 1);
    }
}

} // verus!
