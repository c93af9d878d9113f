//! What a crowd does when everybody pushes.
use crate::collisions::{
    close_to, collisions_phase, displaced, lemma_shoved, overlap, radius_of, shove, shoved,
    shoved_pair, shoved_row, widest, Shoves,
};
use crate::entity::EntityV;
use crate::fx::{abs_int, v2_zero, V2};
use crate::parting::off_the_edge;
use crate::spatial::{lemma_ring_members, spec_radius_cells};
use crate::sums::{lemma_sum_update, sum_by};
use crate::terrain::cell_xy;
use crate::world::WorldV;
use vstd::prelude::*;

verus! {

/// No pair of bodies pushes by more than `m` along either axis.
pub open spec fn pushes_gently(w: WorldV, m: int) -> bool {
    forall|i: int, j: int|
        #[trigger] overlap(w, i, j) ==> abs_int(shove(w, i, j).x.0 as int) <= m && abs_int(
            shove(w, i, j).y.0 as int,
        ) <= m
}

pub open spec fn x_of() -> spec_fn(EntityV) -> int {
    |e: EntityV| e.pos.x.0 as int
}

pub open spec fn y_of() -> spec_fn(EntityV) -> int {
    |e: EntityV| e.pos.y.0 as int
}

spec fn push_x() -> spec_fn(V2) -> int {
    |v: V2| v.x.0 as int
}

spec fn push_y() -> spec_fn(V2) -> int {
    |v: V2| v.y.0 as int
}

/// What holds of the pushes while they are gathered: they cancel out, none is larger
/// than all pairs together can make it, and the dead get none.
spec fn balanced(w: WorldV, s: Shoves, m: int) -> bool {
    &&& s.fix.len() == w.ents.len()
    &&& 0 <= s.count
    &&& sum_by(s.fix, push_x()) == 0
    &&& sum_by(s.fix, push_y()) == 0
    &&& forall|b: int|
        0 <= b < s.fix.len() ==> abs_int((#[trigger] s.fix[b]).x.0 as int) <= s.count * m
            && abs_int(s.fix[b].y.0 as int) <= s.count * m
    &&& forall|b: int| 0 <= b < s.fix.len() && !w.ents[b].alive ==> #[trigger] s.fix[b] == v2_zero()
}

proof fn lemma_pair(w: WorldV, s: Shoves, i: int, j: int, m: int)
    requires
        balanced(w, s, m),
        0 <= i < w.ents.len(),
        0 <= j < w.ents.len(),
        w.ents[i].alive,
        0 <= m,
        pushes_gently(w, m),
        shoved_pair(w, s, i, j).count * m <= i32::MAX,
    ensures
        balanced(w, shoved_pair(w, s, i, j), m),
        s.count <= shoved_pair(w, s, i, j).count,
{
    reveal(shoved_pair);
    if !(j <= i || !w.ents[j].alive || !overlap(w, i, j)) {
        let v = shove(w, i, j);
        let (a, b) = (s.fix[i].minus(v), s.fix[j].plus(v));
        let f = s.fix.update(i, a);
        let u = shoved_pair(w, s, i, j);
        assert(u.fix == f.update(j, b));
        assert((s.count + 1) * m == s.count * m + m) by (nonlinear_arith);
        assert(a.x.0 == s.fix[i].x.0 - v.x.0 && a.y.0 == s.fix[i].y.0 - v.y.0);
        assert(b.x.0 == s.fix[j].x.0 + v.x.0 && b.y.0 == s.fix[j].y.0 + v.y.0);
        lemma_sum_update(s.fix, i, a, push_x());
        lemma_sum_update(s.fix, i, a, push_y());
        lemma_sum_update(f, j, b, push_x());
        lemma_sum_update(f, j, b, push_y());
    }
}

proof fn lemma_row(w: WorldV, s: Shoves, i: int, near: Seq<u32>, k: int, m: int)
    requires
        balanced(w, s, m),
        0 <= i < w.ents.len(),
        w.ents[i].alive,
        0 <= k <= near.len(),
        forall|x: int| 0 <= x < near.len() ==> #[trigger] near[x] < w.ents.len(),
        0 <= m,
        pushes_gently(w, m),
        shoved_row(w, s, i, near, k).count * m <= i32::MAX,
    ensures
        balanced(w, shoved_row(w, s, i, near, k), m),
        s.count <= shoved_row(w, s, i, near, k).count,
    decreases k,
{
    if k > 0 {
        let t = shoved_row(w, s, i, near, k - 1);
        let j = near[k - 1] as int;
        assert(t.count <= shoved_pair(w, t, i, j).count) by {
            reveal(shoved_pair);
        }
        lemma_less(t.count, shoved_pair(w, t, i, j).count, m);
        lemma_row(w, s, i, near, k - 1, m);
        lemma_pair(w, t, i, j, m);
    }
}

proof fn lemma_less(a: int, b: int, m: int)
    requires
        a <= b,
        0 <= m,
    ensures
        a * m <= b * m,
{
    assert(a * m <= b * m) by (nonlinear_arith)
        requires
            a <= b,
            0 <= m,
    ;
}

proof fn lemma_counts_up(w: WorldV, s: Shoves, i: int, near: Seq<u32>, k: int)
    ensures
        s.count <= shoved_row(w, s, i, near, k).count,
    decreases k,
{
    if k > 0 {
        lemma_counts_up(w, s, i, near, k - 1);
        reveal(shoved_pair);
    }
}

proof fn lemma_all(w: WorldV, n: int, m: int)
    requires
        0 <= n <= w.ents.len() <= u32::MAX,
        0 <= m,
        pushes_gently(w, m),
        shoved(w, n).count * m <= i32::MAX,
    ensures
        balanced(w, shoved(w, n), m),
    decreases n,
{
    if n > 0 {
        let s = shoved(w, n - 1);
        let e = w.ents[n - 1];
        let near = close_to(w, n - 1);
        if e.alive {
            let (cx, cy) = cell_xy(w.terrain.side, e.pos);
            lemma_ring_members(
                w.ents,
                w.terrain.side,
                cx,
                cy,
                spec_radius_cells(radius_of(w, e).plus(widest(w.races, 10))),
            );
            lemma_counts_up(w, s, n - 1, near, near.len() as int);
            lemma_less(s.count, shoved(w, n).count, m);
            lemma_all(w, n - 1, m);
            lemma_row(w, s, n - 1, near, near.len() as int, m);
        } else {
            lemma_all(w, n - 1, m);
        }
    } else {
        let s = shoved(w, 0);
        lemma_still(s.fix, push_x());
        lemma_still(s.fix, push_y());
    }
}

proof fn lemma_still(s: Seq<V2>, f: spec_fn(V2) -> int)
    requires
        forall|i: int| 0 <= i < s.len() ==> f(#[trigger] s[i]) == 0,
    ensures
        sum_by(s, f) == 0,
    decreases s.len(),
{
    if s.len() > 0 {
        lemma_still(s.drop_last(), f);
        assert(f(s[s.len() - 1]) == 0);
    }
}

/// A crowd keeps its middle: however many bodies push each other, what each pair
/// gives to one it takes from the other, so the sum of where all bodies stand stays
/// as it was. `m` is the most that one pair pushes by; the pushes can be held, and
/// everybody stands far enough from the edge for them.
pub proof fn law_a_crowd_keeps_its_middle(w: WorldV, m: int)
    requires
        w.ents.len() <= u32::MAX,
        0 <= m,
        pushes_gently(w, m),
        w.stats.collisions + w.ents.len() * w.ents.len() <= u64::MAX,
        (collisions_phase(w).stats.collisions - w.stats.collisions) * m <= i32::MAX,
        ({
            let far = (collisions_phase(w).stats.collisions - w.stats.collisions) * m;
            forall|i: int|
                0 <= i < w.ents.len() && (#[trigger] w.ents[i]).alive ==> off_the_edge(w, i, far)
        }),
    ensures
        sum_by(collisions_phase(w).ents, x_of()) == sum_by(w.ents, x_of()),
        sum_by(collisions_phase(w).ents, y_of()) == sum_by(w.ents, y_of()),
{
    let n = w.ents.len() as int;
    let s = shoved(w, n);
    let u = collisions_phase(w);
    lemma_shoved(w, n);
    let far = s.count * m;
    lemma_all(w, n, m);
    assert forall|i: int| 0 <= i < n implies (#[trigger] u.ents[i]).pos.x.0 == w.ents[i].pos.x.0
        + s.fix[i].x.0 && u.ents[i].pos.y.0 == w.ents[i].pos.y.0 + s.fix[i].y.0 by {
        assert(u.ents[i] == displaced(w.ents[i], s.fix[i], w.size));
        if w.ents[i].alive {
            assert(off_the_edge(w, i, far));
        }
    }
    lemma_moved(w.ents, u.ents, s.fix);
}

proof fn lemma_moved(a: Seq<EntityV>, b: Seq<EntityV>, f: Seq<V2>)
    requires
        a.len() == b.len() == f.len(),
        forall|i: int|
            0 <= i < a.len() ==> (#[trigger] b[i]).pos.x.0 == a[i].pos.x.0 + f[i].x.0
                && b[i].pos.y.0 == a[i].pos.y.0 + f[i].y.0,
    ensures
        sum_by(b, x_of()) == sum_by(a, x_of()) + sum_by(f, push_x()),
        sum_by(b, y_of()) == sum_by(a, y_of()) + sum_by(f, push_y()),
    decreases a.len(),
{
    if a.len() > 0 {
        let (p, q, g) = (a.drop_last(), b.drop_last(), f.drop_last());
        assert forall|i: int| 0 <= i < p.len() implies (#[trigger] q[i]).pos.x.0 == p[i].pos.x.0
            + g[i].x.0 && q[i].pos.y.0 == p[i].pos.y.0 + g[i].y.0 by {
            assert(q[i] == b[i]);
        }
        lemma_moved(p, q, g);
        assert(b[b.len() - 1].pos.x.0 == a[a.len() - 1].pos.x.0 + f[f.len() - 1].x.0);
    }
}

} // verus!
