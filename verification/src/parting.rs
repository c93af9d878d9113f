//! What collisions do to bodies that overlap.
//!
//! Two bodies that stand too close are pushed apart, both by as much, along
//! the line between them, until they are as far from each other as their sizes
//! ask for.
use crate::collisions::{
    clearance, close_to, collisions_phase, law_no_overlap_goes_unseen, overlap, radius_of, shove,
    shoved, shoved_pair, shoved_row, Shoves,
};
use crate::entity::EntityV;
use crate::fx::{abs_int, is_isqrt, isqrt, sat32, v2_zero, Fx, V2};
use crate::geometry::{along, lemma_isqrt_exists, lemma_unit_parts, lemma_unit_square};
use crate::spatial::lemma_ring_members;
use crate::terrain::cell_xy;
use crate::world::{in_square, lemma_population_bound, WorldV};
use vstd::arithmetic::mul::lemma_mul_inequality;
use vstd::prelude::*;

verus! {

/// From one position to another, in raw units.
pub open spec fn from_to(a: V2, b: V2) -> (int, int) {
    (b.x.0 - a.x.0, b.y.0 - a.y.0)
}

/// The square of the distance between two positions, in raw units.
pub open spec fn gap(a: V2, b: V2) -> int {
    (b.x.0 - a.x.0) * (b.x.0 - a.x.0) + (b.y.0 - a.y.0) * (b.y.0 - a.y.0)
}

/// How far apart two bodies belong: their radii together, in raw units.
pub open spec fn reach_of_both(w: WorldV, i: int, j: int) -> int {
    radius_of(w, w.ents[i]).0 + radius_of(w, w.ents[j]).0
}

/// Two bodies are well clear of each other: the square of their distance is
/// past that of their radii by more than rounding can hide.
pub open spec fn clear(w: WorldV, i: int, j: int) -> bool {
    let c = reach_of_both(w, i, j);
    c * c + 131072 <= gap(w.ents[i].pos, w.ents[j].pos)
}

/// Two bodies overlap by more than rounding can hide, and do not stand on one
/// spot.
pub open spec fn jammed(w: WorldV, i: int, j: int) -> bool {
    let c = reach_of_both(w, i, j);
    let (dx, dy) = from_to(w.ents[i].pos, w.ents[j].pos);
    &&& gap(w.ents[i].pos, w.ents[j].pos) + 65536 <= c * c
    &&& abs_int(dx) >= 256 || abs_int(dy) >= 256
}

/// A body stands at least `c` from the edge of the square.
pub open spec fn off_the_edge(w: WorldV, i: int, c: int) -> bool {
    let p = w.ents[i].pos;
    c <= p.x.0 <= w.size.0 - c && c <= p.y.0 <= w.size.0 - c
}

/// The radius of a body is its race's, times the share of full size that the
/// body has grown to; that of a body of full size is its race's.
pub proof fn law_a_radius_grows_with_size(w: WorldV, e: EntityV)
    requires
        w.races[e.race().at()].radius.0 >= 0,
        e.size <= 1000,
    ensures
        ({
            let full = w.races[e.element.at() * 2 + e.kind.at()].radius.0;
            let r = radius_of(w, e).0;
            &&& e.size == 1000 ==> r == full
            &&& e.size == 0 ==> r == 0
            &&& 0 <= r <= full
            &&& r * 1000 <= full * e.size
            &&& full * e.size <= r * 1000 + 1000 + full / 65
        }),
{
    let full = w.races[e.race().at()].radius.0 as int;
    let z = e.size as int;
    let f = z * 65536 / 1000;
    assert(Fx::of_ratio(z, 1000).0 == f);
    assert(1000 * f <= 65536 * z < 1000 * f + 1000);
    let r = (full * f) / 65536;
    assert(0 <= full * f <= full * 65536) by (nonlinear_arith)
        requires
            0 <= full,
            0 <= f <= 65536,
    ;
    assert(65536 * r <= full * f < 65536 * r + 65536);
    assert(1000 * (full * f) <= 65536 * (full * z)) by (nonlinear_arith)
        requires
            1000 * f <= 65536 * z,
            0 <= full,
    ;
    assert(65536 * (full * z) <= 1000 * (full * f) + 1000 * full) by (nonlinear_arith)
        requires
            65536 * z <= 1000 * f + 1000,
            0 <= full,
    ;
    if z == 1000 {
        assert(f == 65536);
    }
    if z == 0 {
        assert(f == 0);
        assert(full * f == 0) by (nonlinear_arith)
            requires
                f == 0,
        ;
    }
}

// ----------------------------------------------------------------------
// When two bodies touch.
// ----------------------------------------------------------------------

proof fn lemma_sq(v: int)
    ensures
        v * v >= 0,
        v * v == (-v) * (-v),
{
    assert(v * v >= 0 && v * v == (-v) * (-v)) by (nonlinear_arith);
}

proof fn lemma_touch(w: WorldV, i: int, j: int)
    requires
        in_square(w.size, w.ents[i].pos),
        in_square(w.size, w.ents[j].pos),
        0 <= reach_of_both(w, i, j) <= i32::MAX,
    ensures
        clearance(w, i, j).0 == reach_of_both(w, i, j),
        clear(w, i, j) ==> !overlap(w, i, j),
        jammed(w, i, j) && reach_of_both(w, i, j) * reach_of_both(w, i, j) < 65536 * i32::MAX
            ==> overlap(w, i, j),
{
    let c = reach_of_both(w, i, j);
    let d = w.ents[j].pos.minus(w.ents[i].pos);
    let (dx, dy) = from_to(w.ents[i].pos, w.ents[j].pos);
    assert(d.x.0 == dx && d.y.0 == dy);
    let (x, y, z) = (dx * dx, dy * dy, c * c);
    lemma_sq(dx);
    lemma_sq(dy);
    lemma_sq(c);
    assert(d.x.times(d.x).0 == sat32(x / 65536));
    assert(d.y.times(d.y).0 == sat32(y / 65536));
    assert(clearance(w, i, j).times(clearance(w, i, j)).0 == sat32(z / 65536));
    if jammed(w, i, j) {
        if abs_int(dx) >= 256 {
            assert(x >= 65536) by (nonlinear_arith)
                requires
                    x == dx * dx,
                    dx >= 256 || dx <= -256,
            ;
        } else {
            assert(y >= 65536) by (nonlinear_arith)
                requires
                    y == dy * dy,
                    dy >= 256 || dy <= -256,
            ;
        }
    }
}

// ----------------------------------------------------------------------
// The pushes on a pair that nobody else touches.
// ----------------------------------------------------------------------

/// Nobody but `j` overlaps `i`, and nobody but `i` overlaps `j`.
spec fn alone(w: WorldV, i: int, j: int) -> bool {
    forall|m: int|
        0 <= m < w.ents.len() && m != i && m != j && (#[trigger] w.ents[m]).alive ==> !overlap(
            w,
            i,
            m,
        ) && !overlap(w, m, i) && !overlap(w, j, m) && !overlap(w, m, j)
}

proof fn lemma_pair_row(w: WorldV, s: Shoves, r: int, near: Seq<u32>, k: int, i: int, j: int)
    requires
        0 <= k <= near.len(),
        0 <= i < j < w.ents.len() <= u32::MAX,
        0 <= r < w.ents.len(),
        w.ents[r].alive,
        s.fix.len() == w.ents.len(),
        alone(w, i, j),
        overlap(w, i, j),
        w.ents[i].alive,
        w.ents[j].alive,
        forall|a: int, b: int| 0 <= a < b < near.len() ==> near[a] < near[b],
        forall|m: int| 0 <= m < near.len() ==> #[trigger] near[m] < w.ents.len(),
    ensures
        ({
            let u = shoved_row(w, s, r, near, k);
            let hit = r == i && near.take(k).contains(j as u32);
            &&& u.fix.len() == w.ents.len()
            &&& u.fix[i] == (if hit {
                s.fix[i].minus(shove(w, i, j))
            } else {
                s.fix[i]
            })
            &&& u.fix[j] == (if hit {
                s.fix[j].plus(shove(w, i, j))
            } else {
                s.fix[j]
            })
        }),
    decreases k,
{
    if k > 0 {
        lemma_pair_row(w, s, r, near, k - 1, i, j);
        reveal(shoved_pair);
        let m = near[k - 1] as int;
        let p = near.take(k - 1);
        let q = near.take(k);
        assert(q =~= p.push(near[k - 1]));
        assert(q.contains(j as u32) <==> p.contains(j as u32) || m == j) by {
            if q.contains(j as u32) && m != j {
                let z = q.index_of(j as u32);
                assert(p[z] == j as u32);
            }
            if p.contains(j as u32) {
                let z = p.index_of(j as u32);
                assert(q[z] == j as u32);
            }
            if m == j {
                assert(q[k - 1] == j as u32);
            }
        }
        if m == j && p.contains(j as u32) {
            let z = p.index_of(j as u32);
            assert(near[z] < near[k - 1]);
        }
        if w.ents[m].alive && m > r {
            if r == i {
                if m != j {
                    assert(!overlap(w, i, m));
                }
            } else if r == j {
                assert(!overlap(w, j, m));
            } else if m == i {
                assert(!overlap(w, r, i));
            } else if m == j {
                assert(!overlap(w, r, j));
            }
        }
    } else {
        assert(near.take(0) =~= Seq::<u32>::empty());
    }
}

proof fn lemma_pair_pushes(w: WorldV, n: int, i: int, j: int)
    requires
        0 <= n <= w.ents.len() <= u32::MAX,
        0 <= i < j < w.ents.len(),
        alone(w, i, j),
        overlap(w, i, j),
        w.ents[i].alive,
        w.ents[j].alive,
        close_to(w, i).contains(j as u32),
    ensures
        shoved(w, n).fix.len() == w.ents.len(),
        shoved(w, n).fix[i] == (if n > i {
            v2_zero().minus(shove(w, i, j))
        } else {
            v2_zero()
        }),
        shoved(w, n).fix[j] == (if n > i {
            v2_zero().plus(shove(w, i, j))
        } else {
            v2_zero()
        }),
    decreases n,
{
    if n > 0 {
        lemma_pair_pushes(w, n - 1, i, j);
        let r = n - 1;
        if w.ents[r].alive {
            let e = w.ents[r];
            let near = close_to(w, r);
            let (cx, cy) = cell_xy(w.terrain.side, e.pos);
            lemma_ring_members(
                w.ents,
                w.terrain.side,
                cx,
                cy,
                crate::spatial::spec_radius_cells(
                    radius_of(w, e).plus(crate::collisions::widest(w.races, 10)),
                ),
            );
            lemma_pair_row(w, shoved(w, r), r, near, near.len() as int, i, j);
            assert(near.take(near.len() as int) =~= near);
        }
    }
}

// ----------------------------------------------------------------------
// How far the two are pushed.
// ----------------------------------------------------------------------

/// A product with a part of a unit vector, rounded down.
proof fn lemma_scaled_part(n: int, k: int)
    requires
        0 <= k,
        -65536 <= n <= 65536,
    ensures
        ({
            let p = abs_int((n * k) / 65536);
            &&& abs_int(n) * k - 65536 <= 65536 * p <= abs_int(n) * k + 65536
            &&& p <= k + 1
            &&& along((n * k) / 65536, n)
        }),
{
    assert(abs_int(n) * k == abs_int(n * k)) by (nonlinear_arith)
        requires
            0 <= k,
    ;
    assert(n == 0 ==> n * k == 0) by (nonlinear_arith);
    assert(n > 0 ==> n * k >= 0) by (nonlinear_arith)
        requires
            0 <= k,
    ;
    assert(n < 0 ==> n * k <= 0) by (nonlinear_arith)
        requires
            0 <= k,
    ;
    assert(abs_int(n) * k <= 65536 * k) by (nonlinear_arith)
        requires
            abs_int(n) <= 65536,
            0 <= k,
    ;
}

/// The distance after two have been pushed apart, by the magnitudes of what
/// was between them and of the push.
proof fn lemma_gap_after(
    x: int,
    y: int,
    a: int,
    b: int,
    f: int,
    l: int,
    len: int,
    k: int,
    p: int,
    q: int,
    c: int,
)
    requires
        0 <= x,
        0 <= y,
        0 <= a <= 65536,
        0 <= b <= 65536,
        1 <= f,
        0x4000_0000 <= l,
        is_isqrt((x * f) * (x * f) + (y * f) * (y * f), l),
        a * l <= 65536 * (x * f) < (a + 1) * l,
        b * l <= 65536 * (y * f) < (b + 1) * l,
        is_isqrt(x * x + y * y, len),
        0 <= k,
        0 <= p,
        0 <= q,
        a * k - 65536 <= 65536 * p <= a * k + 65536,
        b * k - 65536 <= 65536 * q <= b * k + 65536,
        c - 1 <= len + 2 * k <= c,
        len < c,
        1 <= c,
    ensures
        ({
            let after = (x + 2 * p) * (x + 2 * p) + (y + 2 * q) * (y + 2 * q);
            abs_int(after - c * c) <= c * c / 8192 + 32 * c + 32
        }),
{
    let m = 65536int;
    let n = a * a + b * b;
    assert(0 <= x * f && 0 <= y * f) by (nonlinear_arith)
        requires
            0 <= x,
            0 <= y,
            1 <= f,
    ;
    lemma_unit_square(a, b, x * f, y * f, l);
    // The root of the scaled vector, against the root of the vector itself.
    let d = x * x + y * y;
    let s = (x * f) * (x * f) + (y * f) * (y * f);
    assert(s == d * (f * f)) by (nonlinear_arith)
        requires
            s == (x * f) * (x * f) + (y * f) * (y * f),
            d == x * x + y * y,
    ;
    assert(len * f <= l) by {
        assert((len * f) * (len * f) <= s) by (nonlinear_arith)
            requires
                s == d * (f * f),
                len * len <= d,
                f >= 1,
        ;
        if len * f > l {
            assert((l + 1) * (l + 1) <= (len * f) * (len * f)) by (nonlinear_arith)
                requires
                    l + 1 <= len * f,
                    l >= 0,
            ;
        }
    }
    assert(l <= (len + 1) * f) by {
        assert(s <= ((len + 1) * f) * ((len + 1) * f)) by (nonlinear_arith)
            requires
                s == d * (f * f),
                d <= (len + 1) * (len + 1),
                f >= 1,
        ;
        if l > (len + 1) * f {
            assert(l * l > ((len + 1) * f) * ((len + 1) * f)) by (nonlinear_arith)
                requires
                    l > (len + 1) * f,
                    (len + 1) * f >= 0,
            ;
        }
    }
    // What the vector and its unit vector have in common.
    let t = x * a + y * b;
    let (mx, my) = (m * (x * f), m * (y * f));
    let (xf, yf) = (x * f, y * f);
    assert(t * f == xf * a + yf * b) by (nonlinear_arith)
        requires
            t == x * a + y * b,
            xf == x * f,
            yf == y * f,
    ;
    lemma_move_factor(xf, a);
    lemma_move_factor(yf, b);
    lemma_mul_inequality(a * l, mx, a);
    lemma_mul_inequality(b * l, my, b);
    lemma_mul_inequality(mx, (a + 1) * l, a);
    lemma_mul_inequality(my, (b + 1) * l, b);
    assert(n * l == (a * l) * a + (b * l) * b) by (nonlinear_arith)
        requires
            n == a * a + b * b,
    ;
    assert((n + a + b) * l == ((a + 1) * l) * a + ((b + 1) * l) * b) by (nonlinear_arith)
        requires
            n == a * a + b * b,
    ;
    assert(m * t >= n * len) by (nonlinear_arith)
        requires
            m * (t * f) >= n * l,
            len * f <= l,
            n >= 0,
            f >= 1,
    ;
    assert(m * t <= (n + 2 * m) * (len + 1)) by (nonlinear_arith)
        requires
            m * (t * f) <= (n + a + b) * l,
            l <= (len + 1) * f,
            a + b <= 2 * m,
            n >= 0,
            a >= 0,
            b >= 0,
            f >= 1,
            len >= 0,
    ;
    let g = x * p + y * q;
    let z = x + y;
    let (mp, mq) = (m * p, m * q);
    lemma_move_factor(p, x);
    lemma_move_factor(q, y);
    assert(x * p == p * x && y * q == q * y) by (nonlinear_arith);
    lemma_mul_inequality(a * k - m, mp, x);
    lemma_mul_inequality(b * k - m, mq, y);
    lemma_mul_inequality(mp, a * k + m, x);
    lemma_mul_inequality(mq, b * k + m, y);
    let (ak, bk) = (a * k, b * k);
    assert(t * k == ak * x + bk * y) by (nonlinear_arith)
        requires
            t == x * a + y * b,
            ak == a * k,
            bk == b * k,
    ;
    lemma_add_factor(ak, x);
    lemma_add_factor(bk, y);
    crate::fx::lemma_component_le_len(x, y, len);
    assert(z <= 2 * len);
    let h = p * p + q * q;
    lemma_square_of_push(a, b, k, p, q, n);
    let v = len * k;
    let r = k * k;
    assert(m * m * g >= n * v - m * m * z) by (nonlinear_arith)
        requires
            m * g >= t * k - m * z,
            m * t >= n * len,
            v == len * k,
            k >= 0,
            m == 65536,
    ;
    assert(m * m * g <= (n + 2 * m) * (v + k) + m * m * z) by (nonlinear_arith)
        requires
            m * g <= t * k + m * z,
            m * t <= (n + 2 * m) * (len + 1),
            v == len * k,
            k >= 0,
            m == 65536,
    ;
    // Put together.
    let after = (x + 2 * p) * (x + 2 * p) + (y + 2 * q) * (y + 2 * q);
    assert(after == d + 4 * g + 4 * h) by (nonlinear_arith)
        requires
            after == (x + 2 * p) * (x + 2 * p) + (y + 2 * q) * (y + 2 * q),
            d == x * x + y * y,
            g == x * p + y * q,
            h == p * p + q * q,
    ;
    let e = len * len;
    assert((len + 1) * (len + 1) == e + 2 * len + 1) by (nonlinear_arith)
        requires
            e == len * len,
    ;
    let o = (len + 2 * k) * (len + 2 * k);
    assert(o == e + 4 * v + 4 * r) by (nonlinear_arith)
        requires
            o == (len + 2 * k) * (len + 2 * k),
            e == len * len,
            v == len * k,
            r == k * k,
    ;
    let cc = c * c;
    assert(cc - 2 * c <= o <= cc) by (nonlinear_arith)
        requires
            o == (len + 2 * k) * (len + 2 * k),
            c - 1 <= len + 2 * k <= c,
            cc == c * c,
            c >= 1,
    ;
    assert(v >= 0 && r >= 0 && e >= 0) by (nonlinear_arith)
        requires
            v == len * k,
            r == k * k,
            e == len * len,
            len >= 0,
            k >= 0,
    ;
    let wt = v + r;
    assert(4 * wt <= cc);
    assert(n * v + n * r == n * wt) by (nonlinear_arith)
        requires
            wt == v + r,
    ;
    assert(n * wt >= (m * m - 5 * m) * wt) by (nonlinear_arith)
        requires
            n >= m * m - 5 * m,
            wt >= 0,
    ;
    assert(n * wt <= (m * m + 16) * wt) by (nonlinear_arith)
        requires
            n <= m * m + 16,
            wt >= 0,
    ;
    assert(m * m == 0x1_0000_0000);
    assert((m * m - 5 * m) * wt == 0x1_0000_0000 * wt - 327680 * wt) by (nonlinear_arith)
        requires
            m == 65536,
    ;
    assert((m * m + 16) * wt == 0x1_0000_0000 * wt + 16 * wt) by (nonlinear_arith)
        requires
            m == 65536,
    ;
    assert((n + 2 * m) * (v + k) == n * v + n * k + 2 * m * v + 2 * m * k) by (nonlinear_arith);
    assert(n * k <= (m * m + 16) * k) by (nonlinear_arith)
        requires
            n <= m * m + 16,
            k >= 0,
    ;
    assert((m * m + 16) * k == 0x1_0000_0010 * k);
    assert(2 * m * v == 131072 * v && 2 * m * k == 131072 * k);
    assert(m * m * g == 0x1_0000_0000 * g && m * m * z == 0x1_0000_0000 * z);
    // Lower bound.
    assert(0x1_0000_0000 * after >= 0x1_0000_0000 * (cc - 18 * c - 4) - 327680 * cc);
    // Upper bound.
    assert(0x1_0000_0000 * after <= 0x1_0000_0000 * (cc + 24 * c + 16) + 262144 * cc);
}

proof fn lemma_move_factor(u: int, v: int)
    ensures
        (65536 * u) * v == 65536 * (u * v),
{
    assert((65536 * u) * v == 65536 * (u * v)) by (nonlinear_arith);
}

proof fn lemma_add_factor(u: int, x: int)
    ensures
        (u + 65536) * x == u * x + 65536 * x,
        (u - 65536) * x == u * x - 65536 * x,
{
    assert((u + 65536) * x == u * x + 65536 * x) by (nonlinear_arith);
    assert((u - 65536) * x == u * x - 65536 * x) by (nonlinear_arith);
}

proof fn lemma_square_of_push(a: int, b: int, k: int, p: int, q: int, n: int)
    requires
        0 <= a <= 65536,
        0 <= b <= 65536,
        0 <= k,
        0 <= p,
        0 <= q,
        n == a * a + b * b,
        a * k - 65536 <= 65536 * p <= a * k + 65536,
        b * k - 65536 <= 65536 * q <= b * k + 65536,
    ensures
        0x1_0000_0000 * (p * p + q * q) >= n * (k * k) - 0x4_0000_0000 * k,
        0x1_0000_0000 * (p * p + q * q) <= n * (k * k) + 0x4_0000_0000 * k + 0x2_0000_0000,
{
    lemma_square_of_part(a, k, p);
    lemma_square_of_part(b, k, q);
    assert(n * (k * k) == a * a * (k * k) + b * b * (k * k)) by (nonlinear_arith)
        requires
            n == a * a + b * b,
    ;
    assert(0x1_0000_0000 * (p * p + q * q) == 0x1_0000_0000 * (p * p) + 0x1_0000_0000 * (q * q))
        by (nonlinear_arith);
}

proof fn lemma_square_of_part(a: int, k: int, p: int)
    requires
        0 <= a <= 65536,
        0 <= k,
        0 <= p,
        a * k - 65536 <= 65536 * p <= a * k + 65536,
    ensures
        0x1_0000_0000 * (p * p) >= a * a * (k * k) - 0x2_0000_0000 * k,
        0x1_0000_0000 * (p * p) <= a * a * (k * k) + 0x2_0000_0000 * k + 0x1_0000_0000,
{
    let u = a * k;
    let v = 65536 * p;
    assert(u * u == a * a * (k * k)) by (nonlinear_arith)
        requires
            u == a * k,
    ;
    assert(v * v == 0x1_0000_0000 * (p * p)) by (nonlinear_arith)
        requires
            v == 65536 * p,
    ;
    assert(0 <= u <= 65536 * k) by (nonlinear_arith)
        requires
            u == a * k,
            0 <= a <= 65536,
            0 <= k,
    ;
    assert(v * v <= u * u + 131072 * u + 0x1_0000_0000) by (nonlinear_arith)
        requires
            0 <= v <= u + 65536,
    ;
    if u >= 65536 {
        assert(v * v >= u * u - 131072 * u) by (nonlinear_arith)
            requires
                0 <= u - 65536 <= v,
        ;
    } else {
        assert(u * u <= 65536 * u) by (nonlinear_arith)
            requires
                0 <= u <= 65536,
        ;
        assert(v * v >= 0) by (nonlinear_arith);
    }
}

/// What a push is, for two bodies that overlap: opposite signs and no more
/// than needed.
proof fn lemma_push(w: WorldV, i: int, j: int)
    requires
        in_square(w.size, w.ents[i].pos),
        in_square(w.size, w.ents[j].pos),
        0 <= reach_of_both(w, i, j) <= i32::MAX,
        reach_of_both(w, i, j) * reach_of_both(w, i, j) < 65536 * i32::MAX,
        jammed(w, i, j),
    ensures
        ({
            let c = reach_of_both(w, i, j);
            let (dx, dy) = from_to(w.ents[i].pos, w.ents[j].pos);
            let s = shove(w, i, j);
            let (px, py) = (s.x.0 as int, s.y.0 as int);
            &&& along(px, dx)
            &&& along(py, dy)
            &&& abs_int(px) <= c / 2 + 1
            &&& abs_int(py) <= c / 2 + 1
            &&& abs_int(
                (dx + 2 * px) * (dx + 2 * px) + (dy + 2 * py) * (dy + 2 * py) - c * c,
            ) <= c * c / 8192 + 32 * c + 32
        }),
{
    let c = reach_of_both(w, i, j);
    lemma_touch(w, i, j);
    let d = w.ents[j].pos.minus(w.ents[i].pos);
    let (dx, dy) = from_to(w.ents[i].pos, w.ents[j].pos);
    assert(d.x.0 == dx && d.y.0 == dy);
    assert(d != v2_zero());
    lemma_sq(dx);
    lemma_sq(dy);
    let n = d.spec_normalized();
    let (f, l) = lemma_unit_parts(d);
    let len = isqrt(d.raw_sq());
    lemma_isqrt_exists(d.raw_sq());
    assert(len < c) by {
        if len >= c {
            assert(len * len >= c * c) by (nonlinear_arith)
                requires
                    len >= c,
                    c >= 0,
            ;
        }
    }
    assert(d.spec_len().0 == len);
    let k = (c - len) / 2;
    let o = clearance(w, i, j).minus(d.spec_len());
    assert(o.0 == c - len);
    assert(o.times(Fx(32768)).0 == k) by {
        assert(((c - len) * 32768) / 65536 == (c - len) / 2);
    }
    let (nx, ny) = (n.x.0 as int, n.y.0 as int);
    lemma_scaled_part(nx, k);
    lemma_scaled_part(ny, k);
    let s = shove(w, i, j);
    let (px, py) = (s.x.0 as int, s.y.0 as int);
    assert(px == (nx * k) / 65536);
    assert(py == (ny * k) / 65536);
    let (x, y) = (abs_int(dx), abs_int(dy));
    assert(x * x == dx * dx);
    assert(y * y == dy * dy);
    lemma_gap_after(
        x,
        y,
        abs_int(nx),
        abs_int(ny),
        f,
        l,
        len,
        k,
        abs_int(px),
        abs_int(py),
        c,
    );
    let (tx, ty) = (dx + 2 * px, dy + 2 * py);
    assert(abs_int(tx) == x + 2 * abs_int(px));
    assert(abs_int(ty) == y + 2 * abs_int(py));
    lemma_sq(tx);
    lemma_sq(ty);
}

/// Two bodies that overlap, with nobody else in touch and away from the edge,
/// are parted. Both are pushed by as much, each away from the other along each
/// axis, so they end no nearer than they were; and along the line between
/// them, so that their distance becomes what their radii add up to, save for
/// rounding.
pub proof fn law_a_pair_is_parted(w: WorldV, i: int, j: int)
    requires
        w.wf(),
        w.inside(),
        forall|k: int| 0 <= k < 10 ==> (#[trigger] w.races[k]).radius.0 >= 0,
        forall|m: int| 0 <= m < w.ents.len() ==> (#[trigger] w.ents[m]).size <= 1000,
        0 <= i < j < w.ents.len(),
        w.ents[i].alive,
        w.ents[j].alive,
        jammed(w, i, j),
        reach_of_both(w, i, j) * reach_of_both(w, i, j) < 65536 * i32::MAX,
        forall|m: int|
            0 <= m < w.ents.len() && m != i && m != j && (#[trigger] w.ents[m]).alive
                ==> reach_of_both(w, i, m) <= i32::MAX && reach_of_both(w, j, m) <= i32::MAX
                && clear(w, i, m) && clear(w, j, m),
        off_the_edge(w, i, reach_of_both(w, i, j) + 1),
        off_the_edge(w, j, reach_of_both(w, i, j) + 1),
    ensures
        ({
            let u = collisions_phase(w);
            let c = reach_of_both(w, i, j);
            let (px, py) = from_to(w.ents[i].pos, u.ents[i].pos);
            let (qx, qy) = from_to(w.ents[j].pos, u.ents[j].pos);
            let (dx, dy) = from_to(w.ents[i].pos, w.ents[j].pos);
            &&& px == -qx
            &&& py == -qy
            &&& along(qx, dx)
            &&& along(qy, dy)
            &&& gap(u.ents[i].pos, u.ents[j].pos) >= gap(w.ents[i].pos, w.ents[j].pos)
            &&& abs_int(gap(u.ents[i].pos, u.ents[j].pos) - c * c) <= c * c / 8192 + 32 * c + 32
        }),
{
    let (a, b) = (w.ents[i], w.ents[j]);
    let c = reach_of_both(w, i, j);
    lemma_population_bound(w.ents, w.next_id);
    assert forall|m: int| 0 <= m < w.ents.len() implies radius_of(w, #[trigger] w.ents[m]).0 >= 0 by {
        let e = w.ents[m];
        crate::race::law_race_positions(e.race(), 0);
        assert(w.races[e.race().at()].radius.0 >= 0);
        law_a_radius_grows_with_size(w, e);
    }
    assert(in_square(w.size, a.pos) && in_square(w.size, b.pos));
    assert(c <= i32::MAX) by (nonlinear_arith)
        requires
            c * c < 65536 * 0x7FFF_FFFF,
            c >= 0,
    ;
    lemma_touch(w, i, j);
    assert forall|m: int| 0 <= m < w.ents.len() && m != i && m != j && (
    #[trigger] w.ents[m]).alive implies !overlap(w, i, m) && !overlap(w, m, i) && !overlap(w, j, m)
        && !overlap(w, m, j) by {
        assert(in_square(w.size, w.ents[m].pos));
        assert(radius_of(w, w.ents[m]).0 >= 0);
        lemma_gap_symmetric(w.ents[i].pos, w.ents[m].pos);
        lemma_gap_symmetric(w.ents[j].pos, w.ents[m].pos);
        lemma_touch(w, i, m);
        lemma_touch(w, m, i);
        lemma_touch(w, j, m);
        lemma_touch(w, m, j);
    }
    assert(alone(w, i, j));
    assert(clearance(w, i, j).times(clearance(w, i, j)).0 < i32::MAX) by {
        let z = c * c;
        lemma_sq(c);
        assert(z / 65536 < 0x7FFF_FFFF);
    }
    law_no_overlap_goes_unseen(w, i, j);
    let n = w.ents.len() as int;
    lemma_pair_pushes(w, n, i, j);
    lemma_push(w, i, j);
    let s = shove(w, i, j);
    let u = collisions_phase(w);
    let (dx, dy) = from_to(a.pos, b.pos);
    let (sx, sy) = (s.x.0 as int, s.y.0 as int);
    assert(u.ents[i].pos.x.0 == a.pos.x.0 - sx && u.ents[i].pos.y.0 == a.pos.y.0 - sy);
    assert(u.ents[j].pos.x.0 == b.pos.x.0 + sx && u.ents[j].pos.y.0 == b.pos.y.0 + sy);
    lemma_longer(dx, sx);
    lemma_longer(dy, sy);
}

proof fn lemma_gap_symmetric(a: V2, b: V2)
    ensures
        gap(a, b) == gap(b, a),
{
    lemma_sq(b.x.0 - a.x.0);
    lemma_sq(b.y.0 - a.y.0);
}

proof fn lemma_longer(d: int, s: int)
    requires
        along(s, d),
    ensures
        (d + 2 * s) * (d + 2 * s) >= d * d,
{
    assert((d + 2 * s) * (d + 2 * s) >= d * d) by (nonlinear_arith)
        requires
            (d >= 0 && s >= 0) || (d <= 0 && s <= 0),
    ;
}

} // verus!
