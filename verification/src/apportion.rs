//! Spreading one amount over many cells without losing a unit of it.
use crate::element::Element;
use crate::fx::{max_int, min_int};
use crate::order::{
    law_sorted_is_a_sorted_permutation, lemma_ascending_len, sort, sorted, Keyed,
};
use crate::race::Race;
use crate::rand::{draw_below, law_draw_below_bound, rand_below, Channel};
use crate::sums::{lemma_sum_bounds, lemma_sum_update, sum_by};
use crate::terrain::{layer, layer_total, lemma_cell_index, spot, Terrain, TerrainV};
use std::collections::BTreeMap;
use vstd::prelude::*;
use vstd::std_specs::btree::*;
use vstd::std_specs::cmp::OrdSpec;
use vstd::std_specs::iter::IteratorSpec;

verus! {

/// `s` holds the entries of `m` in ascending order of cell.
pub open spec fn lists(s: Seq<(u32, u32)>, m: Map<u32, u32>) -> bool {
    &&& forall|i: int, j: int| 0 <= i < j < s.len() ==> (#[trigger] s[i]).0 < (#[trigger] s[j]).0
    &&& forall|i: int| 0 <= i < s.len() ==> m.contains_key((#[trigger] s[i]).0) && m[s[i].0] == s[i].1
    &&& forall|c: u32| #[trigger] m.contains_key(c) ==> s.contains((c, m[c]))
}

/// The entries of `m` in ascending order of cell.
pub open spec fn entries(m: Map<u32, u32>) -> Seq<(u32, u32)> {
    choose|s: Seq<(u32, u32)>| lists(s, m)
}

proof fn lemma_lists_unique(a: Seq<(u32, u32)>, b: Seq<(u32, u32)>, m: Map<u32, u32>)
    requires
        lists(a, m),
        lists(b, m),
    ensures
        a == b,
{
    let ka = a.map_values(|e: (u32, u32)| e.0);
    let kb = b.map_values(|e: (u32, u32)| e.0);
    assert forall|x: u32| ka.contains(x) <==> kb.contains(x) by {
        if ka.contains(x) {
            let i = ka.index_of(x);
            assert(m.contains_key(a[i].0));
            let j = b.index_of((x, m[x]));
            assert(kb[j] == x);
        }
        if kb.contains(x) {
            let i = kb.index_of(x);
            assert(m.contains_key(b[i].0));
            let j = a.index_of((x, m[x]));
            assert(ka[j] == x);
        }
    }
    crate::order::lemma_ascending_unique(ka, kb);
    assert forall|i: int| 0 <= i < a.len() implies a[i] == b[i] by {
        assert(ka[i] == kb[i]);
        assert(m[a[i].0] == a[i].1);
        assert(m[b[i].0] == b[i].1);
    }
    assert(a.len() == ka.len() && b.len() == kb.len());
    assert(a =~= b);
}

/// The entries of a map in ascending order of cell.
fn list(m: &BTreeMap<u32, u32>) -> (v: Vec<(u32, u32)>)
    ensures
        v@ == entries(m@),
        lists(v@, m@),
{
    broadcast use group_btree_axioms, vstd::laws_cmp::group_laws_cmp;

    let entry_iter = m.iter();
    let ghost all = entry_iter.remaining();
    let ghost keys = all.map_values(|kv: (&u32, &u32)| *kv.0);
    proof {
        assert(increasing_seq(keys));
        assert forall|i: int, j: int| 0 <= i < j < all.len() implies *all[i].0 < *all[j].0 by {
            assert(keys[i].cmp_spec(&keys[j]) is Less);
        }
    }
    let mut v: Vec<(u32, u32)> = Vec::new();
    for e in it: entry_iter
        invariant
            it.seq() == all,
            v@.len() == it.index(),
            forall|i: int| 0 <= i < v@.len() ==> v@[i] == (*all[i].0, *all[i].1),
    {
        v.push((*e.0, *e.1));
    }
    proof {
        assert forall|i: int| 0 <= i < v@.len() implies m@.contains_key((#[trigger] v@[i]).0)
            && m@[v@[i].0] == v@[i].1 by {
            assert(m@.contains_key(*all[i].0));
        }
        assert forall|c: u32| #[trigger] m@.contains_key(c) implies v@.contains((c, m@[c])) by {
            assert(all.contains((&c, &m@[c])));
            let i = all.index_of((&c, &m@[c]));
            assert(v@[i] == (c, m@[c]));
        }
    }
    assert(lists(v@, m@));
    proof {
        lemma_lists_unique(v@, entries(m@), m@);
    }
    v
}

// ----------------------------------------------------------------------
// Shares.
// ----------------------------------------------------------------------

/// The weight of an entry.
pub open spec fn weight_of() -> spec_fn((u32, u32)) -> int {
    |e: (u32, u32)| e.1 as int
}

/// The whole units of `total` that are an entry's by its weight of `w`.
pub open spec fn base_of(total: int, w: int) -> spec_fn((u32, u32)) -> int {
    |e: (u32, u32)| (total * e.1) / w
}

/// What is left of an entry's share after the whole units, in parts of `w`.
pub open spec fn frac_of(total: int, w: int) -> spec_fn((u32, u32)) -> int {
    |e: (u32, u32)| (total * e.1) % w
}

/// An amount, as a number.
pub open spec fn amount_of() -> spec_fn(u64) -> int {
    |a: u64| a as int
}

/// A claim on one of the units that rounding has left over.
#[derive(Clone, Copy, Debug)]
pub struct Claim {
    /// Which entry claims.
    pub at: usize,
    /// What rounding took from it.
    pub frac: u64,
    /// Breaks ties, lowest first.
    pub tie: u32,
}

/// Larger fractions come first, then lower ties.
impl Keyed for Claim {
    open spec fn key(&self) -> int {
        self.tie - self.frac * 0x1_0000_0000
    }

    fn after(&self, other: &Self) -> (r: bool) {
        self.frac < other.frac || (self.frac == other.frac && self.tie > other.tie)
    }
}

/// What separates the draws of one race and direction from all others.
pub open spec fn salt_of(race: Race, add: bool) -> u32 {
    (race.at() * 2 + (if add {
        0int
    } else {
        1
    })) as u32
}

/// The tie-break of a cell: it rotates with the terrain tick, so that no cell
/// wins every leftover unit.
pub open spec fn tie_of(seed: u64, terrain_tick: u64, cell: u32, salt: u32) -> u32 {
    draw_below(
        seed,
        terrain_tick,
        cell.wrapping_mul(0x9E37_79B1).wrapping_add(salt),
        Channel::Terrain,
        u32::MAX,
    ) as u32
}

/// The claims of the entries.
pub open spec fn claims(es: Seq<(u32, u32)>, total: int, seed: u64, terrain_tick: u64, salt: u32) -> Seq<Claim> {
    let w = sum_by(es, weight_of());
    Seq::new(
        es.len(),
        |i: int|
            Claim {
                at: i as usize,
                frac: frac_of(total, w)(es[i]) as u64,
                tie: tie_of(seed, terrain_tick, es[i].0, salt),
            },
    )
}

/// The amounts after the first `k` claims have been granted a unit each.
pub open spec fn topped(amounts: Seq<u64>, s: Seq<Claim>, k: int) -> Seq<u64>
    decreases k,
{
    if k <= 0 {
        amounts
    } else {
        let a = topped(amounts, s, k - 1);
        let i = s[k - 1].at as int;
        a.update(i, (a[i] + 1) as u64)
    }
}

/// The amounts of the entries before the leftover units are granted.
pub open spec fn bases(es: Seq<(u32, u32)>, total: int) -> Seq<u64> {
    let w = sum_by(es, weight_of());
    Seq::new(es.len(), |i: int| base_of(total, w)(es[i]) as u64)
}

/// `total` shared out among the entries in proportion to their weights, by
/// largest remainder.
pub open spec fn weighted(es: Seq<(u32, u32)>, total: int, seed: u64, terrain_tick: u64, salt: u32) -> Seq<u64> {
    let b = bases(es, total);
    topped(
        b,
        sorted(claims(es, total, seed, terrain_tick, salt)),
        total - sum_by(b, amount_of()),
    )
}

/// `total` shared out evenly among `n` cells.
pub open spec fn even(total: int, n: int) -> Seq<u64> {
    Seq::new(
        n as nat,
        |i: int|
            (total / n + (if i < total % n {
                1
            } else {
                0int
            })) as u64,
    )
}

/// All `n` cells, from `start` on and around.
pub open spec fn around(start: int, n: int) -> Seq<u32> {
    Seq::new(n as nat, |i: int| ((start + i) % n) as u32)
}

/// Rounding down leaves less than one unit for each entry.
proof fn lemma_rounding(es: Seq<(u32, u32)>, total: int, w: int)
    requires
        0 <= total,
        w >= 1,
    ensures
        w * sum_by(es, base_of(total, w)) + sum_by(es, frac_of(total, w)) == total * sum_by(
            es,
            weight_of(),
        ),
        0 <= sum_by(es, frac_of(total, w)) <= (w - 1) * es.len(),
        0 <= sum_by(es, base_of(total, w)),
    decreases es.len(),
{
    if es.len() > 0 {
        let p = es.drop_last();
        let e = es.last();
        lemma_rounding(p, total, w);
        let num = total * e.1;
        let (b, f) = (num / w, num % w);
        let (sb, sw) = (sum_by(p, base_of(total, w)), sum_by(p, weight_of()));
        assert(0 <= num) by (nonlinear_arith)
            requires
                0 <= total,
                num == total * e.1,
                0 <= e.1,
        ;
        assert(num == w * b + f && 0 <= f < w && 0 <= b) by (nonlinear_arith)
            requires
                w >= 1,
                0 <= num,
                b == num / w,
                f == num % w,
        ;
        assert(w * (sb + b) == w * sb + w * b) by (nonlinear_arith);
        assert(total * (sw + e.1) == total * sw + total * e.1) by (nonlinear_arith);
        assert((w - 1) * es.len() == (w - 1) * p.len() + (w - 1)) by (nonlinear_arith)
            requires
                es.len() == p.len() + 1,
        ;
    } else {
        assert(w * 0 == 0 && total * 0 == 0 && (w - 1) * 0 == 0) by (nonlinear_arith);
    }
}

pub(crate) proof fn lemma_bases(es: Seq<(u32, u32)>, total: int)
    requires
        0 <= total <= u64::MAX,
        sum_by(es, weight_of()) >= 1,
    ensures
        ({
            let w = sum_by(es, weight_of());
            &&& sum_by(bases(es, total), amount_of()) == sum_by(es, base_of(total, w))
            &&& 0 <= total - sum_by(bases(es, total), amount_of()) <= es.len()
            &&& forall|i: int|
                0 <= i < es.len() ==> 0 <= #[trigger] base_of(total, w)(es[i]) <= total
        }),
{
    let w = sum_by(es, weight_of());
    let f = base_of(total, w);
    lemma_rounding(es, total, w);
    lemma_sum_bounds(es, weight_of());
    assert forall|i: int| 0 <= i < es.len() implies 0 <= #[trigger] f(es[i]) <= total by {
        assert(weight_of()(es[i]) <= w);
        let x = es[i].1 as int;
        assert(0 <= (total * x) / w <= total) by (nonlinear_arith)
            requires
                0 <= x <= w,
                w >= 1,
                0 <= total,
        ;
    }
    let b = bases(es, total);
    assert forall|i: int| 0 <= i < es.len() implies amount_of()(#[trigger] b[i]) == f(es[i]) by {}
    crate::sums::lemma_sum_eq(b, es, amount_of(), f);
    let (sb, sf, n) = (sum_by(es, f), sum_by(es, frac_of(total, w)), es.len() as int);
    assert(0 <= total - sb <= n) by (nonlinear_arith)
        requires
            w * sb + sf == total * w,
            0 <= sf <= (w - 1) * n,
            w >= 1,
            n >= 0,
    ;
}

proof fn lemma_topped(amounts: Seq<u64>, s: Seq<Claim>, k: int)
    requires
        0 <= k <= s.len(),
        forall|i: int| 0 <= i < s.len() ==> (#[trigger] s[i]).at < amounts.len(),
        sum_by(amounts, amount_of()) + k <= u64::MAX,
    ensures
        topped(amounts, s, k).len() == amounts.len(),
        sum_by(topped(amounts, s, k), amount_of()) == sum_by(amounts, amount_of()) + k,
        forall|i: int|
            0 <= i < amounts.len() ==> (#[trigger] topped(amounts, s, k)[i]) <= sum_by(
                amounts,
                amount_of(),
            ) + k,
    decreases k,
{
    if k > 0 {
        lemma_topped(amounts, s, k - 1);
        let a = topped(amounts, s, k - 1);
        let i = s[k - 1].at as int;
        lemma_sum_update(a, i, (a[i] + 1) as u64, amount_of());
    }
    let b = topped(amounts, s, k);
    lemma_sum_bounds(b, amount_of());
    assert forall|i: int| 0 <= i < b.len() implies #[trigger] b[i] <= sum_by(b, amount_of()) by {
        assert(amount_of()(b[i]) <= sum_by(b, amount_of()));
    }
}

pub(crate) proof fn lemma_sorted_claims(c: Seq<Claim>, n: int)
    requires
        forall|i: int| 0 <= i < c.len() ==> (#[trigger] c[i]).at < n,
    ensures
        sorted(c).len() == c.len(),
        forall|i: int| 0 <= i < sorted(c).len() ==> (#[trigger] sorted(c)[i]).at < n,
{
    broadcast use vstd::seq_lib::group_to_multiset_ensures;

    law_sorted_is_a_sorted_permutation(c);
    let s = sorted(c);
    assert forall|i: int| 0 <= i < s.len() implies (#[trigger] s[i]).at < n by {
        assert(s.to_multiset().contains(s[i]));
        assert(c.to_multiset().contains(s[i]));
        assert(c.contains(s[i]));
    }
}

/// Shares by weight sum to exactly what was shared out.
pub proof fn law_weighted_shares_sum_to_the_total(
    es: Seq<(u32, u32)>,
    total: u64,
    seed: u64,
    terrain_tick: u64,
    salt: u32,
)
    requires
        sum_by(es, weight_of()) >= 1,
        es.len() <= usize::MAX,
    ensures
        weighted(es, total as int, seed, terrain_tick, salt).len() == es.len(),
        sum_by(weighted(es, total as int, seed, terrain_tick, salt), amount_of()) == total,
{
    lemma_bases(es, total as int);
    let c = claims(es, total as int, seed, terrain_tick, salt);
    lemma_sorted_claims(c, es.len() as int);
    let b = bases(es, total as int);
    lemma_topped(b, sorted(c), total - sum_by(b, amount_of()));
}

pub(crate) proof fn lemma_even(total: int, n: int, k: int)
    requires
        0 <= total <= u64::MAX,
        1 <= n,
        0 <= k <= n,
    ensures
        sum_by(even(total, n).take(k), amount_of()) == k * (total / n) + min_int(k, total % n),
        0 <= total / n <= total,
        0 <= total % n < n,
        total == n * (total / n) + total % n,
    decreases k,
{
    assert(0 <= total / n <= total && 0 <= total % n < n && total == n * (total / n) + total % n)
        by (nonlinear_arith)
        requires
            0 <= total,
            1 <= n,
    ;
    let s = even(total, n);
    if k > 0 {
        lemma_even(total, n, k - 1);
        assert(s.take(k).drop_last() =~= s.take(k - 1));
        let q = total / n;
        assert(k * q == (k - 1) * q + q) by (nonlinear_arith);
        assert(q + 1 <= u64::MAX || total % n == 0) by (nonlinear_arith)
            requires
                total == n * q + total % n,
                1 <= n,
                0 <= q <= total,
                total <= u64::MAX,
                0 <= total % n,
        ;
    } else {
        assert(0 * (total / n) == 0) by (nonlinear_arith);
    }
}

/// Even shares sum to exactly what was shared out.
pub proof fn law_even_shares_sum_to_the_total(total: u64, n: int)
    requires
        1 <= n,
    ensures
        even(total as int, n).len() == n,
        sum_by(even(total as int, n), amount_of()) == total,
{
    lemma_even(total as int, n, n);
    assert(even(total as int, n).take(n) =~= even(total as int, n));
}

// ----------------------------------------------------------------------
// Writing the shares into the grid.
// ----------------------------------------------------------------------

/// What a stock of `before` becomes when `amount` is added or taken, within
/// what a cell can hold.
pub open spec fn poured_stock(before: u16, amount: u64, add: bool) -> u16 {
    let v = min_int(amount as int, 65535);
    if add {
        min_int(before + v, 65535) as u16
    } else {
        max_int(before - v, 0) as u16
    }
}

/// The grid after the first `n` amounts have been written to their cells, and
/// how much that has moved.
pub open spec fn poured(
    t: TerrainV,
    e: Element,
    cells: Seq<u32>,
    amounts: Seq<u64>,
    add: bool,
    n: int,
) -> (TerrainV, int)
    decreases n,
{
    if n <= 0 {
        (t, 0)
    } else {
        let (u, moved) = poured(t, e, cells, amounts, add, n - 1);
        let c = spot(t.side, cells[n - 1]);
        let before = u.stock(c, e);
        let after = poured_stock(before, amounts[n - 1], add);
        (
            u.with_stock(c, e, after),
            moved + (if add {
                after - before
            } else {
                before - after
            }),
        )
    }
}

/// What is moved is what the layer gains or loses, and never more than the
/// amounts come to; each cell that has the room takes its whole amount.
pub proof fn law_pouring_moves_what_it_reports(
    t: TerrainV,
    e: Element,
    cells: Seq<u32>,
    amounts: Seq<u64>,
    add: bool,
    n: int,
)
    requires
        t.wf(),
        0 <= n <= amounts.len(),
    ensures
        ({
            let (u, moved) = poured(t, e, cells, amounts, add, n);
            &&& u.wf()
            &&& u.side == t.side
            &&& u.overflow == t.overflow
            &&& 0 <= moved <= sum_by(amounts.take(n), amount_of())
            &&& moved <= 65535 * n
            &&& layer_total(u, e.at()) == layer_total(t, e.at()) + (if add {
                moved
            } else {
                -moved
            })
        }),
    decreases n,
{
    if n > 0 {
        law_pouring_moves_what_it_reports(t, e, cells, amounts, add, n - 1);
        let (u, moved) = poured(t, e, cells, amounts, add, n - 1);
        let (x, y) = (cells[n - 1] as int % t.side, cells[n - 1] as int / t.side);
        let c = spot(t.side, cells[n - 1]);
        lemma_cell_index(t.side, x, y);
        let before = u.stock(c, e);
        let after = poured_stock(before, amounts[n - 1], add);
        lemma_sum_update(u.cells, c, u.cells[c].update(e.at(), after), layer(e.at()));
        assert(amounts.take(n).drop_last() =~= amounts.take(n - 1));
        let v = u.with_stock(c, e, after);
        assert forall|i: int| 0 <= i < v.cells.len() implies (#[trigger] v.cells[i]).len() == 5 by {
            assert(u.cells[i].len() == 5);
            assert(u.cells[c].len() == 5);
        }
    }
}

/// The grid after `total` of `e` has been spread over it, or taken from it,
/// and how much that has moved. It goes by the weights; where all of them are
/// 0 it is spread evenly over the whole grid, from a cell that is drawn.
pub open spec fn apportioned(
    t: TerrainV,
    e: Element,
    total: u64,
    weight: Map<u32, u32>,
    seed: u64,
    terrain_tick: u64,
    add: bool,
    race: Race,
) -> (TerrainV, int) {
    let es = entries(weight);
    let salt = salt_of(race, add);
    let n = t.side * t.side;
    if total == 0 {
        (t, 0)
    } else if sum_by(es, weight_of()) == 0 {
        let start = draw_below(seed, terrain_tick, salt, Channel::Terrain, n as u32);
        poured(t, e, around(start, n), even(total as int, n), add, n)
    } else {
        poured(
            t,
            e,
            es.map_values(|x: (u32, u32)| x.0),
            weighted(es, total as int, seed, terrain_tick, salt),
            add,
            es.len() as int,
        )
    }
}

/// Spreading moves what it reports and never more than it was given.
pub proof fn law_apportioning_is_accounted_for(
    t: TerrainV,
    e: Element,
    total: u64,
    weight: Map<u32, u32>,
    seed: u64,
    terrain_tick: u64,
    add: bool,
    race: Race,
)
    requires
        t.wf(),
        lists(entries(weight), weight),
        entries(weight).len() <= usize::MAX,
    ensures
        ({
            let (u, moved) = apportioned(t, e, total, weight, seed, terrain_tick, add, race);
            &&& u.wf()
            &&& 0 <= moved <= total
            &&& layer_total(u, e.at()) == layer_total(t, e.at()) + (if add {
                moved
            } else {
                -moved
            })
        }),
{
    let es = entries(weight);
    let salt = salt_of(race, add);
    let n = t.side * t.side;
    lemma_sum_bounds(es, weight_of());
    crate::diffusion::lemma_grid(t.side);
    if total == 0 {
    } else if sum_by(es, weight_of()) == 0 {
        let start = draw_below(seed, terrain_tick, salt, Channel::Terrain, n as u32);
        let a = even(total as int, n);
        law_even_shares_sum_to_the_total(total, n);
        law_pouring_moves_what_it_reports(t, e, around(start, n), a, add, n);
        assert(a.take(n) =~= a);
    } else {
        let a = weighted(es, total as int, seed, terrain_tick, salt);
        law_weighted_shares_sum_to_the_total(es, total, seed, terrain_tick, salt);
        let cells = es.map_values(|x: (u32, u32)| x.0);
        law_pouring_moves_what_it_reports(t, e, cells, a, add, es.len() as int);
        assert(a.take(es.len() as int) =~= a);
    }
}

// ----------------------------------------------------------------------
// The code.
// ----------------------------------------------------------------------

proof fn lemma_weights(es: Seq<(u32, u32)>, m: Map<u32, u32>, k: int)
    requires
        lists(es, m),
        0 <= k <= es.len(),
    ensures
        es.len() <= 0x1_0000_0000,
        0 <= sum_by(es.take(k), weight_of()) <= k * 0xFFFF_FFFF,
    decreases k,
{
    let keys = es.map_values(|e: (u32, u32)| e.0);
    assert forall|i: int, j: int| 0 <= i < j < keys.len() implies keys[i] < keys[j] by {
        assert(es[i].0 < es[j].0);
    }
    lemma_ascending_len(keys, 0x1_0000_0000);
    if k > 0 {
        lemma_weights(es, m, k - 1);
        assert(es.take(k).drop_last() =~= es.take(k - 1));
    }
}

/// The sum of the weights.
fn weigh(es: &Vec<(u32, u32)>, m: Ghost<Map<u32, u32>>) -> (w: u64)
    requires
        lists(es@, m@),
    ensures
        w == sum_by(es@, weight_of()),
        es@.len() <= 0x1_0000_0000,
{
    let ghost s = es@;
    proof {
        lemma_weights(s, m@, 0);
    }
    let mut w: u64 = 0;
    let mut i: usize = 0;
    while i < es.len()
        invariant
            s == es@,
            i <= s.len(),
            s.len() <= 0x1_0000_0000,
            lists(s, m@),
            w == sum_by(s.take(i as int), weight_of()),
            w <= i * 0xFFFF_FFFF,
        decreases es.len() - i,
    {
        proof {
            assert(s.take(i + 1).drop_last() =~= s.take(i as int));
        }
        w = w + es[i].1 as u64;
        i = i + 1;
    }
    assert(s.take(i as int) =~= s);
    w
}

/// What one entry gets before leftover units are granted, and what rounding
/// took from it.
fn divide(total: u64, weight: u32, all: u64) -> (r: (u64, u64))
    requires
        weight <= all,
        1 <= all,
    ensures
        r.0 == (total * weight) / (all as int),
        r.1 == (total * weight) % (all as int),
        r.0 <= total,
{
    proof {
        let (t, x, a) = (total as int, weight as int, all as int);
        assert(0 <= t * x <= 0xFFFF_FFFF_FFFF_FFFF * 0xFFFF_FFFF) by (nonlinear_arith)
            requires
                0 <= t <= 0xFFFF_FFFF_FFFF_FFFF,
                0 <= x <= 0xFFFF_FFFF,
        ;
        assert(0 <= (t * x) / a <= t && 0 <= (t * x) % a < a) by (nonlinear_arith)
            requires
                0 <= x <= a,
                1 <= a,
                0 <= t,
        ;
    }
    let num: u128 = total as u128 * weight as u128;
    ((num / all as u128) as u64, (num % all as u128) as u64)
}

/// Share `total` out among the entries by their weights.
fn share(es: &Vec<(u32, u32)>, total: u64, all: u64, seed: u64, terrain_tick: u64, salt: u32) -> (r: Vec<
    u64,
>)
    requires
        all == sum_by(es@, weight_of()),
        1 <= all,
    ensures
        r@ == weighted(es@, total as int, seed, terrain_tick, salt),
{
    let ghost s = es@;
    let ghost b = bases(s, total as int);
    proof {
        lemma_bases(s, total as int);
        lemma_sum_bounds(s, weight_of());
    }
    let mut amounts: Vec<u64> = Vec::new();
    let mut wanted: Vec<Claim> = Vec::new();
    let mut assigned: u64 = 0;
    let mut i: usize = 0;
    while i < es.len()
        invariant
            s == es@,
            i <= s.len(),
            all == sum_by(s, weight_of()),
            1 <= all,
            b == bases(s, total as int),
            sum_by(b, amount_of()) <= total,
            forall|j: int|
                0 <= j < s.len() ==> weight_of()(#[trigger] s[j]) <= sum_by(s, weight_of()),
            amounts@ == b.take(i as int),
            wanted@ == claims(s, total as int, seed, terrain_tick, salt).take(i as int),
            assigned == sum_by(b.take(i as int), amount_of()),
        decreases es.len() - i,
    {
        let (cell, weight): (u32, u32) = es[i];
        assert(weight_of()(s[i as int]) <= all);
        let (base, frac): (u64, u64) = divide(total, weight, all);
        proof {
            assert(b[i as int] == base);
            assert(b.take(i + 1).drop_last() =~= b.take(i as int));
            crate::sums::lemma_sum_prefix(b, i + 1, amount_of());
            law_draw_below_bound(
                seed,
                terrain_tick,
                cell.wrapping_mul(0x9E37_79B1).wrapping_add(salt),
                Channel::Terrain,
                u32::MAX,
            );
        }
        assigned = assigned + base;
        amounts.push(base);
        let tie: u32 = rand_below(
            seed,
            terrain_tick,
            cell.wrapping_mul(0x9E37_79B1).wrapping_add(salt),
            Channel::Terrain,
            u32::MAX,
        );
        wanted.push(Claim { at: i, frac, tie });
        i = i + 1;
        assert(amounts@ =~= b.take(i as int));
        assert(wanted@ =~= claims(s, total as int, seed, terrain_tick, salt).take(i as int));
    }
    assert(b.take(i as int) =~= b);
    let ghost c = claims(s, total as int, seed, terrain_tick, salt);
    assert(c.take(i as int) =~= c);
    let order: Vec<Claim> = sort(&wanted);
    let left: u64 = total - assigned;
    proof {
        lemma_sorted_claims(c, s.len() as int);
        lemma_topped(b, order@, left as int);
    }
    let mut k: u64 = 0;
    while k < left
        invariant
            k <= left <= order@.len(),
            left + sum_by(b, amount_of()) <= u64::MAX,
            amounts@ == topped(b, order@, k as int),
            forall|j: int| 0 <= j < order@.len() ==> (#[trigger] order@[j]).at < b.len(),
        decreases left - k,
    {
        proof {
            lemma_topped(b, order@, k as int);
        }
        let at: usize = order[k as usize].at;
        amounts[at] = amounts[at] + 1;
        k = k + 1;
    }
    amounts
}

/// Write amounts into the grid and report how much that moved.
fn pour(terrain: &mut Terrain, target: Element, cells: &Vec<u32>, amounts: &Vec<u64>, add: bool) -> (r: u64)
    requires
        old(terrain)@.wf(),
        cells@.len() == amounts@.len(),
        cells@.len() <= 0x1_0000_0000,
    ensures
        (final(terrain)@, r as int) == poured(
            old(terrain)@,
            target,
            cells@,
            amounts@,
            add,
            cells@.len() as int,
        ),
{
    let ghost t = terrain@;
    let mut moved: u64 = 0;
    let mut i: usize = 0;
    while i < cells.len()
        invariant
            i <= cells@.len(),
            t.wf(),
            cells@.len() == amounts@.len(),
            cells@.len() <= 0x1_0000_0000,
            (terrain@, moved as int) == poured(t, target, cells@, amounts@, add, i as int),
        decreases cells.len() - i,
    {
        proof {
            law_pouring_moves_what_it_reports(t, target, cells@, amounts@, add, i as int);
            lemma_cell_index(
                t.side,
                cells@[i as int] as int % t.side,
                cells@[i as int] as int / t.side,
            );
        }
        let ghost u = terrain@;
        let (x, y): (i32, i32) = terrain.xy_of(cells[i]);
        let v: u16 = if amounts[i] < 65535 {
            amounts[i] as u16
        } else {
            65535
        };
        let before: u16 = *terrain.cell(x, y).get(target);
        let after: u16 = if add {
            before.saturating_add(v)
        } else {
            before.saturating_sub(v)
        };
        terrain.cell_mut(x, y).set(target, after);
        moved = moved + (if add {
            after - before
        } else {
            before - after
        }) as u64;
        proof {
            let c = spot(t.side, cells@[i as int]);
            assert(terrain@ =~= u.with_stock(c, target, after));
        }
        i = i + 1;
    }
    moved
}

/// Spread `total` of `target` over the cells of `weight` in proportion to
/// their weights, or take it from them, and return how much was moved. By
/// largest remainder the shares sum to exactly `total`; a cell that is full,
/// or empty, moves less than its share. Where nothing has weight, the whole
/// grid shares evenly.
pub fn apportion(
    terrain: &mut Terrain,
    target: Element,
    total: u64,
    weight: &BTreeMap<u32, u32>,
    seed: u64,
    terrain_tick: u64,
    add: bool,
    race: Race,
) -> (r: u64)
    requires
        old(terrain)@.wf(),
    ensures
        (final(terrain)@, r as int) == apportioned(
            old(terrain)@,
            target,
            total,
            weight@,
            seed,
            terrain_tick,
            add,
            race,
        ),
        final(terrain)@.wf(),
        r <= total,
        layer_total(final(terrain)@, target.at()) == layer_total(old(terrain)@, target.at()) + (
        if add {
            r as int
        } else {
            -r
        }),
{
    let ghost t = terrain@;
    let es: Vec<(u32, u32)> = list(weight);
    let all: u64 = weigh(&es, Ghost(weight@));
    proof {
        law_apportioning_is_accounted_for(
            t,
            target,
            total,
            weight@,
            seed,
            terrain_tick,
            add,
            race,
        );
        crate::race::law_race_positions(race, 0);
        crate::diffusion::lemma_grid(t.side);
    }
    if total == 0 {
        return 0;
    }
    let salt: u32 = race.index() as u32 * 2 + (if add {
        0
    } else {
        1
    });
    let mut cells: Vec<u32> = Vec::new();
    if all == 0 {
        let n: u64 = terrain.side as u64 * terrain.side as u64;
        let start: u32 = rand_below(seed, terrain_tick, salt, Channel::Terrain, n as u32);
        let ghost c = around(start as int, n as int);
        let ghost a = even(total as int, n as int);
        let mut amounts: Vec<u64> = Vec::new();
        let mut i: u64 = 0;
        proof {
            lemma_even(total as int, n as int, 0);
        }
        while i < n
            invariant
                i <= n,
                1 <= n <= u32::MAX,
                total == n * (total as int / n as int) + total as int % n as int,
                c == around(start as int, n as int),
                a == even(total as int, n as int),
                cells@ == c.take(i as int),
                amounts@ == a.take(i as int),
            decreases n - i,
        {
            let (q, rest): (u64, u64) = (total / n, total % n);
            proof {
                assert(q + 1 <= u64::MAX || rest == 0) by (nonlinear_arith)
                    requires
                        total == n * q + rest,
                        1 <= n,
                        0 <= rest,
                        total <= u64::MAX,
                ;
            }
            cells.push(((start as u64 + i) % n) as u32);
            amounts.push(
                if i < rest {
                    q + 1
                } else {
                    q
                },
            );
            i = i + 1;
            assert(cells@ =~= c.take(i as int));
            assert(amounts@ =~= a.take(i as int));
        }
        assert(c.take(n as int) =~= c);
        assert(a.take(n as int) =~= a);
        return pour(terrain, target, &cells, &amounts, add);
    }
    let amounts: Vec<u64> = share(&es, total, all, seed, terrain_tick, salt);
    let ghost c = es@.map_values(|x: (u32, u32)| x.0);
    let mut i: usize = 0;
    while i < es.len()
        invariant
            i <= es@.len(),
            c == es@.map_values(|x: (u32, u32)| x.0),
            cells@ == c.take(i as int),
        decreases es.len() - i,
    {
        cells.push(es[i].0);
        i = i + 1;
        assert(cells@ =~= c.take(i as int));
    }
    assert(c.take(i as int) =~= c);
    proof {
        law_weighted_shares_sum_to_the_total(es@, total, seed, terrain_tick, salt);
    }
    pour(terrain, target, &cells, &amounts, add)
}

} // verus!
