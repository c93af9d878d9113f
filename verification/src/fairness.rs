//! Who gets how much of what is shared out.
//!
//! Every cell gets its part by weight, to within a unit; the units that
//! rounding leaves over go where it took the most. Where no cell has weight all
//! get the same, to within a unit.
use crate::apportion::{
    amount_of, apportioned, base_of, bases, claims, entries, even, lemma_bases, lemma_even, lists,
    poured, salt_of, topped, weight_of, weighted, Claim,
};
use crate::element::Element;
use crate::order::{law_sorted_is_a_sorted_permutation, sorted, Keyed};
use crate::race::Race;
use crate::sums::{lemma_sum_bounds, sum_by};
use crate::terrain::{spot, TerrainV};
use vstd::prelude::*;

verus! {

// ----------------------------------------------------------------------
// Shares.
// ----------------------------------------------------------------------

proof fn lemma_claims_apart(c: Seq<Claim>)
    requires
        forall|i: int| 0 <= i < c.len() ==> (#[trigger] c[i]).at == i,
    ensures
        forall|a: int, b: int|
            0 <= a < b < sorted(c).len() ==> (#[trigger] sorted(c)[a]).at != (
            #[trigger] sorted(c)[b]).at,
        forall|a: int|
            0 <= a < sorted(c).len() ==> (#[trigger] sorted(c)[a]).at < c.len() && sorted(c)[a]
                == c[sorted(c)[a].at as int],
        forall|i: int| 0 <= i < c.len() ==> sorted(c).contains(#[trigger] c[i]),
{
    broadcast use vstd::seq_lib::group_to_multiset_ensures;

    law_sorted_is_a_sorted_permutation(c);
    let s = sorted(c);
    assert(c.no_duplicates());
    c.lemma_multiset_has_no_duplicates();
    s.lemma_multiset_has_no_duplicates_conv();
    assert forall|a: int| 0 <= a < s.len() implies (#[trigger] s[a]).at < c.len() && s[a]
        == c[s[a].at as int] by {
        assert(s.contains(s[a]));
        assert(s.to_multiset().count(s[a]) > 0);
        assert(c.to_multiset().count(s[a]) > 0);
        assert(c.contains(s[a]));
        let i = c.index_of(s[a]);
        assert(c[i].at == i);
    }
    assert forall|a: int, b: int| 0 <= a < b < s.len() implies (#[trigger] s[a]).at != (
    #[trigger] s[b]).at by {
        assert(s[a] == c[s[a].at as int] && s[b] == c[s[b].at as int]);
        assert(s[a] != s[b]);
    }
    assert forall|i: int| 0 <= i < c.len() implies s.contains(#[trigger] c[i]) by {
        assert(c.contains(c[i]));
        assert(c.to_multiset().count(c[i]) > 0);
        assert(s.to_multiset().count(c[i]) > 0);
    }
}

/// Entry `i` is among those whose claims come first.
spec fn topped_up(s: Seq<Claim>, k: int, i: int) -> bool {
    exists|a: int| 0 <= a < k && (#[trigger] s[a]).at == i
}

proof fn lemma_topped_each(amounts: Seq<u64>, s: Seq<Claim>, k: int, i: int)
    requires
        0 <= k <= s.len(),
        0 <= i < amounts.len(),
        k > 0 ==> amounts[i] < u64::MAX,
        forall|a: int| 0 <= a < s.len() ==> (#[trigger] s[a]).at < amounts.len(),
        forall|a: int, b: int|
            0 <= a < b < s.len() ==> (#[trigger] s[a]).at != (#[trigger] s[b]).at,
    ensures
        topped(amounts, s, k).len() == amounts.len(),
        topped(amounts, s, k)[i] == amounts[i] + (if topped_up(s, k, i) {
            1
        } else {
            0int
        }),
    decreases k,
{
    if k > 0 {
        lemma_topped_each(amounts, s, k - 1, i);
        let j = s[k - 1].at as int;
        assert(j < amounts.len());
        if j == i {
            assert(topped_up(s, k, i));
            if topped_up(s, k - 1, i) {
                let a = choose|a: int| 0 <= a < k - 1 && (#[trigger] s[a]).at == i;
                assert(s[a].at != s[k - 1].at);
            }
        } else {
            if topped_up(s, k, i) {
                let a = choose|a: int| 0 <= a < k && (#[trigger] s[a]).at == i;
                assert(a < k - 1);
            }
            if topped_up(s, k - 1, i) {
                let a = choose|a: int| 0 <= a < k - 1 && (#[trigger] s[a]).at == i;
                assert(s[a].at == i);
            }
        }
    }
}

/// All the weight there is.
pub open spec fn whole(es: Seq<(u32, u32)>) -> int {
    sum_by(es, weight_of())
}

/// What is an entry's by its weight, in whole units.
#[verifier::opaque]
pub open spec fn part(total: int, weight: int, whole: int) -> int {
    total * weight / whole
}

/// What rounding takes off that.
#[verifier::opaque]
pub open spec fn rest(total: int, weight: int, whole: int) -> int {
    total * weight % whole
}

/// Every entry gets its part by weight, rounded down or up to a unit. Those
/// that are rounded up had at least as much taken off as those that are rounded
/// down.
pub proof fn law_shares_go_by_weight(
    es: Seq<(u32, u32)>,
    total: u64,
    seed: u64,
    terrain_tick: u64,
    salt: u32,
    i: int,
    j: int,
)
    requires
        whole(es) >= 1,
        whole(es) <= u64::MAX,
        es.len() <= usize::MAX,
        0 <= i < es.len(),
        0 <= j < es.len(),
    ensures
        ({
            let a = weighted(es, total as int, seed, terrain_tick, salt);
            let w = whole(es);
            let (x, y) = (es[i].1 as int, es[j].1 as int);
            let t = total as int;
            &&& a.len() == es.len()
            &&& part(t, x, w) <= a[i] <= part(t, x, w) + 1
            &&& a[i] == part(t, x, w) + 1 && a[j] == part(t, y, w) ==> rest(t, x, w) >= rest(
                t,
                y,
                w,
            )
        }),
{
    let t = total as int;
    let w = whole(es);
    let c = claims(es, t, seed, terrain_tick, salt);
    let s = sorted(c);
    let k = total - sum_by(bases(es, t), amount_of());
    lemma_share(es, total, seed, terrain_tick, salt, i);
    lemma_share(es, total, seed, terrain_tick, salt, j);
    if topped_up(s, k, i) && !topped_up(s, k, j) {
        lemma_rounded_up_first(es, total, seed, terrain_tick, salt, i, j, k);
    }
}

proof fn lemma_claims_are(es: Seq<(u32, u32)>, total: int, seed: u64, terrain_tick: u64, salt: u32)
    requires
        es.len() <= usize::MAX,
    ensures
        ({
            let c = claims(es, total, seed, terrain_tick, salt);
            &&& c.len() == es.len()
            &&& forall|a: int| 0 <= a < c.len() ==> (#[trigger] c[a]).at == a
        }),
{
}

/// The share of one entry.
proof fn lemma_share(
    es: Seq<(u32, u32)>,
    total: u64,
    seed: u64,
    terrain_tick: u64,
    salt: u32,
    i: int,
)
    requires
        whole(es) >= 1,
        es.len() <= usize::MAX,
        0 <= i < es.len(),
    ensures
        ({
            let t = total as int;
            let a = weighted(es, t, seed, terrain_tick, salt);
            let s = sorted(claims(es, t, seed, terrain_tick, salt));
            let k = total - sum_by(bases(es, t), amount_of());
            &&& a.len() == es.len()
            &&& 0 <= k <= es.len()
            &&& a[i] == part(t, es[i].1 as int, whole(es)) + (if topped_up(s, k, i) {
                1
            } else {
                0int
            })
        }),
{
    let t = total as int;
    lemma_bases(es, t);
    let b = bases(es, t);
    let c = claims(es, t, seed, terrain_tick, salt);
    lemma_claims_are(es, t, seed, terrain_tick, salt);
    lemma_claims_apart(c);
    law_sorted_is_a_sorted_permutation(c);
    lemma_base_room(es, t, i);
    lemma_topped_each(b, sorted(c), total - sum_by(b, amount_of()), i);
}

/// A claim that comes first had at least as much taken off.
proof fn lemma_rounded_up_first(
    es: Seq<(u32, u32)>,
    total: u64,
    seed: u64,
    terrain_tick: u64,
    salt: u32,
    i: int,
    j: int,
    k: int,
)
    requires
        1 <= whole(es) <= u64::MAX,
        es.len() <= usize::MAX,
        0 <= i < es.len(),
        0 <= j < es.len(),
        0 <= k <= es.len(),
        topped_up(sorted(claims(es, total as int, seed, terrain_tick, salt)), k, i),
        !topped_up(sorted(claims(es, total as int, seed, terrain_tick, salt)), k, j),
    ensures
        rest(total as int, es[i].1 as int, whole(es)) >= rest(
            total as int,
            es[j].1 as int,
            whole(es),
        ),
{
    reveal(rest);
    let t = total as int;
    let w = whole(es);
    let c = claims(es, t, seed, terrain_tick, salt);
    let s = sorted(c);
    lemma_claims_are(es, t, seed, terrain_tick, salt);
    lemma_claims_apart(c);
    law_sorted_is_a_sorted_permutation(c);
    let p = choose|p: int| 0 <= p < k && (#[trigger] s[p]).at == i;
    assert(s.contains(c[j]));
    let q = s.index_of(c[j]);
    assert(s[q].at == j);
    assert(q >= k);
    assert(s[p].key() <= s[q].key());
    assert(s[p] == c[i] && s[q] == c[j]);
    let (fi, fj) = ((total * es[i].1) % w, (total * es[j].1) % w);
    assert(0 <= fi < w && 0 <= fj < w) by {
        vstd::arithmetic::div_mod::lemma_mod_bound(total * es[i].1, w);
        vstd::arithmetic::div_mod::lemma_mod_bound(total * es[j].1, w);
    }
    assert(c[i].frac == fi && c[j].frac == fj);
}

proof fn lemma_base_room(es: Seq<(u32, u32)>, total: int, i: int)
    requires
        0 <= total <= u64::MAX,
        whole(es) >= 1,
        0 <= i < es.len(),
    ensures
        bases(es, total)[i] == part(total, es[i].1 as int, whole(es)),
        bases(es, total)[i] < u64::MAX || total == sum_by(bases(es, total), amount_of()),
{
    reveal(part);
    lemma_bases(es, total);
    let w = whole(es);
    assert(0 <= base_of(total, w)(es[i]) <= total);
    let b = bases(es, total);
    lemma_sum_bounds(b, amount_of());
    assert(amount_of()(b[i]) <= sum_by(b, amount_of()));
}

/// Even shares are as even as can be: no two differ by more than a unit.
pub proof fn law_even_shares_are_even(total: u64, n: int, i: int, j: int)
    requires
        1 <= n,
        0 <= i < n,
        0 <= j < n,
    ensures
        even(total as int, n)[i] <= even(total as int, n)[j] + 1,
        even(total as int, n)[i] >= total as int / n,
{
    let t = total as int;
    lemma_even(t, n, n);
    let q = t / n;
    assert(q + 1 <= u64::MAX || t % n == 0) by (nonlinear_arith)
        requires
            t == n * q + t % n,
            1 <= n,
            0 <= q <= t,
            t <= u64::MAX,
            0 <= t % n,
    ;
}

// ----------------------------------------------------------------------
// Where the shares land.
// ----------------------------------------------------------------------

/// Writing amounts to cells, each named once and all with room, changes each by
/// its amount and nothing else.
pub proof fn law_pouring_fills_the_named_cells(
    t: TerrainV,
    e: Element,
    cells: Seq<u32>,
    amounts: Seq<u64>,
    add: bool,
    n: int,
    c: int,
    k: int,
)
    requires
        t.wf(),
        0 <= n <= amounts.len(),
        cells.len() == amounts.len(),
        0 <= c < t.cells.len(),
        0 <= k < 5,
        forall|a: int, b: int| 0 <= a < b < cells.len() ==> cells[a] != cells[b],
        forall|a: int| 0 <= a < cells.len() ==> #[trigger] cells[a] < t.side * t.side,
        forall|a: int|
            0 <= a < cells.len() ==> (if add {
                t.cells[cells[a] as int][e.at()] + #[trigger] amounts[a] <= 65535
            } else {
                t.cells[cells[a] as int][e.at()] >= amounts[a]
            }),
    ensures
        ({
            let u = poured(t, e, cells, amounts, add, n).0;
            &&& u.wf()
            &&& u.side == t.side
            &&& u.overflow == t.overflow
            &&& k != e.at() ==> u.cells[c][k] == t.cells[c][k]
            &&& (forall|a: int| 0 <= a < n ==> #[trigger] cells[a] != c) ==> u.cells[c][k]
                == t.cells[c][k]
            &&& forall|a: int|
                0 <= a < n && #[trigger] cells[a] == c && k == e.at() ==> u.cells[c][k]
                    == t.cells[c][k] + (if add {
                    amounts[a] as int
                } else {
                    -amounts[a]
                })
        }),
    decreases n,
{
    if n > 0 {
        law_pouring_fills_the_named_cells(t, e, cells, amounts, add, n - 1, c, k);
        let d = cells[n - 1] as int;
        assert(cells[n - 1] < t.side * t.side);
        law_pouring_fills_the_named_cells(t, e, cells, amounts, add, n - 1, d, e.at());
        lemma_spot(t.side, cells[n - 1]);
        let v = poured(t, e, cells, amounts, add, n - 1).0;
        let u = poured(t, e, cells, amounts, add, n).0;
        assert(forall|a: int| 0 <= a < n - 1 ==> #[trigger] cells[a] != d);
        assert(v.cells[d][e.at()] == t.cells[d][e.at()]);
        assert(v.cells[d].len() == 5 && v.cells[c].len() == 5);
        crate::apportion::law_pouring_moves_what_it_reports(t, e, cells, amounts, add, n);
        if add {
            assert(t.cells[cells[n - 1] as int][e.at()] + amounts[n - 1] <= 65535);
        } else {
            assert(t.cells[cells[n - 1] as int][e.at()] >= amounts[n - 1]);
        }
        assert forall|a: int|
            0 <= a < n && #[trigger] cells[a] == c && k == e.at() implies u.cells[c][k]
            == t.cells[c][k] + (if add {
            amounts[a] as int
        } else {
            -amounts[a]
        }) by {
            if a < n - 1 {
                assert(cells[a] != cells[n - 1]);
            }
        }
        if forall|a: int| 0 <= a < n ==> #[trigger] cells[a] != c {
            assert(cells[n - 1] != c);
        }
    }
}

proof fn lemma_spot(side: int, index: u32)
    requires
        1 <= side,
        index < side * side,
    ensures
        spot(side, index) == index,
{
    crate::diffusion::lemma_cell_split(side, index as int);
}

/// What is shared out by weight lands in the cells that have weight, each of
/// which gains or loses its part by weight to within a unit, and nowhere else;
/// as long as all of it would have room in any of them.
pub proof fn law_what_is_shared_lands_by_weight(
    t: TerrainV,
    e: Element,
    total: u64,
    weight: Map<u32, u32>,
    seed: u64,
    terrain_tick: u64,
    add: bool,
    race: Race,
    c: u32,
)
    requires
        t.wf(),
        lists(entries(weight), weight),
        entries(weight).len() <= usize::MAX,
        1 <= whole(entries(weight)) <= u64::MAX,
        forall|k: u32| #[trigger] weight.contains_key(k) ==> k < t.side * t.side,
        forall|d: int|
            0 <= d < t.cells.len() ==> (if add {
                (#[trigger] t.cells[d])[e.at()] + total <= 65535
            } else {
                t.cells[d][e.at()] >= total
            }),
        c < t.side * t.side,
    ensures
        ({
            let u = apportioned(t, e, total, weight, seed, terrain_tick, add, race).0;
            let gain = if add {
                u.cells[c as int][e.at()] - t.cells[c as int][e.at()]
            } else {
                t.cells[c as int][e.at()] - u.cells[c as int][e.at()]
            };
            let w = whole(entries(weight));
            &&& !weight.contains_key(c) ==> gain == 0
            &&& weight.contains_key(c) ==> part(total as int, weight[c] as int, w) <= gain <= part(
                total as int,
                weight[c] as int,
                w,
            ) + 1
            &&& forall|k: int|
                0 <= k < 5 && k != e.at() ==> #[trigger] u.cells[c as int][k]
                    == t.cells[c as int][k]
        }),
{
    let es = entries(weight);
    let w = whole(es);
    if total == 0 {
        if weight.contains_key(c) {
            assert(total * weight[c] == 0) by (nonlinear_arith)
                requires
                    total == 0,
            ;
            vstd::arithmetic::div_mod::lemma_div_of0(w);
            reveal(part);
        }
    } else {
        let salt = salt_of(race, add);
        let a = weighted(es, total as int, seed, terrain_tick, salt);
        crate::apportion::law_weighted_shares_sum_to_the_total(
            es,
            total,
            seed,
            terrain_tick,
            salt,
        );
        let cells = es.map_values(|x: (u32, u32)| x.0);
        lemma_sum_bounds(a, amount_of());
        assert forall|x: int| 0 <= x < cells.len() implies #[trigger] cells[x] < t.side
            * t.side by {
            assert(weight.contains_key(es[x].0));
        }
        assert forall|x: int, y: int| 0 <= x < y < cells.len() implies cells[x] != cells[y] by {
            assert(es[x].0 < es[y].0);
        }
        assert forall|x: int| 0 <= x < cells.len() implies (if add {
            t.cells[cells[x] as int][e.at()] + #[trigger] a[x] <= 65535
        } else {
            t.cells[cells[x] as int][e.at()] >= a[x]
        }) by {
            assert(amount_of()(a[x]) <= sum_by(a, amount_of()));
            assert(cells[x] < t.side * t.side);
        }
        let n = es.len() as int;
        law_pouring_fills_the_named_cells(t, e, cells, a, add, n, c as int, e.at());
        let u = apportioned(t, e, total, weight, seed, terrain_tick, add, race).0;
        assert forall|k: int| 0 <= k < 5 && k != e.at() implies #[trigger] u.cells[c as int][k]
            == t.cells[c as int][k] by {
            law_pouring_fills_the_named_cells(t, e, cells, a, add, n, c as int, k);
        }
        if weight.contains_key(c) {
            assert(es.contains((c, weight[c])));
            let i = es.index_of((c, weight[c]));
            assert(cells[i] == c);
            law_shares_go_by_weight(es, total, seed, terrain_tick, salt, i, i);
        } else {
            assert forall|x: int| 0 <= x < n implies #[trigger] cells[x] != c by {
                assert(weight.contains_key(es[x].0));
            }
        }
    }
}

} // verus!
