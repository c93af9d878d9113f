//! What the arithmetic of the parts keeps to.
use crate::entity::{maturity_age, spec_grown_size, spec_growth_ceiling};
use crate::fx::{abs_int, max_int, min_int, Fx};
use crate::governor::Governor;
use crate::race::{Edge, RateBand, RateLaw};
use crate::tile::{chebyshev, Tile};
use vstd::arithmetic::div_mod::lemma_fundamental_div_mod;
use vstd::prelude::*;
use vstd::std_specs::ops::DivSpec;

verus! {

/// A settlement loses no budget and grants all that it may: what was banked and
/// `nominal` more, up to `burst_ticks` of it, is either granted or still banked;
/// and where the demand is not met in full, the ceiling is reached, or no more
/// than the reserve is left.
pub proof fn law_a_grant_is_the_most_there_is(g: Governor, demand: u64)
    requires
        g.bucket <= g.band.nominal * g.band.burst_ticks,
    ensures
        ({
            let granted = g.payable(demand);
            let left = g.settled(demand).bucket;
            &&& g.settled(demand).band == g.band
            &&& 0 <= granted <= demand
            &&& granted <= g.band.ceiling
            &&& granted + left == min_int(
                g.bucket + g.band.nominal,
                g.band.nominal * g.band.burst_ticks,
            )
            &&& granted > 0 ==> left >= g.band.floor
            &&& granted < demand ==> granted == g.band.ceiling || left <= g.band.floor
        }),
{
    let cap = g.band.nominal * g.band.burst_ticks;
    assert(0 <= cap <= 0xffff_ffff * 0xffff_ffff) by (nonlinear_arith)
        requires
            cap == g.band.nominal * g.band.burst_ticks,
            0 <= g.band.nominal <= 0xffff_ffff,
            0 <= g.band.burst_ticks <= 0xffff_ffff,
    ;
}

/// An edge of a band that has to give way moves to the value that was set, and no
/// farther; one that need not, stays.
pub proof fn law_edges_give_way_no_farther_than_needed(b: RateBand, edge: Edge, v: u32)
    requires
        b.floor <= b.nominal <= b.ceiling,
    ensures
        ({
            let c = b.with_edge(edge, v);
            &&& edge != Edge::Floor ==> c.floor == min_int(b.floor as int, v as int)
            &&& edge == Edge::Floor ==> c.nominal == max_int(b.nominal as int, v as int)
            &&& edge == Edge::Ceiling ==> c.nominal == min_int(b.nominal as int, v as int)
            &&& edge != Edge::Ceiling ==> c.ceiling == max_int(b.ceiling as int, v as int)
        }),
{
}

/// `q` is what `a` over `b` comes to, rounded toward zero.
pub open spec fn is_quotient(a: int, b: int, q: int) -> bool {
    &&& abs_int(q * b) <= abs_int(a)
    &&& abs_int(a - q * b) < abs_int(b)
    &&& q != 0 ==> (q > 0 <==> (a > 0 <==> b > 0))
}

/// The raw value is one that a number can have.
pub open spec fn fits(raw: int) -> bool {
    -0x8000_0000 <= raw <= 0x7fff_ffff
}

/// Sums, differences and negations are exact where a number can hold them, and
/// are the nearest number where none can; sums do not depend on the order.
pub proof fn law_sums_are_exact(a: Fx, b: Fx)
    ensures
        fits(a.0 + b.0) ==> a.plus(b).0 == a.0 + b.0,
        fits(a.0 - b.0) ==> a.minus(b).0 == a.0 - b.0,
        fits(-a.0) ==> a.negated().0 == -a.0,
        a.0 + b.0 > 0x7fff_ffff ==> a.plus(b).0 == 0x7fff_ffff,
        a.0 + b.0 < -0x8000_0000 ==> a.plus(b).0 == -0x8000_0000,
        a.0 - b.0 > 0x7fff_ffff ==> a.minus(b).0 == 0x7fff_ffff,
        a.0 - b.0 < -0x8000_0000 ==> a.minus(b).0 == -0x8000_0000,
        a.plus(b) == b.plus(a),
        a.minus(b) == a.plus(b.negated()) || b.0 == i32::MIN,
{
}

/// A product is the exact one rounded down to a raw unit, where a number can
/// hold it, and the nearest number elsewhere; it does not depend on the order.
pub proof fn law_products_round_down(a: Fx, b: Fx)
    ensures
        a.times(b) == b.times(a),
        ({
            let p = a.times(b).0;
            let exact = a.0 * b.0;
            &&& i32::MIN < p < i32::MAX ==> p * 65536 <= exact < (p + 1) * 65536
            &&& p == i32::MAX ==> exact >= 0x7fff_ffff * 65536
            &&& p == i32::MIN ==> exact < (-0x7fff_ffff) * 65536
        }),
{
    assert(a.0 * b.0 == b.0 * a.0) by (nonlinear_arith);
}

/// A quotient is the exact one rounded toward zero, where a number can hold it;
/// by nothing it is the number farthest out on the numerator's side.
pub proof fn law_quotients_round_toward_zero(a: Fx, b: Fx)
    ensures
        ({
            let q = a.div_spec(b).0;
            &&& b.0 == 0 ==> (a.0 > 0 ==> q == i32::MAX) && (a.0 < 0 ==> q == i32::MIN) && (a.0 == 0
                ==> q == 0)
            &&& b.0 != 0 && i32::MIN < q < i32::MAX ==> is_quotient(a.0 * 65536, b.0 as int, q as int)
            &&& b.0 != 0 && q == i32::MAX ==> (a.0 > 0 <==> b.0 > 0)
            &&& b.0 != 0 && q == i32::MIN ==> (a.0 > 0 <==> b.0 < 0)
        }),
{
    if b.0 != 0 {
        lemma_quotient(a.0 * 65536, b.0 as int);
    }
}

/// A ratio of two whole numbers is likewise rounded toward zero, and nothing
/// where the denominator is.
pub proof fn law_ratios_round_toward_zero(num: int, den: int)
    ensures
        den == 0 ==> Fx::of_ratio(num, den).0 == 0,
        ({
            let q = Fx::of_ratio(num, den).0;
            den != 0 && i32::MIN < q < i32::MAX ==> is_quotient(num * 65536, den, q as int)
        }),
{
    if den != 0 {
        lemma_quotient(num * 65536, den);
    }
}

proof fn lemma_quotient(a: int, b: int)
    requires
        b != 0,
    ensures
        is_quotient(a, b, crate::fx::trunc_div(a, b)),
{
    let (x, y) = (abs_int(a), abs_int(b));
    let q = x / y;
    lemma_fundamental_div_mod(x, y);
    vstd::arithmetic::div_mod::lemma_mod_bound(x, y);
    vstd::arithmetic::div_mod::lemma_div_pos_is_pos(x, y);
    assert(y * q == q * y && 0 <= q * y) by (nonlinear_arith)
        requires
            0 <= q,
            0 < y,
    ;
    assert((-q) * y == -(q * y) && q * (-y) == -(q * y) && (-q) * (-y) == q * y) by (nonlinear_arith);
}

/// A tile is within `n` king moves of another where it is within `n` on either
/// axis; going there and back is as far; and a detour is no shorter.
pub proof fn law_distance_is_in_king_moves(a: Tile, b: Tile, c: Tile, n: int)
    ensures
        chebyshev(a, b) <= n <==> -n <= a.x - b.x <= n && -n <= a.y - b.y <= n,
        chebyshev(a, b) == chebyshev(b, a),
        chebyshev(a, b) == 0 <==> a == b,
        chebyshev(a, c) <= chebyshev(a, b) + chebyshev(b, c),
{
}

/// A tile of the square is left alone, and one outside goes to the square's
/// nearest tile.
pub proof fn law_clamping_goes_to_the_nearest_tile(t: Tile, side: i32, o: Tile)
    requires
        0 <= o.x < side,
        0 <= o.y < side,
    ensures
        0 <= t.spec_clamp(side).x < side,
        0 <= t.spec_clamp(side).y < side,
        abs_int(t.x - t.spec_clamp(side).x) <= abs_int(t.x - o.x),
        abs_int(t.y - t.spec_clamp(side).y) <= abs_int(t.y - o.y),
{
}

/// Growth is in proportion to age: of what lies between birth and the ceiling, a
/// plant has the share that its age is of a quarter of its life, rounded down.
pub proof fn law_growth_is_in_proportion(birth_size: u16, age: u64, lifespan: u64, ceiling: u16)
    requires
        birth_size < ceiling,
        4 <= lifespan <= u64::MAX / 250,
    ensures
        ({
            let m = lifespan as int / 4;
            let grown = spec_grown_size(birth_size, age, lifespan, ceiling) - birth_size;
            let whole = ceiling - birth_size;
            &&& age >= m ==> grown == whole
            &&& age < m ==> grown * m <= whole * age < (grown + 1) * m
        }),
{
    let m = lifespan as int / 4;
    assert(maturity_age(lifespan) == m);
    let whole = ceiling - birth_size;
    if age < m {
        let x = whole * age;
        lemma_fundamental_div_mod(x, m);
        vstd::arithmetic::div_mod::lemma_mod_bound(x, m);
        let q = x / m;
        assert(m * q == q * m && (q + 1) * m == q * m + m) by (nonlinear_arith);
    }
}

/// The ground carries a plant in proportion to its stock, up to its full size
/// at the reference and beyond.
pub proof fn law_the_ground_carries_in_proportion(stock: u16, growth_ref: u16)
    requires
        growth_ref > 0,
    ensures
        ({
            let c = spec_growth_ceiling(stock, growth_ref);
            &&& stock >= growth_ref ==> c == 1000
            &&& stock < growth_ref ==> c * growth_ref <= stock * 1000 < (c + 1) * growth_ref
        }),
{
    let (x, m) = (stock * 1000, growth_ref as int);
    lemma_fundamental_div_mod(x, m);
    vstd::arithmetic::div_mod::lemma_mod_bound(x, m);
    let q = x / m;
    assert(m * q == q * m && (q + 1) * m == q * m + m) by (nonlinear_arith);
    if stock >= growth_ref {
        assert(q >= 1000) by (nonlinear_arith)
            requires
                x < (q + 1) * m,
                x >= 1000 * m,
                m > 0,
        ;
    } else {
        assert(q <= 1000) by (nonlinear_arith)
            requires
                q * m <= x,
                x < 1000 * m,
                m > 0,
        ;
    }
}

/// What a scaled recipe asks for: its base when alone and without size, as much
/// more for each further body of the race in the cell, and as much more for each
/// thousand of size. A flat one asks the same of everyone.
pub proof fn law_company_and_size_raise_the_rate(
    base: u16,
    per_neighbor: u16,
    per_size: u16,
    crowd: int,
    size: int,
)
    requires
        crowd >= 1,
        size >= 0,
    ensures
        RateLaw::Flat(base).spec_requested(crowd, size) == base,
        ({
            let l = RateLaw::NeighborScaled { base, per_neighbor, per_size };
            &&& l.spec_requested(0, 0) == base
            &&& l.spec_requested(1, 0) == base
            &&& l.spec_requested(crowd + 1, size) == l.spec_requested(crowd, size) + per_neighbor
            &&& l.spec_requested(crowd, size + 1000) == l.spec_requested(crowd, size) + per_size
            &&& l.spec_requested(crowd, size) <= l.spec_requested(crowd, size + 1)
        }),
{
    let p = per_neighbor as int;
    assert(p * crowd == p * (crowd - 1) + p) by (nonlinear_arith);
    assert(p * 0 == 0) by (nonlinear_arith);
    let s = per_size as int;
    assert(s * (size + 1000) == s * size + s * 1000) by (nonlinear_arith);
    assert(s * (size + 1) == s * size + s) by (nonlinear_arith);
    assert(s * 0 == 0) by (nonlinear_arith);
}

} // verus!
