//! What draws come to.
use crate::entity::{first_heading, rolled_lifespan};
use crate::fx::{abs_int, v2_zero, V2};
use crate::geometry::{along, law_a_unit_vector_points_along, spread, square};
use crate::race::RaceAttrsV;
use crate::rand::{
    draw, draw_below, draw_chance, draw_range, draw_signed, draw_unit, law_draw_below_bound, Channel,
};
use vstd::prelude::*;

verus! {

/// A draw is spread over its range as the raw draw is over all that it can be:
/// the whole from nothing up, each number by as many raw draws.
pub proof fn law_draws_spread_evenly(seed: u64, tick: u64, id: u32, ch: Channel, n: u32)
    requires
        n > 0,
    ensures
        ({
            let d = draw(seed, tick, id, ch);
            let k = draw_below(seed, tick, id, ch, n);
            &&& k * 0x1_0000_0000 <= d * n < (k + 1) * 0x1_0000_0000
            &&& 0 <= k < n
            &&& draw_unit(seed, tick, id, ch).0 == draw_below(seed, tick, id, ch, 65536)
            &&& draw_signed(seed, tick, id, ch).0 + 65536 == draw_below(seed, tick, id, ch, 131072)
        }),
{
    law_draw_below_bound(seed, tick, id, ch, n);
    let d = draw(seed, tick, id, ch);
    assert((d * 65536) / 0x1_0000_0000 == d / 65536) by (nonlinear_arith)
        requires
            0 <= d <= 0xffff_ffff,
    ;
    assert((d * 131072) / 0x1_0000_0000 == d / 32768) by (nonlinear_arith)
        requires
            0 <= d <= 0xffff_ffff,
    ;
}

/// A draw from a range is as far above its lower end as one below its width.
pub proof fn law_a_range_is_drawn_from_its_lower_end(
    seed: u64,
    tick: u64,
    id: u32,
    ch: Channel,
    lo: i32,
    hi: i32,
)
    ensures
        lo < hi ==> draw_range(seed, tick, id, ch, lo, hi) - lo == draw_below(
            seed,
            tick,
            id,
            ch,
            (hi - lo) as u32,
        ),
        lo < hi ==> lo <= draw_range(seed, tick, id, ch, lo, hi) < hi,
        hi <= lo ==> draw_range(seed, tick, id, ch, lo, hi) == lo,
{
    law_draw_below_bound(seed, tick, id, ch, (hi - lo) as u32);
}

/// A chance comes off on just the share of raw draws that it gives.
pub proof fn law_a_chance_is_a_share_of_the_draws(
    seed: u64,
    tick: u64,
    id: u32,
    ch: Channel,
    num: u32,
    den: u32,
)
    requires
        den > 0,
    ensures
        draw_chance(seed, tick, id, ch, num, den) <==> draw(seed, tick, id, ch) * den < num
            * 0x1_0000_0000,
{
    law_draws_spread_evenly(seed, tick, id, ch, den);
}

/// A body's days go by its own draw: the race's days, and as many thousandths of
/// them more or less as the draw is above or below the middle of twice the
/// variance.
pub proof fn law_a_lifespan_goes_by_its_draw(a: RaceAttrsV, seed: u64, tick: u64, id: u32)
    requires
        1 <= a.lifespan <= u64::MAX / 2,
        a.lifespan_variance <= 1000,
    ensures
        ({
            let v = a.lifespan_variance as int;
            let k = draw_below(seed, tick, id, Channel::LifespanVariance, (2 * v + 1) as u32);
            let days = rolled_lifespan(a, seed, tick, id);
            let part = 1000 - v + k;
            &&& 1000 - v <= part <= 1000 + v
            &&& days * 1000 <= a.lifespan * part < (days + 1) * 1000 || (days == 1 && a.lifespan
                * part < 1000)
        }),
{
    let v = a.lifespan_variance as int;
    law_draw_below_bound(seed, tick, id, Channel::LifespanVariance, (2 * v + 1) as u32);
    let k = draw_below(seed, tick, id, Channel::LifespanVariance, (2 * v + 1) as u32);
    let part = 1000 - v + k;
    let x = a.lifespan * part;
    assert(0 <= x <= 2000 * (a.lifespan as int)) by (nonlinear_arith)
        requires
            x == a.lifespan * part,
            0 <= part <= 2000,
            0 <= a.lifespan,
    ;
    if v == 0 {
        assert(k == 0);
        assert(x == a.lifespan * 1000);
    }
}

/// A body is born heading somewhere: its heading is a unit long, and points
/// where it was drawn to, unless both parts of the draw are next to nothing.
pub proof fn law_a_first_heading_is_as_drawn(seed: u64, tick: u64, id: u32)
    ensures
        ({
            let v = V2 {
                x: draw_signed(seed, tick, id, Channel::Wander),
                y: draw_signed(seed, tick, id.wrapping_add(0x5EED), Channel::Wander),
            };
            let h = first_heading(seed, tick, id);
            &&& 65536 * 65536 - 4 * 65536 - 2 <= square(h) <= 65536 * 65536 + 16
            &&& abs_int(v.x.0 as int) >= 256 || abs_int(v.y.0 as int) >= 256 ==> {
                &&& along(h.x.0 as int, v.x.0 as int)
                &&& along(h.y.0 as int, v.y.0 as int)
                &&& spread(v, h) * spread(v, h) <= square(v)
            }
        }),
{
    let v = V2 {
        x: draw_signed(seed, tick, id, Channel::Wander),
        y: draw_signed(seed, tick, id.wrapping_add(0x5EED), Channel::Wander),
    };
    let (x, y) = (v.x.0 as int, v.y.0 as int);
    lemma_square_size(x);
    lemma_square_size(y);
    let (p, q) = ((x * x) / 65536, (y * y) / 65536);
    assert(v.spec_len_sq().0 == p + q);
    if p + q != 0 {
        assert(v != v2_zero());
        law_a_unit_vector_points_along(v);
    } else {
        let h = first_heading(seed, tick, id);
        assert(square(h) == 65536 * 65536) by (nonlinear_arith)
            requires
                h.x.0 == 65536,
                h.y.0 == 0,
                square(h) == h.x.0 * h.x.0 + h.y.0 * h.y.0,
        ;
    }
}

proof fn lemma_square_size(x: int)
    requires
        -65536 <= x <= 65536,
    ensures
        0 <= x * x <= 65536 * 65536,
        abs_int(x) >= 256 ==> (x * x) / 65536 >= 1,
        x == 0 ==> (x * x) / 65536 == 0,
{
    let a = abs_int(x);
    if x == 0 {
        assert(x * x == 0) by (nonlinear_arith)
            requires
                x == 0,
        ;
    }
    assert(x * x == a * a) by (nonlinear_arith)
        requires
            a == x || a == -x,
    ;
    assert(0 <= a * a <= 65536 * 65536) by (nonlinear_arith)
        requires
            0 <= a <= 65536,
    ;
    if a >= 256 {
        assert(a * a >= 65536) by (nonlinear_arith)
            requires
                a >= 256,
        ;
    }
}

} // verus!
