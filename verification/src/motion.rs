//! Where movement takes a body.
//!
//! An animal goes forward along its heading, as fast as its race is, give or
//! take a little noise; it turns toward what it wants; and at the edge of the
//! square it is thrown back in.
use crate::behavior::{drive_of, steered, Drive};
use crate::entity::spec_action_threshold;
use crate::fx::{abs_int, sat32, v2_zero, Fx, V2};
use crate::geometry::{along, law_a_unit_vector_points_along, spread, square};
use crate::movement::{
    acts, displacement, drive_in, driven, lemma_driven, moved, movement_phase, reflected, turned,
};
use crate::race::Kind;
use crate::rand::{draw_signed, Channel};
use crate::world::{spec_jitter, WorldV};
use vstd::prelude::*;

verus! {

/// The most that noise moves a body along one axis, as a raw value: a 400th of
/// a cell.
pub open spec fn noise_limit() -> int {
    163
}

/// How far a body gets along one axis at most, as a raw value: heading times
/// speed, rounded up, and the noise.
pub open spec fn stride(heading: int, speed: int) -> int {
    abs_int(heading * speed) / 65536 + 2 + noise_limit()
}

/// From `a` to `b` is heading times speed, give or take the noise and the
/// rounding of a raw unit.
pub open spec fn steps_along(a: int, b: int, heading: int, speed: int) -> bool {
    abs_int(65536 * (b - a) - heading * speed) <= 65536 * (noise_limit() + 1)
}

proof fn lemma_noise(w: WorldV, id: u32)
    ensures
        ({
            let n = draw_signed(w.seed, w.tick, id, Channel::MoveJitter).times(spec_jitter()).0;
            -noise_limit() <= n <= noise_limit()
        }),
{
    let d = draw_signed(w.seed, w.tick, id, Channel::MoveJitter).0 as int;
    assert(-65536 <= d <= 65535);
    assert(spec_jitter().0 == 163);
    assert(-163 * 65536 <= d * 163 <= 163 * 65536);
    assert(-163 <= (d * 163) / 65536 <= 163);
}

/// One axis of a move that stays clear of the bounds.
proof fn lemma_axis_clear(p: Fx, t: Fx, speed: Fx, noise: Fx, size: Fx, heading: int)
    requires
        -noise_limit() <= noise.0 <= noise_limit(),
        heading == t.0 || heading == sat32(-t.0),
        stride(heading, speed.0 as int) <= p.0 <= size.0 - stride(heading, speed.0 as int),
    ensures
        ({
            let d = t.times(speed).plus(noise);
            let q = p.plus(d);
            &&& 0 <= q.0 <= size.0
            &&& q.0 == p.0 + d.0
            &&& d.0 == (t.0 * speed.0) / 65536 + noise.0
            &&& steps_along(p.0 as int, q.0 as int, t.0 as int, speed.0 as int)
        }),
{
    let (h, s, a) = (heading, speed.0 as int, t.0 as int);
    let k = a * s;
    assert(abs_int(k) <= abs_int(h * s) + abs_int(s)) by (nonlinear_arith)
        requires
            k == a * s,
            h == a || h == -a || h == -a - 1,
    ;

    assert(abs_int(s) <= 0x8000_0000);
    let m = abs_int(h * s) / 65536;
    assert(abs_int(h * s) < 65536 * (m + 1));
    if h != a {
        // The heading is only cut short where it is the smallest of all.
        if h == -a - 1 {
            assert(a == -0x8000_0000);
            assert(h == 0x7FFF_FFFF);
            assert(abs_int(h * s) == h * abs_int(s)) by (nonlinear_arith)
                requires
                    h >= 0,
            ;
            assert(abs_int(s) <= 65536) by (nonlinear_arith)
                requires
                    h == 0x7FFF_FFFF,
                    h * abs_int(s) < 65536 * (m + 1),
                    2 * (m + 2) <= 0x7FFF_FFFF,
                    abs_int(s) >= 0,
            ;
        } else {
            assert(abs_int(k) == abs_int(h * s)) by (nonlinear_arith)
                requires
                    k == a * s,
                    h == -a,
            ;
        }
    }
    assert(abs_int(k) <= abs_int(h * s) + 65536);
    assert(-(m + 2) <= k / 65536 <= m + 2);
    assert(t.times(speed).0 == k / 65536);
}

/// An animal goes forward along the heading it ends up with, at the speed of
/// its race: along each axis where it stays clear of the bounds, what it moves
/// by is heading times speed, give or take the noise of a 400th of a cell.
pub proof fn law_an_animal_goes_where_it_heads(w: WorldV, i: int)
    requires
        0 <= i < w.ents.len(),
        w.ents[i].alive,
        w.ents[i].kind == Kind::Animal,
    ensures
        ({
            let e = w.ents[i];
            let o = movement_phase(w).ents[i];
            let s = w.races[e.element.at() * 2 + 1].speed.0 as int;
            let (hx, hy) = (o.heading.x.0 as int, o.heading.y.0 as int);
            &&& stride(hx, s) <= e.pos.x.0 <= w.size.0 - stride(hx, s) ==> steps_along(
                e.pos.x.0 as int,
                o.pos.x.0 as int,
                hx,
                s,
            )
            &&& stride(hy, s) <= e.pos.y.0 <= w.size.0 - stride(hy, s) ==> steps_along(
                e.pos.y.0 as int,
                o.pos.y.0 as int,
                hy,
                s,
            )
        }),
{
    reveal(moved);
    let e = w.ents[i];
    let o = movement_phase(w).ents[i];
    let speed = w.races[e.race().at()].speed;
    let t = turned(w, i);
    let nx = draw_signed(w.seed, w.tick, e.id, Channel::MoveJitter).times(spec_jitter());
    let ny = draw_signed(w.seed, w.tick, e.id.wrapping_add(0x9E37), Channel::MoveJitter).times(
        spec_jitter(),
    );
    lemma_noise(w, e.id);
    lemma_noise(w, e.id.wrapping_add(0x9E37));
    let s = speed.0 as int;
    let (hx, hy) = (o.heading.x.0 as int, o.heading.y.0 as int);
    if stride(hx, s) <= e.pos.x.0 <= w.size.0 - stride(hx, s) {
        lemma_axis_clear(e.pos.x, t.x, speed, nx, w.size, hx);
    }
    if stride(hy, s) <= e.pos.y.0 <= w.size.0 - stride(hy, s) {
        lemma_axis_clear(e.pos.y, t.y, speed, ny, w.size, hy);
    }
}

/// The noise of a move is drawn: along each axis where an animal stays clear of the
/// bounds, what it moves by beyond heading times speed is the share of a 400th of a
/// cell that it drew, up to rounding.
pub proof fn law_noise_is_as_drawn(w: WorldV, i: int)
    requires
        0 <= i < w.ents.len(),
        w.ents[i].alive,
        w.ents[i].kind == Kind::Animal,
    ensures
        ({
            let e = w.ents[i];
            let o = movement_phase(w).ents[i];
            let s = w.races[e.element.at() * 2 + 1].speed.0 as int;
            let (hx, hy) = (o.heading.x.0 as int, o.heading.y.0 as int);
            let nx = draw_signed(w.seed, w.tick, e.id, Channel::MoveJitter).0 * noise_limit();
            let ny = draw_signed(w.seed, w.tick, e.id.wrapping_add(0x9E37), Channel::MoveJitter).0
                * noise_limit();
            &&& stride(hx, s) <= e.pos.x.0 <= w.size.0 - stride(hx, s) ==> abs_int(
                65536 * (o.pos.x.0 - e.pos.x.0) - hx * s - nx,
            ) <= 131072
            &&& stride(hy, s) <= e.pos.y.0 <= w.size.0 - stride(hy, s) ==> abs_int(
                65536 * (o.pos.y.0 - e.pos.y.0) - hy * s - ny,
            ) <= 131072
        }),
{
    reveal(moved);
    let e = w.ents[i];
    let o = movement_phase(w).ents[i];
    let speed = w.races[e.race().at()].speed;
    let t = turned(w, i);
    let nx = draw_signed(w.seed, w.tick, e.id, Channel::MoveJitter).times(spec_jitter());
    let ny = draw_signed(w.seed, w.tick, e.id.wrapping_add(0x9E37), Channel::MoveJitter).times(
        spec_jitter(),
    );
    lemma_noise(w, e.id);
    lemma_noise(w, e.id.wrapping_add(0x9E37));
    let s = speed.0 as int;
    let (hx, hy) = (o.heading.x.0 as int, o.heading.y.0 as int);
    if stride(hx, s) <= e.pos.x.0 <= w.size.0 - stride(hx, s) {
        lemma_axis_clear(e.pos.x, t.x, speed, nx, w.size, hx);
    }
    if stride(hy, s) <= e.pos.y.0 <= w.size.0 - stride(hy, s) {
        lemma_axis_clear(e.pos.y, t.y, speed, ny, w.size, hy);
    }
}

/// A body counts as having acted where it already did, or where it gets farther in
/// this tick than a hundredth of a cell. Distances are told by the squares of the
/// axes, each rounded down.
pub proof fn law_a_move_is_an_action(w: WorldV, i: int)
    requires
        0 <= i < w.ents.len(),
        w.ents[i].alive,
        w.ents[i].kind == Kind::Animal,
    ensures
        ({
            let e = w.ents[i];
            let o = movement_phase(w).ents[i];
            let s = w.races[e.element.at() * 2 + 1].speed.0 as int;
            let (hx, hy) = (o.heading.x.0 as int, o.heading.y.0 as int);
            let (dx, dy) = (o.pos.x.0 - e.pos.x.0, o.pos.y.0 - e.pos.y.0);
            stride(hx, s) <= e.pos.x.0 <= w.size.0 - stride(hx, s) && stride(hy, s) <= e.pos.y.0
                <= w.size.0 - stride(hy, s) && -0x10_0000 <= dx <= 0x10_0000 && -0x10_0000 <= dy
                <= 0x10_0000 ==> (o.acted <==> e.acted || (dx * dx) / 65536 + (dy * dy) / 65536 > 6)
        }),
{
    reveal(moved);
    reveal(acts);
    let e = w.ents[i];
    let o = movement_phase(w).ents[i];
    let speed = w.races[e.race().at()].speed;
    let t = turned(w, i);
    let nx = draw_signed(w.seed, w.tick, e.id, Channel::MoveJitter).times(spec_jitter());
    let ny = draw_signed(w.seed, w.tick, e.id.wrapping_add(0x9E37), Channel::MoveJitter).times(
        spec_jitter(),
    );
    lemma_noise(w, e.id);
    lemma_noise(w, e.id.wrapping_add(0x9E37));
    let s = speed.0 as int;
    let (hx, hy) = (o.heading.x.0 as int, o.heading.y.0 as int);
    let (dx, dy) = (o.pos.x.0 - e.pos.x.0, o.pos.y.0 - e.pos.y.0);
    if stride(hx, s) <= e.pos.x.0 <= w.size.0 - stride(hx, s) && stride(hy, s) <= e.pos.y.0
        <= w.size.0 - stride(hy, s) && -0x10_0000 <= dx <= 0x10_0000 && -0x10_0000 <= dy
        <= 0x10_0000 {
        lemma_axis_clear(e.pos.x, t.x, speed, nx, w.size, hx);
        lemma_axis_clear(e.pos.y, t.y, speed, ny, w.size, hy);
        let d = displacement(w, i);
        assert(d.x.0 == dx && d.y.0 == dy);
        assert(spec_action_threshold().0 == 655);
        assert(0 <= dx * dx <= 0x100_0000_0000) by (nonlinear_arith)
            requires
                -0x10_0000 <= dx <= 0x10_0000,
        ;
        assert(0 <= dy * dy <= 0x100_0000_0000) by (nonlinear_arith)
            requires
                -0x10_0000 <= dy <= 0x10_0000,
        ;
        assert(d.spec_len_sq().0 == (dx * dx) / 65536 + (dy * dy) / 65536);
    }
}

// ----------------------------------------------------------------------
// Turning.
// ----------------------------------------------------------------------

/// `b` lies the given share of the way from `a` to `d`, rounded down.
pub open spec fn part_way(a: int, d: int, rate: int, b: int) -> bool {
    &&& 0 <= (d - a) * rate - 65536 * (b - a) < 65536
    &&& a <= d ==> a <= b <= d
    &&& d <= a ==> d <= b <= a
}

/// `r` is `h` turned toward `d`: the unit vector along a vector that lies the
/// given share of the way between the two, or `h` still if those cancel out.
pub open spec fn turns(h: V2, d: V2, rate: int, r: V2) -> bool {
    exists|b: V2|
        {
            &&& #[trigger] part_way(h.x.0 as int, d.x.0 as int, rate, b.x.0 as int)
            &&& part_way(h.y.0 as int, d.y.0 as int, rate, b.y.0 as int)
            &&& b == v2_zero() ==> r == h
            &&& b != v2_zero() ==> {
                &&& along(r.x.0 as int, b.x.0 as int)
                &&& along(r.y.0 as int, b.y.0 as int)
                &&& spread(b, r) * spread(b, r) <= square(b)
                &&& 65536 * 65536 - 4 * 65536 - 2 <= square(r) <= 65536 * 65536 + 16
            }
        }
}

proof fn lemma_part_way(a: Fx, d: Fx, rate: Fx)
    requires
        -65536 <= a.0 <= 65536,
        -65536 <= d.0 <= 65536,
        0 <= rate.0 <= 65536,
    ensures
        part_way(
            a.0 as int,
            d.0 as int,
            rate.0 as int,
            a.plus(d.minus(a).times(rate)).0 as int,
        ),
{
    let (k, r) = (d.0 - a.0, rate.0 as int);
    let p = k * r;
    assert(k >= 0 ==> 0 <= p <= 65536 * k) by (nonlinear_arith)
        requires
            p == k * r,
            0 <= r <= 65536,
    ;
    assert(k <= 0 ==> 65536 * k <= p <= 0) by (nonlinear_arith)
        requires
            p == k * r,
            0 <= r <= 65536,
    ;
    let q = p / 65536;
    assert(65536 * q <= p < 65536 * q + 65536);
    assert(d.minus(a).times(rate).0 == q);
}

/// Turning goes part of the way: a rate of none leaves a heading alone, and any
/// other takes it the share of the way that the rate says.
pub proof fn law_a_turn_goes_part_of_the_way(h: V2, d: V2, rate: Fx)
    requires
        -65536 <= h.x.0 <= 65536,
        -65536 <= h.y.0 <= 65536,
        -65536 <= d.x.0 <= 65536,
        -65536 <= d.y.0 <= 65536,
        0 <= rate.0 <= 65536,
    ensures
        rate.0 == 0 ==> steered(h, d, rate) == h,
        rate.0 > 0 ==> turns(h, d, rate.0 as int, steered(h, d, rate)),
{
    if rate.0 > 0 {
        lemma_part_way(h.x, d.x, rate);
        lemma_part_way(h.y, d.y, rate);
        let b = h.plus(d.minus(h).spec_scale(rate));
        if b != v2_zero() {
            law_a_unit_vector_points_along(b);
        }
        assert(part_way(h.x.0 as int, d.x.0 as int, rate.0 as int, b.x.0 as int));
    }
}

/// An animal turns toward the heading that its drive wants, at the rate of its
/// race, and keeps its own where it wants none. At the edge of the square it
/// may be thrown back, along that axis only.
pub proof fn law_an_animal_turns_toward_what_it_wants(w: WorldV, i: int)
    requires
        0 <= i < w.ents.len(),
        w.ents[i].alive,
        w.ents[i].kind == Kind::Animal,
    ensures
        ({
            let e = w.ents[i];
            let o = movement_phase(w).ents[i];
            let t = turned(w, i);
            let rate = w.behavior.turn_rate@[e.element.at() * 2 + 1];
            &&& o.heading.x == t.x || o.heading.x.0 == sat32(-t.x.0)
            &&& o.heading.y == t.y || o.heading.y.0 == sat32(-t.y.0)
            &&& match drive_of(w.ents, w.terrain, w.ecology, w.behavior, i).1 {
                None => t == e.heading,
                Some(d) => {
                    &&& rate.0 == 0 ==> t == e.heading
                    &&& 0 < rate.0 <= 65536 && -65536 <= e.heading.x.0 <= 65536 && -65536
                        <= e.heading.y.0 <= 65536 && -65536 <= d.x.0 <= 65536 && -65536 <= d.y.0
                        <= 65536 ==> turns(e.heading, d, rate.0 as int, t)
                },
            }
        }),
{
    reveal(moved);
    reveal(drive_in);
    let e = w.ents[i];
    let rate = w.behavior.turn_rate@[e.race().at()];
    if let Some(d) = drive_of(w.ents, w.terrain, w.ecology, w.behavior, i).1 {
        if 0 <= rate.0 <= 65536 && -65536 <= e.heading.x.0 <= 65536 && -65536 <= e.heading.y.0
            <= 65536 && -65536 <= d.x.0 <= 65536 && -65536 <= d.y.0 <= 65536 {
            law_a_turn_goes_part_of_the_way(e.heading, d, rate);
        }
    }
}

// ----------------------------------------------------------------------
// The edge.
// ----------------------------------------------------------------------

/// What the edge does to one axis of a move: `a` and `b` are where it began and
/// ended, `t` and `h` the heading before and after.
pub open spec fn bounces(a: int, b: int, t: int, h: int, speed: int, size: int) -> bool {
    let to = 65536 * a + t * speed;
    let slack = 65536 * (noise_limit() + 1);
    &&& 0 <= b <= size
    &&& slack <= to <= 65536 * size - slack ==> h == t && abs_int(65536 * b - to) <= slack
    &&& to < -slack ==> h == sat32(-t)
    &&& to > 65536 * size + slack ==> h == sat32(-t)
    &&& -65536 * size + slack <= to < -slack ==> abs_int(65536 * b + to) <= slack
    &&& 65536 * size + slack < to <= 2 * (65536 * size) - slack ==> abs_int(
        65536 * (2 * size - b) - to,
    ) <= slack
}

proof fn lemma_bounce(p: Fx, t: Fx, speed: Fx, noise: Fx, size: Fx)
    requires
        0 <= p.0 <= size.0,
        size.0 <= 0x3FFF_FFFF,
        -noise_limit() <= noise.0 <= noise_limit(),
        abs_int(t.0 * speed.0) < 0x3FFF_0000 * 65536,
    ensures
        ({
            let q = p.plus(t.times(speed).plus(noise));
            let (r, h) = reflected(q, t, size);
            bounces(
                p.0 as int,
                r.spec_clamp(Fx(0), size).0 as int,
                t.0 as int,
                h.0 as int,
                speed.0 as int,
                size.0 as int,
            )
        }),
{
    let k = t.0 * speed.0;
    let s = k / 65536;
    assert(65536 * s <= k < 65536 * s + 65536);
    assert(-0x3FFF_0000 <= s <= 0x3FFF_0000);
    assert(t.times(speed).0 == s);
    assert(t.times(speed).plus(noise).0 == s + noise.0);
    let q = p.plus(t.times(speed).plus(noise));
    assert(q.0 == p.0 + s + noise.0);
}

/// At the edge an animal is thrown back: what its step would carry it out by,
/// it ends up inside by, and its heading along that axis is turned round. Short
/// of the edge it goes on as it heads. It is always inside.
pub proof fn law_an_animal_bounces_off_the_edge(w: WorldV, i: int)
    requires
        w.inside(),
        w.size.0 <= 0x3FFF_FFFF,
        0 <= i < w.ents.len(),
        w.ents[i].alive,
        w.ents[i].kind == Kind::Animal,
        ({
            let t = turned(w, i);
            let s = w.races[w.ents[i].element.at() * 2 + 1].speed.0;
            abs_int(t.x.0 * s) < 0x3FFF_0000 * 65536 && abs_int(t.y.0 * s) < 0x3FFF_0000 * 65536
        }),
    ensures
        ({
            let e = w.ents[i];
            let o = movement_phase(w).ents[i];
            let t = turned(w, i);
            let s = w.races[e.element.at() * 2 + 1].speed.0 as int;
            let size = w.size.0 as int;
            &&& bounces(
                e.pos.x.0 as int,
                o.pos.x.0 as int,
                t.x.0 as int,
                o.heading.x.0 as int,
                s,
                size,
            )
            &&& bounces(
                e.pos.y.0 as int,
                o.pos.y.0 as int,
                t.y.0 as int,
                o.heading.y.0 as int,
                s,
                size,
            )
        }),
{
    reveal(moved);
    let e = w.ents[i];
    assert(crate::world::in_square(w.size, e.pos));
    let speed = w.races[e.race().at()].speed;
    let t = turned(w, i);
    let nx = draw_signed(w.seed, w.tick, e.id, Channel::MoveJitter).times(spec_jitter());
    let ny = draw_signed(w.seed, w.tick, e.id.wrapping_add(0x9E37), Channel::MoveJitter).times(
        spec_jitter(),
    );
    lemma_noise(w, e.id);
    lemma_noise(w, e.id.wrapping_add(0x9E37));
    lemma_bounce(e.pos.x, t.x, speed, nx, w.size);
    lemma_bounce(e.pos.y, t.y, speed, ny, w.size);
}

// ----------------------------------------------------------------------
// Who stays, and what is counted.
// ----------------------------------------------------------------------

/// Nothing but a living animal moves by itself.
pub proof fn law_only_living_animals_move(w: WorldV, i: int)
    requires
        0 <= i < w.ents.len(),
        !w.ents[i].alive || w.ents[i].kind == Kind::Plant,
    ensures
        movement_phase(w).ents[i] == w.ents[i],
{
    reveal(moved);
}

/// The living animals among the first `n` bodies that go by a drive.
pub open spec fn going_by(w: WorldV, d: Drive, n: int) -> Seq<int> {
    Seq::new(n as nat, |i: int| i).filter(
        |i: int|
            w.ents[i].alive && w.ents[i].kind == Kind::Animal && drive_of(
                w.ents,
                w.terrain,
                w.ecology,
                w.behavior,
                i,
            ).0 == d,
    )
}

proof fn lemma_going_by(w: WorldV, d: Drive, n: int)
    requires
        0 <= n,
    ensures
        driven(w, d, n) == going_by(w, d, n).len(),
    decreases n,
{
    reveal(Seq::filter);
    reveal(drive_in);
    if n > 0 {
        lemma_going_by(w, d, n - 1);
        assert(Seq::new(n as nat, |i: int| i).drop_last() =~= Seq::new((n - 1) as nat, |i: int| i));
    }
}

/// Every living animal is counted once a tick, under the drive it goes by.
pub proof fn law_drives_are_counted(w: WorldV)
    requires
        w.stats.room(w.ents.len() as int),
    ensures
        ({
            let n = w.ents.len() as int;
            let s = movement_phase(w).stats;
            &&& s.fled == w.stats.fled + going_by(w, Drive::Flee, n).len()
            &&& s.hunted == w.stats.hunted + going_by(w, Drive::Hunt, n).len()
            &&& s.grazed == w.stats.grazed + going_by(w, Drive::Graze, n).len()
        }),
{
    let n = w.ents.len() as int;
    lemma_going_by(w, Drive::Flee, n);
    lemma_going_by(w, Drive::Hunt, n);
    lemma_going_by(w, Drive::Graze, n);
    lemma_driven(w, n);
}

} // verus!
