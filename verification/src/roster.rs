//! Who is counted, who is brought back and who is steered.
use crate::console::{
    adopted, births, births_of, deficit, headcount, placed, placed_race, restarted, sampled, spread,
    steer_count, steering, submitted,
};
use crate::element::Element;
use crate::entity::EntityV;
use crate::fx::{max_int, min_int};
use crate::input::{CmdKind, Command};
use crate::race::{law_race_positions, race_at, Kind, Race};
use crate::rand::{law_draw_below_bound, Channel};
use crate::replay::{genesis, law_genesis_is_unique};
use crate::tuning::Tuning;
use crate::world::{in_square, is_genesis, living, living_of, WorldV};
use vstd::prelude::*;

verus! {

/// Those of the bodies that live.
pub open spec fn alive() -> spec_fn(EntityV) -> bool {
    |e: EntityV| e.alive
}

/// Those that live and are of an element.
pub open spec fn alive_of(x: Element) -> spec_fn(EntityV) -> bool {
    |e: EntityV| e.alive && e.element == x
}

/// Those that live and are of a race.
pub open spec fn alive_in(r: Race) -> spec_fn(EntityV) -> bool {
    |e: EntityV| e.alive && e.element == r.element && e.kind == r.kind
}

/// The counts are of the living: in all, of an element, and of a race; and an
/// element's are those of its two races.
pub proof fn law_counts_are_of_the_living(ents: Seq<EntityV>, x: Element)
    ensures
        living(ents) == ents.filter(alive()).len(),
        living_of(ents, x) == ents.filter(alive_of(x)).len(),
        forall|r: Race| #[trigger] headcount(ents, r) == ents.filter(alive_in(r)).len(),
        living_of(ents, x) == headcount(ents, Race { element: x, kind: Kind::Plant }) + headcount(
            ents,
            Race { element: x, kind: Kind::Animal },
        ),
    decreases ents.len(),
{
    reveal(Seq::filter);
    if ents.len() > 0 {
        law_counts_are_of_the_living(ents.drop_last(), x);
        assert forall|r: Race| #[trigger] headcount(ents, r) == ents.filter(alive_in(r)).len() by {
            assert(headcount(ents.drop_last(), r) == ents.drop_last().filter(alive_in(r)).len());
        }
    }
}

/// The command brings a body of the race into the world.
pub open spec fn brings(r: Race) -> spec_fn(Command) -> bool {
    |c: Command|
        match c.kind {
            CmdKind::Spawn { element, kind, .. } => element == r.element && kind == r.kind,
            _ => false,
        }
}

/// The command gives a body another heading.
pub open spec fn steers() -> spec_fn(Command) -> bool {
    |c: Command| c.kind is SetHeading
}

/// Each race is brought back toward the number it is kept up to: by as many as it
/// lacks, but at most one for each twenty ticks of the frame, and at most
/// twenty-four; a race that lacks any gets one at least, and one that lacks none
/// gets none.
pub proof fn law_a_race_is_restocked(
    w: WorldV,
    restock: Seq<u32>,
    percent: u32,
    seed: u64,
    ticks: u64,
    r: Race,
)
    requires
        restock.len() == 10,
    ensures
        ({
            let born = submitted(w, restock, percent, seed, ticks).filter(brings(r)).len();
            let lacking = max_int(restock[r.at()] - w.ents.filter(alive_in(r)).len(), 0);
            let most = min_int(max_int(ticks as int / 20, 1), 24);
            born == min_int(lacking, most)
        }),
{
    law_race_positions(r, 0);
    law_counts_are_of_the_living(w.ents, r.element);
    assert(headcount(w.ents, r) == w.ents.filter(alive_in(r)).len());
    lemma_births(w, restock, seed, ticks, 10, r);
    let count = steer_count(w.ents.len() as int, percent as int, ticks as int);
    let tail = Seq::new(count as nat, |s: int| steering(w, seed, ticks, s, count));
    lemma_none(tail, brings(r));
    Seq::filter_distributes_over_add(births(w, restock, seed, ticks, 10), tail, brings(r));
}

proof fn lemma_births(w: WorldV, restock: Seq<u32>, seed: u64, ticks: u64, n: int, r: Race)
    requires
        0 <= n <= 10,
    ensures
        births(w, restock, seed, ticks, n).filter(brings(r)).len() == (if r.at() < n {
            deficit(w, restock, ticks, r)
        } else {
            0
        }),
    decreases n,
{
    law_race_positions(r, n - 1);
    if n > 0 {
        lemma_births(w, restock, seed, ticks, n - 1, r);
        let a = births(w, restock, seed, ticks, n - 1);
        let q = race_at(n - 1);
        let b = births_of(w, seed, q, deficit(w, restock, ticks, q));
        Seq::filter_distributes_over_add(a, b, brings(r));
        if q == r {
            lemma_all(b, brings(r));
        } else {
            lemma_none(b, brings(r));
        }
    } else {
        assert(births(w, restock, seed, ticks, n).len() == 0);
        lemma_none(births(w, restock, seed, ticks, n), brings(r));
    }
}

proof fn lemma_none<A>(s: Seq<A>, p: spec_fn(A) -> bool)
    requires
        forall|i: int| 0 <= i < s.len() ==> !p(#[trigger] s[i]),
    ensures
        s.filter(p).len() == 0,
    decreases s.len(),
{
    reveal(Seq::filter);
    if s.len() > 0 {
        assert(!p(s[s.len() - 1]));
        lemma_none(s.drop_last(), p);
    }
}

proof fn lemma_all<A>(s: Seq<A>, p: spec_fn(A) -> bool)
    requires
        forall|i: int| 0 <= i < s.len() ==> p(#[trigger] s[i]),
    ensures
        s.filter(p).len() == s.len(),
    decreases s.len(),
{
    reveal(Seq::filter);
    if s.len() > 0 {
        assert(p(s[s.len() - 1]));
        lemma_all(s.drop_last(), p);
    }
}

/// Every birth that is submitted is for now, and for a place in the world.
pub proof fn law_births_are_within_the_world(
    w: WorldV,
    restock: Seq<u32>,
    percent: u32,
    seed: u64,
    ticks: u64,
    i: int,
)
    requires
        w.size.0 >= 65536,
        0 <= i < submitted(w, restock, percent, seed, ticks).len(),
    ensures
        ({
            let c = submitted(w, restock, percent, seed, ticks)[i];
            match c.kind {
                CmdKind::Spawn { at, .. } => c.tick == w.tick && in_square(w.size, at),
                CmdKind::SetHeading { .. } => true,
                _ => false,
            }
        }),
{
    let b = births(w, restock, seed, ticks, 10);
    let c = submitted(w, restock, percent, seed, ticks)[i];
    if i < b.len() {
        assert(c == b[i]);
        lemma_birth_places(w, restock, seed, ticks, 10, i);
    }
}

proof fn lemma_birth_places(w: WorldV, restock: Seq<u32>, seed: u64, ticks: u64, n: int, i: int)
    requires
        w.size.0 >= 65536,
        0 <= n <= 10,
        0 <= i < births(w, restock, seed, ticks, n).len(),
    ensures
        ({
            let c = births(w, restock, seed, ticks, n)[i];
            c.kind matches CmdKind::Spawn { at, .. } && c.tick == w.tick && in_square(w.size, at)
        }),
    decreases n,
{
    if n > 0 {
        let a = births(w, restock, seed, ticks, n - 1);
        let c = births(w, restock, seed, ticks, n)[i];
        if i < a.len() {
            assert(c == a[i]);
            lemma_birth_places(w, restock, seed, ticks, n - 1, i);
        } else {
            let k = i - a.len();
            let r = race_at(n - 1);
            assert(c == births_of(w, seed, r, deficit(w, restock, ticks, r))[k]);
            let salt = (r.at() * 7919 + k) as u32;
            let m = spread(w.size.floor());
            law_draw_below_bound(seed, w.tick, salt, Channel::SpawnPlacement, m);
            law_draw_below_bound(seed, w.tick, salt ^ 0x5A5A, Channel::SpawnPlacement, m);
        }
    }
}

/// The share of the bodies that is steered in a frame is the percentage per
/// hundred ticks, rounded down but one at least and never more than there are;
/// none at nought per cent. Each command is for a body of the world, and they are
/// spread over the ticks of the frame in order, the first at once.
pub proof fn law_a_share_is_steered(
    w: WorldV,
    restock: Seq<u32>,
    percent: u32,
    seed: u64,
    ticks: u64,
)
    requires
        1 <= ticks,
        w.tick + ticks <= u64::MAX,
        w.ents.len() < u32::MAX,
    ensures
        ({
            let all = submitted(w, restock, percent, seed, ticks);
            let n = w.ents.len() as int;
            let k = all.filter(steers()).len() as int;
            &&& percent == 0 || n == 0 ==> k == 0
            &&& percent > 0 && n > 0 ==> 1 <= k <= n
            &&& 1 < k < n ==> k * 10_000 <= n * percent * ticks < (k + 1) * 10_000
            &&& percent > 0 && n > 0 && k == n && n > 1 ==> n * 10_000 <= n * percent * ticks
            &&& forall|i: int|
                0 <= i < k ==> (#[trigger] all[all.len() - k + i]).kind is SetHeading && (exists|
                    j: int,
                |
                    0 <= j < n && #[trigger] w.ents[j].id == all[all.len() - k + i].entity)
            &&& forall|i: int|
                0 <= i < k ==> {
                    let at = (#[trigger] all[all.len() - k + i]).tick - w.tick;
                    at * k <= i * ticks < (at + 1) * k
                }
        }),
{
    let n = w.ents.len() as int;
    let count = steer_count(n, percent as int, ticks as int);
    let b = births(w, restock, seed, ticks, 10);
    let tail = Seq::new(count as nat, |s: int| steering(w, seed, ticks, s, count));
    let all = submitted(w, restock, percent, seed, ticks);
    assert(0 <= count <= n);
    assert forall|i: int| 0 <= i < b.len() implies !steers()(#[trigger] b[i]) by {
        lemma_birth_kinds(w, restock, seed, ticks, 10, i);
    }
    lemma_none(b, steers());
    lemma_all(tail, steers());
    Seq::filter_distributes_over_add(b, tail, steers());
    let k = count;
    assert(all.filter(steers()).len() == k);
    assert forall|i: int| 0 <= i < k implies ({
        let c = #[trigger] all[all.len() - k + i];
        let at = c.tick - w.tick;
        &&& c.kind is SetHeading
        &&& exists|j: int| 0 <= j < n && #[trigger] w.ents[j].id == c.entity
        &&& at * k <= i * ticks < (at + 1) * k
    }) by {
        let c = all[all.len() - k + i];
        assert(c == steering(w, seed, ticks, i, count));
        law_draw_below_bound(seed, w.tick, i as u32, Channel::Wander, n as u32);
        let j = crate::rand::draw_below(seed, w.tick, i as u32, Channel::Wander, n as u32);
        assert(w.ents[j].id == c.entity);
        let x = i * ticks;
        vstd::arithmetic::div_mod::lemma_fundamental_div_mod(x, k);
        vstd::arithmetic::div_mod::lemma_mod_bound(x, k);
        let q = x / k;
        assert(k * q == q * k && (q + 1) * k == q * k + k) by (nonlinear_arith);
        assert(0 <= x < k * ticks) by (nonlinear_arith)
            requires
                0 <= i < k,
                1 <= ticks,
                x == i * ticks,
        ;
        assert(0 <= q < ticks) by (nonlinear_arith)
            requires
                k * q <= x < k * ticks,
                x < (q + 1) * k,
                0 <= x,
                k > 0,
        ;
        assert(c.tick == w.tick + q);
    }
}

proof fn lemma_birth_kinds(w: WorldV, restock: Seq<u32>, seed: u64, ticks: u64, n: int, i: int)
    requires
        0 <= n <= 10,
        0 <= i < births(w, restock, seed, ticks, n).len(),
    ensures
        births(w, restock, seed, ticks, n)[i].kind is Spawn,
    decreases n,
{
    if n > 0 {
        let a = births(w, restock, seed, ticks, n - 1);
        if i < a.len() {
            assert(births(w, restock, seed, ticks, n)[i] == a[i]);
            lemma_birth_kinds(w, restock, seed, ticks, n - 1, i);
        }
    }
}

/// The history of a race is its last forty-eight samples, the newest last.
pub proof fn law_a_history_is_the_last_samples(h: Seq<u32>, n: u32, i: int)
    requires
        h.len() <= 48,
    ensures
        sampled(h, n).last() == n,
        sampled(h, n).len() == min_int(h.len() as int + 1, 48),
        1 <= i <= min_int(h.len() as int, 47) ==> sampled(h, n)[sampled(h, n).len() - 1 - i] == h[h.len()
            - i],
{
}

/// A restarted world is as young as a fresh one, runs on the given tables, and has
/// as many living bodies of each race as the tables keep up.
pub proof fn law_a_restart_peoples_the_world(t: Tuning, seed: u64, size: i32, fresh: WorldV, r: Race)
    requires
        is_genesis(fresh, seed, size),
        forall|i: int| 0 <= i < 10 ==> (#[trigger] t.races@[i]).kind == race_at(i).kind,
        forall|i: int| 0 <= i < 10 ==> #[trigger] t.restock@[i] <= 250,
    ensures
        ({
            let w = restarted(t, seed, size);
            &&& w.tick == 0
            &&& w.seed == seed
            &&& w.terrain == fresh.terrain
            &&& w.size == fresh.size
            &&& w.ecology == t.ecology
            &&& w.behavior == t.behavior
            &&& w.propagation == t.propagation
            &&& w.terrain_tuning == t.terrain
            &&& w.races[r.at()] == t.races@[r.at()]@
            &&& w.ents.filter(alive_in(r)).len() == t.restock@[r.at()]
        }),
{
    let g = genesis(seed, size);
    law_genesis_is_unique(fresh, g, seed, size);
    law_race_positions(r, 0);
    let a = adopted(g, t);
    let w = restarted(t, seed, size);
    assert forall|i: int| 0 <= i < 10 implies (#[trigger] a.races[i]).kind == race_at(i).kind by {
        assert(t.races@[i].kind == race_at(i).kind);
    }
    lemma_placed(a, seed, size as int, t.restock@, 10, r);
    assert(t.restock@[r.at()] <= 250);
    law_counts_are_of_the_living(w.ents, r.element);
    assert(headcount(w.ents, r) == w.ents.filter(alive_in(r)).len());
}

/// All but the bodies, the next id and the statistics is as it was.
pub open spec fn same_setting(w: WorldV, u: WorldV) -> bool {
    &&& u.tick == w.tick
    &&& u.seed == w.seed
    &&& u.terrain == w.terrain
    &&& u.size == w.size
    &&& u.ecology == w.ecology
    &&& u.behavior == w.behavior
    &&& u.propagation == w.propagation
    &&& u.terrain_tuning == w.terrain_tuning
    &&& u.races == w.races
}

proof fn lemma_placed(w: WorldV, seed: u64, size: int, restock: Seq<u32>, n: int, r: Race)
    requires
        0 <= n <= 10,
        forall|i: int| 0 <= i < 10 ==> (#[trigger] w.races[i]).kind == race_at(i).kind,
    ensures
        same_setting(w, placed(w, seed, size, restock, n)),
        headcount(placed(w, seed, size, restock, n).ents, r) == headcount(w.ents, r) + (if r.at()
            < n {
            restock[r.at()] as int
        } else {
            0
        }),
    decreases n,
{
    law_race_positions(r, n - 1);
    if n > 0 {
        lemma_placed(w, seed, size, restock, n - 1, r);
        let u = placed(w, seed, size, restock, n - 1);
        lemma_placed_race(u, seed, size, n - 1, restock[n - 1] as int, r);
    }
}

proof fn lemma_placed_race(w: WorldV, seed: u64, size: int, q: int, k: int, r: Race)
    requires
        0 <= q < 10,
        0 <= k,
        w.races[q].kind == race_at(q).kind,
    ensures
        same_setting(w, placed_race(w, seed, size, q, k)),
        headcount(placed_race(w, seed, size, q, k).ents, r) == headcount(w.ents, r) + (if r.at()
            == q {
            k
        } else {
            0
        }),
    decreases k,
{
    law_race_positions(r, q);
    if k > 0 {
        lemma_placed_race(w, seed, size, q, k - 1, r);
        let u = placed_race(w, seed, size, q, k - 1);
        let v = placed_race(w, seed, size, q, k);
        assert(v.ents.drop_last() =~= u.ents);
    }
}

} // verus!
