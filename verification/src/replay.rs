//! Recording a run as one state hash per tick, and replaying it against them.
//!
//! A hash per tick, not only the last one, says which tick a run parted on.
use crate::element::{element_at, Element};
use crate::fx::{Fx, V2};
use crate::input::{law_bytes_round_trip, log_bytes, read_log, CmdKind, Command, InputLog, LogError};
use crate::order::{is_sorted, sorted};
use crate::race::{Kind, PerRace};
use crate::rand::{draw_below, draw_signed, law_draw_below_bound, rand_below, rand_signed, Channel};
use crate::text::{decimal, hex, push_decimal, push_hex};
use crate::tick::{fits, ids_fit, law_step, same_tables, stepped};
use crate::world::{is_genesis, mass, seeded, world_hash, World, WorldV};
use vstd::prelude::*;
use vstd::string::*;

verus! {

#[derive(Clone, Debug, PartialEq, Eq)]
pub struct Trace {
    pub seed: u64,
    pub size: i32,
    pub per_race: u32,
    /// `hashes[i]` is the state hash after `i + 1` steps.
    pub hashes: Vec<u64>,
}

impl Trace {
    pub fn ticks(&self) -> (r: usize)
        ensures
            r == self.hashes@.len(),
    {
        self.hashes.len()
    }

    /// The last hash, or 0 of an empty trace.
    pub fn final_hash(&self) -> (r: u64)
        ensures
            r == (if self.hashes@.len() == 0 {
                0
            } else {
                self.hashes@.last()
            }),
    {
        if self.hashes.len() == 0 {
            0
        } else {
            self.hashes[self.hashes.len() - 1]
        }
    }
}

#[derive(Clone, Copy, PartialEq, Eq, Debug, Structural)]
pub struct Divergence {
    /// The first tick whose hash disagreed.
    pub tick: u64,
    pub expected: u64,
    pub actual: u64,
}

/// The text of a [`Divergence`].
pub open spec fn divergence_text(d: Divergence) -> Seq<char> {
    "diverged at tick "@ + decimal(d.tick as int) + ": expected 0x"@ + hex(d.expected as int, 16)
        + ", got 0x"@ + hex(d.actual as int, 16)
}

impl Divergence {
    /// What happened, in one line.
    pub fn text(&self) -> (r: String)
        ensures
            r@ == divergence_text(*self),
    {
        let mut s: String = String::new();
        s.append("diverged at tick ");
        push_decimal(&mut s, self.tick);
        s.append(": expected 0x");
        push_hex(&mut s, self.expected, 16);
        s.append(", got 0x");
        push_hex(&mut s, self.actual, 16);
        assert(s@ =~= divergence_text(*self));
        s
    }
}

/// The fresh world of a seed and a size.
pub open spec fn genesis(seed: u64, size: i32) -> WorldV {
    choose|w: WorldV| is_genesis(w, seed, size)
}

/// The populated world that a run begins with.
pub open spec fn built(seed: u64, size: i32, per_race: int) -> WorldV {
    seeded(genesis(seed, size), 10, per_race)
}

proof fn lemma_same_table<T>(a: PerRace<T>, b: PerRace<T>)
    requires
        a@ == b@,
    ensures
        a == b,
{
    assert forall|i: int| 0 <= i < 10 implies a.0[i] == b.0[i] by {
        assert(a@[i] == b@[i]);
    }
    assert(a.0 =~= b.0);
}

/// There is one fresh world of a seed and a size.
pub proof fn law_genesis_is_unique(a: WorldV, b: WorldV, seed: u64, size: i32)
    requires
        is_genesis(a, seed, size),
        is_genesis(b, seed, size),
    ensures
        a == b,
{
    assert(a.terrain_tuning.diffuse_rate.0 =~= b.terrain_tuning.diffuse_rate.0);
    assert(a.terrain_tuning.diffuse_cap.0 =~= b.terrain_tuning.diffuse_cap.0);
    assert(a.ecology.forage_radius.0 =~= b.ecology.forage_radius.0);
    assert(a.ecology.satiation.0 =~= b.ecology.satiation.0);
    assert(a.ecology.feed_gain.0 =~= b.ecology.feed_gain.0);
    assert(a.ecology.starve_after.0 =~= b.ecology.starve_after.0);
    assert(a.ecology.starve_rate.0 =~= b.ecology.starve_rate.0);
    assert(a.ecology.repro_threshold.0 =~= b.ecology.repro_threshold.0);
    assert(a.ecology.attrition_rate.0 =~= b.ecology.attrition_rate.0);
    assert(a.ecology.suppression_rate.0 =~= b.ecology.suppression_rate.0);
    assert(a.ecology.hunt_weight@ =~= b.ecology.hunt_weight@);
    lemma_same_table(a.ecology.hunt_weight, b.ecology.hunt_weight);
    assert(a.behavior.flee_threshold@ =~= b.behavior.flee_threshold@);
    lemma_same_table(a.behavior.flee_threshold, b.behavior.flee_threshold);
    assert(a.behavior.sense_radius@ =~= b.behavior.sense_radius@);
    lemma_same_table(a.behavior.sense_radius, b.behavior.sense_radius);
    assert(a.behavior.turn_rate@ =~= b.behavior.turn_rate@);
    lemma_same_table(a.behavior.turn_rate, b.behavior.turn_rate);
    assert(a.propagation.period.0 =~= b.propagation.period.0);
    assert(a.propagation.chance.0 =~= b.propagation.chance.0);
    assert(a.propagation.offspring_size.0 =~= b.propagation.offspring_size.0);
    assert(a.propagation.root_min.0 =~= b.propagation.root_min.0);
    assert(a.propagation.dispersal.0 =~= b.propagation.dispersal.0);
    assert(a.propagation.crowd_max.0 =~= b.propagation.crowd_max.0);
    assert(a.propagation.growth_ref.0 =~= b.propagation.growth_ref.0);
    assert(a =~= b);
}

/// The world after `n` ticks under a log.
pub open spec fn played(w: WorldV, log: Seq<Command>, n: int) -> WorldV
    decreases n,
{
    if n <= 0 {
        w
    } else {
        stepped(played(w, log, n - 1), log)
    }
}

/// The counters of a world have room for its next `n` ticks under a log.
pub open spec fn sustains(w: WorldV, log: Seq<Command>, n: int) -> bool
    decreases n,
{
    n <= 0 || (sustains(w, log, n - 1) && fits(played(w, log, n - 1), log))
}

/// There are ids left for the bodies of the next `n` ticks under a log.
pub open spec fn ids_last(w: WorldV, log: Seq<Command>, n: int) -> bool
    decreases n,
{
    n <= 0 || (ids_last(w, log, n - 1) && ids_fit(played(w, log, n - 1), log))
}

/// A run whose counters have room has ids left, and so keeps what a run keeps.
pub proof fn law_room_leaves_ids(w: WorldV, log: Seq<Command>, n: int)
    requires
        sustains(w, log, n),
    ensures
        ids_last(w, log, n),
    decreases n,
{
    reveal(fits);
    if n > 0 {
        law_room_leaves_ids(w, log, n - 1);
    }
}

/// The state hash after each of `n` ticks.
pub open spec fn hashes_of(w: WorldV, log: Seq<Command>, n: int) -> Seq<u64> {
    Seq::new(n as nat, |i: int| world_hash(played(w, log, i + 1)))
}

/// What a run keeps, over any number of ticks: all its material, the
/// invariant, the tables, and every body inside the square.
pub proof fn law_run(w: WorldV, log: Seq<Command>, n: int)
    requires
        w.wf(),
        0 <= n,
        ids_last(w, log, n),
    ensures
        mass(played(w, log, n)) == mass(w),
        played(w, log, n).wf(),
        w.inside() ==> played(w, log, n).inside(),
        w.tick + n <= u64::MAX ==> played(w, log, n).tick == w.tick + n,
        played(w, log, n).seed == w.seed,
        played(w, log, n).size == w.size,
        same_tables(w, played(w, log, n)),
    decreases n,
{
    if n > 0 {
        law_run(w, log, n - 1);
        law_step(played(w, log, n - 1), log);
    }
}

/// A run that is taken up again where it stopped goes on as if it never had.
pub proof fn law_a_run_resumes(w: WorldV, log: Seq<Command>, a: int, b: int)
    requires
        0 <= a,
        0 <= b,
    ensures
        played(played(w, log, a), log, b) == played(w, log, a + b),
        sustains(w, log, a + b) <==> sustains(w, log, a) && sustains(played(w, log, a), log, b),
    decreases b,
{
    if b > 0 {
        law_a_run_resumes(w, log, a, b - 1);
    }
}

proof fn lemma_sustains_less(w: WorldV, log: Seq<Command>, a: int, b: int)
    requires
        a <= b,
        sustains(w, log, b),
    ensures
        sustains(w, log, a),
    decreases b - a,
{
    if a < b {
        if b > 0 {
            lemma_sustains_less(w, log, a, b - 1);
        }
    }
}

/// The world that a trace begins with.
pub open spec fn origin(t: Trace) -> WorldV {
    built(t.seed, t.size, t.per_race as int)
}

/// The trace holds the hashes of its run under `log`.
pub open spec fn agrees(t: Trace, log: Seq<Command>) -> bool {
    t.hashes@ == hashes_of(origin(t), log, t.hashes@.len() as int)
}

/// The first tick at which the trace and its run under `log` part.
pub open spec fn parts_at(t: Trace, log: Seq<Command>, d: Divergence) -> bool {
    let want = hashes_of(origin(t), log, t.hashes@.len() as int);
    &&& d.tick < t.hashes@.len()
    &&& d.expected == t.hashes@[d.tick as int]
    &&& d.actual == want[d.tick as int]
    &&& d.expected != d.actual
    &&& forall|i: int| 0 <= i < d.tick ==> t.hashes@[i] == #[trigger] want[i]
}

/// A run is a function of where it begins and of its log: equal worlds under
/// equal logs stay equal and have the same hash at every tick. A longer
/// recording extends a shorter one, and its hash at each place is that of the
/// world after as many ticks.
pub proof fn law_a_longer_recording_extends(
    w: WorldV,
    u: WorldV,
    log: Seq<Command>,
    same: Seq<Command>,
    n: int,
    m: int,
)
    requires
        u == w,
        same == log,
        0 <= n <= m,
    ensures
        played(u, same, m) == played(w, log, m),
        hashes_of(w, log, n).len() == n,
        hashes_of(w, log, n) == hashes_of(u, same, m).take(n),
        forall|i: int|
            0 <= i < n ==> #[trigger] hashes_of(w, log, n)[i] == world_hash(
                played(w, log, i + 1),
            ),
{
    assert(hashes_of(w, log, n) =~= hashes_of(u, same, m).take(n));
}

/// Every trace either agrees with its run or parts from it at exactly one
/// first tick, where it holds another hash than the run has.
pub proof fn law_a_trace_agrees_or_parts(t: Trace, log: Seq<Command>)
    requires
        t.hashes@.len() <= u64::MAX,
    ensures
        agrees(t, log) <==> t.hashes@ == hashes_of(origin(t), log, t.hashes@.len() as int),
        agrees(t, log) <==> !exists|d: Divergence| parts_at(t, log, d),
        forall|d: Divergence, e: Divergence| parts_at(t, log, d) && parts_at(t, log, e) ==> d == e,
        forall|d: Divergence|
            #[trigger] parts_at(t, log, d) ==> {
                let r = hashes_of(origin(t), log, t.hashes@.len() as int);
                &&& d.expected == t.hashes@[d.tick as int]
                &&& d.actual == r[d.tick as int]
                &&& forall|i: int| 0 <= i < d.tick ==> t.hashes@[i] == #[trigger] r[i]
            },
{
    let r = hashes_of(origin(t), log, t.hashes@.len() as int);
    if !agrees(t, log) {
        let k = lemma_first_difference(t.hashes@, r, 0);
        let d = Divergence { tick: k as u64, expected: t.hashes@[k], actual: r[k] };
        assert(parts_at(t, log, d));
    }
    assert forall|d: Divergence, e: Divergence|
        parts_at(t, log, d) && parts_at(t, log, e) implies d == e by {
        if d.tick < e.tick {
            assert(t.hashes@[d.tick as int] == r[d.tick as int]);
        }
        if e.tick < d.tick {
            assert(t.hashes@[e.tick as int] == r[e.tick as int]);
        }
    }
}

/// Where two sequences of one length first differ.
proof fn lemma_first_difference(a: Seq<u64>, b: Seq<u64>, i: int) -> (k: int)
    requires
        a.len() == b.len(),
        a != b,
        0 <= i <= a.len(),
        forall|j: int| 0 <= j < i ==> a[j] == #[trigger] b[j],
    ensures
        0 <= k < a.len(),
        a[k] != b[k],
        forall|j: int| 0 <= j < k ==> a[j] == #[trigger] b[j],
    decreases a.len() - i,
{
    if i == a.len() {
        assert(a =~= b);
        i
    } else if a[i] != b[i] {
        i
    } else {
        lemma_first_difference(a, b, i + 1)
    }
}

/// Two recordings of one run are the same, tick by tick, and each replays:
/// a trace never both agrees with its run and parts from it.
pub proof fn law_replay_is_deterministic(a: Trace, b: Trace, log: Seq<Command>, d: Divergence)
    requires
        agrees(a, log),
        agrees(b, log),
        a.seed == b.seed,
        a.size == b.size,
        a.per_race == b.per_race,
        a.hashes@.len() == b.hashes@.len(),
    ensures
        a.hashes@ == b.hashes@,
        !parts_at(a, log, d),
{
}

/// A trace that is changed at one tick parts from its run at that tick.
pub proof fn law_a_changed_tick_is_found(t: Trace, u: Trace, log: Seq<Command>, i: int)
    requires
        agrees(t, log),
        u.seed == t.seed,
        u.size == t.size,
        u.per_race == t.per_race,
        0 <= i < t.hashes@.len() <= u64::MAX,
        u.hashes@.len() == t.hashes@.len(),
        u.hashes@[i] != t.hashes@[i],
        forall|j: int| 0 <= j < i ==> u.hashes@[j] == #[trigger] t.hashes@[j],
    ensures
        parts_at(
            u,
            log,
            Divergence { tick: i as u64, expected: u.hashes@[i], actual: t.hashes@[i] },
        ),
        !agrees(u, log),
{
    let want = hashes_of(origin(t), log, t.hashes@.len() as int);
    assert forall|j: int| 0 <= j < i implies u.hashes@[j] == #[trigger] want[j] by {
        assert(t.hashes@[j] == want[j]);
    }
    assert(want[i] == t.hashes@[i]);
}

/// A log that is shipped as bytes replays as the log it was: what agrees with
/// one agrees with the other, and parts from the other where it parts from one.
pub proof fn law_a_shipped_log_replays(t: Trace, log: Seq<Command>, shipped: Seq<Command>, d: Divergence)
    requires
        is_sorted(log),
        log.len() <= u64::MAX,
        read_log(log_bytes(log)) == Ok::<Seq<Command>, LogError>(shipped),
    ensures
        agrees(t, sorted(shipped)) <==> agrees(t, log),
        parts_at(t, sorted(shipped), d) <==> parts_at(t, log, d),
{
    law_bytes_round_trip(log);
}

/// A populated world.
pub fn build(seed: u64, size: i32, per_race: u32) -> (w: World)
    requires
        10 * per_race < u32::MAX,
    ensures
        w@ == built(seed, size, per_race as int),
        w@.wf(),
        w@.inside(),
        w@.tick == 0,
{
    let mut w: World = World::new(seed, size);
    proof {
        law_genesis_is_unique(w@, genesis(seed, size), seed, size);
        lemma_seeded_tick(w@, 10, per_race as int);
    }
    w.seed_population(per_race);
    w
}

proof fn lemma_seeded_race_tick(w: WorldV, r: int, k: int)
    ensures
        crate::world::seeded_race(w, r, k).tick == w.tick,
    decreases k,
{
    if k > 0 {
        lemma_seeded_race_tick(w, r, k - 1);
    }
}

proof fn lemma_seeded_tick(w: WorldV, n: int, per_race: int)
    ensures
        seeded(w, n, per_race).tick == w.tick,
    decreases n,
{
    if n > 0 {
        lemma_seeded_tick(w, n - 1, per_race);
        lemma_seeded_race_tick(seeded(w, n - 1, per_race), n - 1, per_race);
    }
}

/// Run `w` for `ticks` ticks and give the hash after each, or nothing where a
/// counter would overflow.
fn run(w: &mut World, log: &InputLog, ticks: u64) -> (r: Option<Vec<u64>>)
    requires
        old(w)@.wf(),
        log.ready(),
    ensures
        match r {
            Some(hashes) => sustains(old(w)@, log@, ticks as int) && hashes@ == hashes_of(
                old(w)@,
                log@,
                ticks as int,
            ),
            None => !sustains(old(w)@, log@, ticks as int),
        },
{
    let ghost start = w@;
    let mut hashes: Vec<u64> = Vec::new();
    let mut i: u64 = 0;
    while i < ticks
        invariant
            i <= ticks,
            start == old(w)@,
            log.ready(),
            w@.wf(),
            start.wf(),
            w@ == played(start, log@, i as int),
            sustains(start, log@, i as int),
            hashes@ == hashes_of(start, log@, i as int),
        decreases ticks - i,
    {
        if !w.can_step(log) {
            proof {
                if sustains(start, log@, ticks as int) {
                    lemma_sustains_less(start, log@, i + 1, ticks as int);
                }
            }
            return None;
        }
        w.step(log);
        hashes.push(w.state_hash());
        i = i + 1;
        assert(hashes@ =~= hashes_of(start, log@, i as int));
    }
    Some(hashes)
}

/// Run the simulation and keep a hash per tick, or give nothing where the run
/// is longer than its counters can hold.
pub fn try_record(seed: u64, size: i32, per_race: u32, log: &InputLog, ticks: u64) -> (r: Option<
    Trace,
>)
    requires
        10 * per_race < u32::MAX,
        log.ready(),
    ensures
        match r {
            Some(t) => sustains(built(seed, size, per_race as int), log@, ticks as int) && t.seed
                == seed && t.size == size && t.per_race == per_race && t.hashes@ == hashes_of(
                built(seed, size, per_race as int),
                log@,
                ticks as int,
            ),
            None => !sustains(built(seed, size, per_race as int), log@, ticks as int),
        },
{
    let mut w: World = build(seed, size, per_race);
    match run(&mut w, log, ticks) {
        Some(hashes) => Some(Trace { seed, size, per_race, hashes }),
        None => None,
    }
}

/// Run the simulation and keep a hash per tick.
pub fn record(seed: u64, size: i32, per_race: u32, log: &InputLog, ticks: u64) -> (t: Trace)
    requires
        10 * per_race < u32::MAX,
        log.ready(),
        sustains(built(seed, size, per_race as int), log@, ticks as int),
    ensures
        t.seed == seed,
        t.size == size,
        t.per_race == per_race,
        t.hashes@ == hashes_of(built(seed, size, per_race as int), log@, ticks as int),
        agrees(t, log@),
{
    let mut w: World = build(seed, size, per_race);
    let hashes: Vec<u64> = match run(&mut w, log, ticks) {
        Some(hashes) => hashes,
        None => Vec::new(),
    };
    Trace { seed, size, per_race, hashes }
}

/// Run again from the seed and the log and compare at every tick, or give
/// nothing where the counters run out of room before a tick differs.
pub fn try_verify(trace: &Trace, log: &InputLog) -> (r: Option<Result<(), Divergence>>)
    requires
        10 * trace.per_race < u32::MAX,
        log.ready(),
    ensures
        match r {
            Some(Ok(())) => agrees(*trace, log@),
            Some(Err(d)) => parts_at(*trace, log@, d),
            None => !sustains(origin(*trace), log@, trace.hashes@.len() as int),
        },
{
    let mut w: World = build(trace.seed, trace.size, trace.per_race);
    let ghost start = w@;
    let ghost n = trace.hashes@.len() as int;
    let ghost want = hashes_of(start, log@, n);
    let mut i: usize = 0;
    while i < trace.hashes.len()
        invariant
            i <= trace.hashes@.len(),
            n == trace.hashes@.len(),
            start == origin(*trace),
            want == hashes_of(start, log@, n),
            log.ready(),
            w@.wf(),
            w@ == played(start, log@, i as int),
            forall|j: int| 0 <= j < i ==> trace.hashes@[j] == #[trigger] want[j],
        decreases trace.hashes.len() - i,
    {
        if !w.can_step(log) {
            proof {
                if sustains(start, log@, n) {
                    lemma_sustains_less(start, log@, i + 1, n);
                }
            }
            return None;
        }
        w.step(log);
        let actual: u64 = w.state_hash();
        assert(want[i as int] == actual);
        let expected: u64 = trace.hashes[i];
        if actual != expected {
            return Some(Err(Divergence { tick: i as u64, expected, actual }));
        }
        i = i + 1;
    }
    assert(trace.hashes@ =~= want);
    Some(Ok(()))
}

/// Run again from the seed and the log and compare at every tick.
pub fn verify(trace: &Trace, log: &InputLog) -> (r: Result<(), Divergence>)
    requires
        10 * trace.per_race < u32::MAX,
        log.ready(),
        sustains(origin(*trace), log@, trace.hashes@.len() as int),
    ensures
        match r {
            Ok(()) => agrees(*trace, log@),
            Err(d) => parts_at(*trace, log@, d),
        },
{
    match try_verify(trace, log) {
        Some(r) => r,
        None => Ok(()),
    }
}

/// The id that a script picks among `live` ids.
pub open spec fn picked(seed: u64, t: u64, salt: u32, c: Channel, live: u32) -> u32 {
    (1 + draw_below(seed, t, salt, c, if live == 0 {
        1
    } else {
        live
    })) as u32
}

/// The commands that a script gives at tick `t`: a heading about every third
/// tick, a birth about every fortieth, a death about every ninetieth.
pub open spec fn script(seed: u64, t: u64, live: u32) -> Seq<Command> {
    let steer = Command {
        tick: t,
        entity: picked(seed, t, 1, Channel::Wander, live),
        kind: CmdKind::SetHeading {
            dir: V2 {
                x: draw_signed(seed, t, 2, Channel::Wander),
                y: draw_signed(seed, t, 3, Channel::Wander),
            },
        },
    };
    let birth = Command {
        tick: t,
        entity: 0,
        kind: CmdKind::Spawn {
            element: element_at(draw_below(seed, t, 5, Channel::SpawnPlacement, 5)),
            kind: Kind::Animal,
            at: V2 {
                x: Fx::of_int(draw_below(seed, t, 6, Channel::SpawnPlacement, 60)),
                y: Fx::of_int(draw_below(seed, t, 7, Channel::SpawnPlacement, 60)),
            },
        },
    };
    let death = Command {
        tick: t,
        entity: picked(seed, t, 9, Channel::Crit, live),
        kind: CmdKind::Kill,
    };
    let a = if draw_below(seed, t, 0, Channel::Wander, 3) == 0 {
        seq![steer]
    } else {
        Seq::empty()
    };
    let b = if draw_below(seed, t, 4, Channel::SpawnPlacement, 40) == 0 {
        seq![birth]
    } else {
        Seq::empty()
    };
    let c = if draw_below(seed, t, 8, Channel::Crit, 90) == 0 {
        seq![death]
    } else {
        Seq::empty()
    };
    a + b + c
}

/// The commands that a script gives in its first `n` ticks.
pub open spec fn scripted(seed: u64, n: int, live: u32) -> Seq<Command>
    decreases n,
{
    if n <= 0 {
        Seq::empty()
    } else {
        scripted(seed, n - 1, live) + script(seed, (n - 1) as u64, live)
    }
}

fn pick(seed: u64, t: u64, salt: u32, c: Channel, live: u32) -> (r: u32)
    ensures
        r == picked(seed, t, salt, c, live),
{
    let n: u32 = if live == 0 {
        1
    } else {
        live
    };
    proof {
        law_draw_below_bound(seed, t, salt, c, n);
    }
    1 + rand_below(seed, t, salt, c, n)
}

/// Append the commands of one scripted tick.
fn script_tick(log: &mut InputLog, seed: u64, t: u64, live: u32)
    ensures
        final(log)@ == old(log)@ + script(seed, t, live),
        old(log).wf() ==> final(log).wf(),
{
    let ghost before = log@;
    if rand_below(seed, t, 0, Channel::Wander, 3) == 0 {
        let target: u32 = pick(seed, t, 1, Channel::Wander, live);
        log.push(
            Command {
                tick: t,
                entity: target,
                kind: CmdKind::SetHeading {
                    dir: V2::new(
                        rand_signed(seed, t, 2, Channel::Wander),
                        rand_signed(seed, t, 3, Channel::Wander),
                    ),
                },
            },
        );
    }
    if rand_below(seed, t, 4, Channel::SpawnPlacement, 40) == 0 {
        proof {
            law_draw_below_bound(seed, t, 5, Channel::SpawnPlacement, 5);
            law_draw_below_bound(seed, t, 6, Channel::SpawnPlacement, 60);
            law_draw_below_bound(seed, t, 7, Channel::SpawnPlacement, 60);
        }
        let e: Element = Element::from_index(
            rand_below(seed, t, 5, Channel::SpawnPlacement, 5) as usize,
        );
        let x: Fx = Fx::from_int(rand_below(seed, t, 6, Channel::SpawnPlacement, 60) as i32);
        let y: Fx = Fx::from_int(rand_below(seed, t, 7, Channel::SpawnPlacement, 60) as i32);
        log.push(
            Command {
                tick: t,
                entity: 0,
                kind: CmdKind::Spawn { element: e, kind: Kind::Animal, at: V2::new(x, y) },
            },
        );
    }
    if rand_below(seed, t, 8, Channel::Crit, 90) == 0 {
        let target: u32 = pick(seed, t, 9, Channel::Crit, live);
        log.push(Command { tick: t, entity: target, kind: CmdKind::Kill });
    }
    assert(log@ =~= before + script(seed, t, live));
}

/// A deterministic stream of headings, births and deaths scattered over a
/// run, so that a replay has commands to order.
pub fn scripted_log(seed: u64, ticks: u64, live_ids: u32) -> (log: InputLog)
    ensures
        log@ == sorted(scripted(seed, ticks as int, live_ids)),
        log.ready(),
{
    let mut log: InputLog = InputLog::new();
    let mut t: u64 = 0;
    while t < ticks
        invariant
            t <= ticks,
            log.wf(),
            log@ == scripted(seed, t as int, live_ids),
        decreases ticks - t,
    {
        script_tick(&mut log, seed, t, live_ids);
        t = t + 1;
    }
    log.finalize();
    log
}

} // verus!
