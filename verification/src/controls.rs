//! What knobs and keys do.
use crate::console::{after, ran, tame, ConsoleV, Effect, ScreenV, Sim};
use crate::fx::{abs_int, max_int, min_int, Fx};
use crate::keys::Key;
use crate::race::{action_for, lemma_action_for, ActionSlot, Race, RateLaw};
use crate::tuning::{
    in_cells, in_permille, is_table, kept, law_a_knob_shows_what_it_was_set_to,
    lemma_action_replaced, nudged, page_axis, page_ids, reading, row, shipped_tuning, shown_ratio,
    with_rate, with_ratio_in, with_ratio_out, written, Axis, KnobId, Step, TuningV,
};
use vstd::prelude::*;

verus! {

/// A length in cells is shown to the nearest hundredth.
pub proof fn law_lengths_show_to_the_nearest_hundredth(f: Fx)
    requires
        f.0 >= 0,
    ensures
        abs_int(f.0 * 100 - in_cells(f) * 65536) <= 32768,
{
}

/// A part of one is shown in thousandths, rounded down.
pub proof fn law_parts_show_in_thousandths(f: Fx)
    requires
        f.0 >= 0,
    ensures
        in_permille(f) * 65536 <= f.0 * 1000 < (in_permille(f) + 1) * 65536,
{
}

/// A knob that has a number for every race, not only for every element.
pub open spec fn by_race(id: KnobId) -> bool {
    id == KnobId::Lifespan || id == KnobId::LifeVariance || id == KnobId::Speed || id
        == KnobId::Radius || id == KnobId::Restock || id == KnobId::RatioIn || id
        == KnobId::RatioOut || id == KnobId::MiningRate || id == KnobId::FleeThreshold || id
        == KnobId::SenseRadius || id == KnobId::TurnRate
}

/// Setting a knob for one element leaves what it shows for every other; one that
/// goes by race leaves what it shows for the other kind too. Only the length of
/// the season is one for all.
pub proof fn law_a_knob_is_set_for_its_own(id: KnobId, t: TuningV, r: Race, q: Race, v: i64)
    requires
        is_table(t),
        id != KnobId::SeasonLength,
        q.element != r.element || (by_race(id) && q != r),
    ensures
        reading(id, written(id, t, r, v), q) == reading(id, t, q),
{
    crate::race::law_race_positions(r, 0);
    crate::race::law_race_positions(q, 0);
}

/// Setting a knob leaves what every other knob shows, whomever it is set for.
/// One pair is tied: output units follow input units down.
#[verifier::rlimit(40)]
pub proof fn law_a_knob_turns_nothing_else(
    id: KnobId,
    other: KnobId,
    t: TuningV,
    r: Race,
    q: Race,
    v: i64,
)
    requires
        is_table(t),
        other != id,
    ensures
        id == KnobId::RatioIn && other == KnobId::RatioOut && q == r || reading(
            other,
            written(id, t, r, v),
            q,
        ) == reading(other, t, q),
        id == KnobId::RatioIn && other == KnobId::RatioOut && 1 <= v <= 100_000 && action_for(
            t.races[r.at()].actions,
            ActionSlot::Exist,
        ) is Some ==> reading(other, written(id, t, r, v), r) == min_int(
            v as int,
            reading(other, t, r) as int,
        ),
{
    crate::race::law_race_positions(r, 0);
    crate::race::law_race_positions(q, 0);
    let s = t.races[r.at()].actions;
    lemma_action_for(s, ActionSlot::Exist);
    lemma_action_for(s, ActionSlot::Mine);
    if id == KnobId::RatioIn {
        let u = with_ratio_in(s, v as u32);
        lemma_action_replaced(s, ActionSlot::Exist, u);
        lemma_action_replaced(s, ActionSlot::Mine, u);
        lemma_action_for(u, ActionSlot::Exist);
        lemma_action_for(u, ActionSlot::Mine);
    } else if id == KnobId::RatioOut {
        let u = with_ratio_out(s, v as u32);
        lemma_action_replaced(s, ActionSlot::Exist, u);
        lemma_action_replaced(s, ActionSlot::Mine, u);
        lemma_action_for(u, ActionSlot::Exist);
        lemma_action_for(u, ActionSlot::Mine);
    } else if id == KnobId::MiningRate {
        let u = with_rate(s, v as u16);
        lemma_action_replaced(s, ActionSlot::Exist, u);
        lemma_action_replaced(s, ActionSlot::Mine, u);
        lemma_action_for(u, ActionSlot::Exist);
        lemma_action_for(u, ActionSlot::Mine);
    }
}

/// A nudge up raises a value of the range and one down lowers it, until the end
/// of the range is reached; a coarse one goes at least as far as a fine one. On
/// an additive knob a coarse nudge is ten fine ones and a nudge down undoes one up,
/// away from the ends; on a proportional one it doubles or halves.
pub proof fn law_a_nudge_goes_its_way(id: KnobId, v: int, coarse: bool)
    requires
        row(id).2 <= v <= row(id).3,
    ensures
        ({
            let (_, step, lo, hi) = row(id);
            let up = kept(nudged(step, v, true, coarse), lo, hi);
            let down = kept(nudged(step, v, false, coarse), lo, hi);
            &&& lo <= down <= v <= up <= hi
            &&& v < hi ==> v < up
            &&& v > lo ==> down < v
            &&& kept(nudged(step, v, true, false), lo, hi) <= up || !coarse
            &&& down <= kept(nudged(step, v, false, false), lo, hi) || !coarse
            &&& step == Step::Scale && coarse && v >= 1 ==> up == min_int(2 * v, hi as int) && down
                == max_int(v / 2, lo as int)
            &&& step == Step::Scale && !coarse && v >= 10 && up < hi ==> 10 * (up - v) <= v < 10 * (up
                - v + 1)
            &&& step is Add && coarse ==> up == min_int(v + 10 * step->Add_0, hi as int) && down
                == max_int(v - 10 * step->Add_0, lo as int)
            &&& step is Add && up < hi ==> kept(nudged(step, up as int, false, coarse), lo, hi) == v
        }),
{
}

/// The number is that many hundredths, rounded down to a raw unit.
pub open spec fn hundredths(f: Fx, n: int) -> bool {
    f.0 * 100 <= n * 65536 < (f.0 + 1) * 100
}

/// A knob that is set to a value of its range puts it where its name says: in the
/// row of the race, or at its element. (Those of the recipes change the
/// recipe: see [`law_a_recipe_knob_changes_its_recipe`].)
pub proof fn law_a_knob_sets_the_number_it_names(id: KnobId, t: TuningV, r: Race, v: i64)
    requires
        is_table(t),
        row(id).2 <= v <= row(id).3,
    ensures
        ({
            let u = written(id, t, r, v);
            let (k, e) = (r.at(), r.element.at());
            &&& id == KnobId::Lifespan ==> u.races[k].lifespan == v
            &&& id == KnobId::LifeVariance ==> u.races[k].lifespan_variance == v
            &&& id == KnobId::Speed ==> hundredths(u.races[k].speed, v as int)
            &&& id == KnobId::Radius ==> hundredths(u.races[k].radius, v as int)
            &&& id == KnobId::Restock ==> u.restock[k] == v
            &&& id == KnobId::DiffuseRate ==> u.diffuse_rate[e] == v
            &&& id == KnobId::DiffuseCap ==> u.diffuse_cap[e] == v
            &&& id == KnobId::BaseLo ==> u.base_range[e].0 == v
            &&& id == KnobId::BaseHi ==> u.base_range[e].1 == v
            &&& id == KnobId::ClimateFloor ==> u.floor[e] == v
            &&& id == KnobId::SeasonPeak ==> u.season_peak[e] == v
            &&& id == KnobId::SeasonLength ==> u.season_ticks == v
            &&& id == KnobId::ForageRadius ==> hundredths(u.forage_radius[e], v as int)
            &&& id == KnobId::Satiation ==> u.satiation[e] == v
            &&& id == KnobId::FeedGain ==> u.feed_gain[e] == v
            &&& id == KnobId::StarveAfter ==> u.starve_after[e] == v
            &&& id == KnobId::StarveRate ==> u.starve_rate[e] == v
            &&& id == KnobId::ReproThreshold ==> u.repro_threshold[e] == v
            &&& id == KnobId::AttritionRate ==> u.attrition_rate[e] == v
            &&& id == KnobId::SuppressionRate ==> u.suppression_rate[e] == v
            &&& id == KnobId::Period ==> u.period[e] == v
            &&& id == KnobId::Chance ==> u.chance[e] == v
            &&& id == KnobId::OffspringSize ==> u.offspring_size[e] == v
            &&& id == KnobId::RootMin ==> u.root_min[e] == v
            &&& id == KnobId::Dispersal ==> hundredths(u.dispersal[e], v as int)
            &&& id == KnobId::CrowdMax ==> u.crowd_max[e] == v
            &&& id == KnobId::FleeThreshold ==> u.flee_threshold[k] == v
            &&& id == KnobId::SenseRadius ==> u.sense_radius[k] == v
            &&& id == KnobId::TurnRate ==> u.turn_rate[k].0 * 1000 <= v * 65536 < (u.turn_rate[k].0 + 1) * 1000
        }),
{
    crate::race::law_race_positions(r, 0);
}

/// The knobs of the recipes change one number of one recipe of the race: the
/// units that existing takes or gives, or the base rate of mining. Every other
/// recipe stays.
pub proof fn law_a_recipe_knob_changes_its_recipe(
    id: KnobId,
    t: TuningV,
    r: Race,
    v: i64,
    slot: ActionSlot,
)
    requires
        is_table(t),
        row(id).2 <= v <= row(id).3,
        id == KnobId::RatioIn || id == KnobId::RatioOut || id == KnobId::MiningRate,
    ensures
        ({
            let own = if id == KnobId::MiningRate {
                ActionSlot::Mine
            } else {
                ActionSlot::Exist
            };
            let was = action_for(t.races[r.at()].actions, slot);
            let now = action_for(written(id, t, r, v).races[r.at()].actions, slot);
            &&& slot != own || was is None ==> now == was
            &&& slot == own && was is Some ==> {
                &&& now is Some
                &&& id == KnobId::RatioIn ==> now->0.ratio_in == v && now->0.rate == was->0.rate
                &&& id == KnobId::RatioOut ==> now->0.ratio_out == min_int(
                    v as int,
                    was->0.ratio_in as int,
                ) && now->0.ratio_in == was->0.ratio_in && now->0.rate == was->0.rate
                &&& id == KnobId::MiningRate ==> now->0.rate.spec_requested(0, 0) == v
                    && now->0.ratio_in == was->0.ratio_in && now->0.ratio_out == was->0.ratio_out
            }
        }),
{
    crate::race::law_race_positions(r, 0);
    let s = t.races[r.at()].actions;
    let u = written(id, t, r, v).races[r.at()].actions;
    lemma_action_for(s, ActionSlot::Exist);
    lemma_action_for(s, ActionSlot::Mine);
    lemma_action_for(s, slot);
    lemma_action_replaced(s, slot, u);
    lemma_action_for(u, slot);
    if id == KnobId::MiningRate {
        match action_for(s, ActionSlot::Mine) {
            Some(a) => {
                if let RateLaw::NeighborScaled { base, per_neighbor, per_size } = a.rate {
                    assert(per_neighbor * 0 == 0) by (nonlinear_arith);
                    assert(per_size * 0 == 0) by (nonlinear_arith);
                }
            },
            None => {},
        }
    }
}

/// Every knob is on one page, and there once.
pub proof fn law_every_knob_is_on_one_page(p: int, i: int, q: int, j: int)
    requires
        0 <= p < 5,
        0 <= q < 5,
        0 <= i < page_ids(p).len(),
        0 <= j < page_ids(q).len(),
    ensures
        page_ids(p)[i] == page_ids(q)[j] ==> p == q && i == j,
{
}

/// A page shows one column for each race where its knobs go by race, and else one
/// for each element.
pub proof fn law_a_page_has_the_columns_of_its_knobs(p: int, i: int)
    requires
        0 <= p < 5,
        0 <= i < page_ids(p).len(),
    ensures
        page_axis(p) == Axis::Race <==> by_race(page_ids(p)[i]),
{
}

/// There is a page with the knob.
pub proof fn law_no_knob_is_left_out(id: KnobId)
    ensures
        exists|p: int, i: int|
            0 <= p < 5 && 0 <= i < page_ids(p).len() && #[trigger] page_ids(p)[i] == id,
{
    let (p0, p1, p2, p3, p4) = (page_ids(0), page_ids(1), page_ids(2), page_ids(3), page_ids(4));
}

/// The console after two keys.
pub open spec fn twice(c: ConsoleV, a: Key, b: Key) -> ConsoleV {
    c.handled(a).0.handled(b).0
}

/// The arrows move the cursor by one and take it round at the edge; none touches
/// the tables or the run. A letter stands for each.
pub proof fn law_arrows_move_the_cursor(c: ConsoleV)
    requires
        c.wf(),
    ensures
        ({
            let v = c.screen;
            let n = page_ids(v.page).len();
            let down = c.handled(Key::Down).0;
            let right = c.handled(Key::Right).0;
            let next = c.handled(Key::Char('\t')).0;
            &&& down == (ConsoleV { screen: ScreenV { row: down.screen.row, ..v }, ..c })
            &&& v.row + 1 < n ==> down.screen.row == v.row + 1
            &&& v.row + 1 == n ==> down.screen.row == 0
            &&& right == (ConsoleV { screen: ScreenV { col: right.screen.col, ..v }, ..c })
            &&& v.col < 4 ==> right.screen.col == v.col + 1
            &&& v.col == 4 ==> right.screen.col == 0
            &&& next == (ConsoleV {
                screen: ScreenV { page: next.screen.page, row: 0, ..v },
                ..c
            })
            &&& v.page < 4 ==> next.screen.page == v.page + 1
            &&& v.page == 4 ==> next.screen.page == 0
            &&& c.handled(Key::Char('j')) == c.handled(Key::Down) && c.handled(Key::Char('k'))
                == c.handled(Key::Up)
            &&& c.handled(Key::Char('h')) == c.handled(Key::Left) && c.handled(Key::Char('l'))
                == c.handled(Key::Right)
        }),
{
    lemma_sideways(c);
    lemma_upright(c);
    let next = c.handled(Key::Char('\t')).0;
    assert(next =~= (ConsoleV {
        screen: ScreenV { page: next.screen.page, row: 0, ..c.screen },
        ..c
    }));
}

/// Opposite arrows undo each other.
pub proof fn law_opposite_arrows_undo_each_other(c: ConsoleV)
    requires
        c.wf(),
    ensures
        twice(c, Key::Down, Key::Up) == c,
        twice(c, Key::Up, Key::Down) == c,
        twice(c, Key::Left, Key::Right) == c,
        twice(c, Key::Right, Key::Left) == c,
{
    lemma_sideways(c);
    lemma_upright(c);
    lemma_sideways(c.handled(Key::Left).0);
    lemma_sideways(c.handled(Key::Right).0);
    lemma_upright(c.handled(Key::Up).0);
    lemma_upright(c.handled(Key::Down).0);
    assert(twice(c, Key::Down, Key::Up) =~= c);
    assert(twice(c, Key::Up, Key::Down) =~= c);
    assert(twice(c, Key::Left, Key::Right) =~= c);
    assert(twice(c, Key::Right, Key::Left) =~= c);
}

proof fn lemma_sideways(c: ConsoleV)
    requires
        c.wf(),
    ensures
        c.handled(Key::Right).0 == (ConsoleV {
            screen: ScreenV {
                col: if c.screen.col < 4 {
                    c.screen.col + 1
                } else {
                    0
                },
                ..c.screen
            },
            ..c
        }),
        c.handled(Key::Left).0 == (ConsoleV {
            screen: ScreenV {
                col: if c.screen.col > 0 {
                    c.screen.col - 1
                } else {
                    4
                },
                ..c.screen
            },
            ..c
        }),
{
}

proof fn lemma_upright(c: ConsoleV)
    requires
        c.wf(),
    ensures
        ({
            let n = page_ids(c.screen.page).len();
            &&& c.handled(Key::Down).0 == (ConsoleV {
                screen: ScreenV {
                    row: if c.screen.row + 1 < n {
                        c.screen.row + 1
                    } else {
                        0
                    },
                    ..c.screen
                },
                ..c
            })
            &&& c.handled(Key::Up).0 == (ConsoleV {
                screen: ScreenV {
                    row: if c.screen.row > 0 {
                        c.screen.row - 1
                    } else {
                        n - 1
                    },
                    ..c.screen
                },
                ..c
            })
        }),
{
    lemma_round(c.screen.row, page_ids(c.screen.page).len() as int);
}

/// One further of `n`, counted round.
proof fn lemma_round(i: int, n: int)
    requires
        0 <= i < n,
    ensures
        (i + 1) % n == (if i + 1 < n {
            i + 1
        } else {
            0
        }),
{
    if i + 1 < n {
        vstd::arithmetic::div_mod::lemma_small_mod((i + 1) as nat, n as nat);
    } else {
        vstd::arithmetic::div_mod::lemma_mod_self_0(n);
    }
}

/// Keys that switch a thing switch it back when pressed again, and leave the
/// tables; the one for the wander share comes round after seven.
pub proof fn law_switches_switch_back(c: ConsoleV)
    requires
        c.wf(),
    ensures
        ({
            let paused = c.handled(Key::Char(' ')).0;
            let hidden = c.handled(Key::Char('m')).0;
            let other = c.handled(Key::Char('x')).0;
            let wander = c.handled(Key::Char('w')).0;
            &&& paused.sim.paused == !c.sim.paused && paused.screen == c.screen && paused.tuning
                == c.tuning && twice(c, Key::Char(' '), Key::Char(' ')) == c
            &&& hidden.screen.show_map == !c.screen.show_map && hidden.sim == c.sim
                && hidden.tuning == c.tuning && twice(c, Key::Char('m'), Key::Char('m')) == c
            &&& other.screen.kind != c.screen.kind && other.sim == c.sim && other.tuning == c.tuning
                && other.screen.race().element == c.screen.race().element
            &&& wander.tuning == c.tuning && wander.sim.wander == (if c.sim.wander == 6 {
                0
            } else {
                c.sim.wander + 1
            })
        }),
{
    assert(twice(c, Key::Char(' '), Key::Char(' ')) =~= c);
    assert(twice(c, Key::Char('m'), Key::Char('m')) =~= c);
}

/// One key doubles the speed and one halves it, within the limits; and a single
/// step holds the run and has the next frames run a hundred ticks in all.
pub proof fn law_speed_keys(c: ConsoleV)
    requires
        c.wf(),
    ensures
        ({
            let fast = c.handled(Key::Char('>')).0;
            let slow = c.handled(Key::Char('<')).0;
            let step = c.handled(Key::Char('.')).0;
            &&& fast == (ConsoleV { sim: Sim { speed: fast.sim.speed, ..c.sim }, ..c })
            &&& fast.sim.speed == min_int(c.sim.speed + c.sim.speed, 200_000)
            &&& slow == (ConsoleV { sim: Sim { speed: slow.sim.speed, ..c.sim }, ..c })
            &&& slow.sim.speed >= 1 && slow.sim.speed <= c.sim.speed
            &&& c.sim.speed > 1 ==> 2 * slow.sim.speed <= c.sim.speed <= 2 * slow.sim.speed + 1
            &&& step.screen == c.screen && step.tuning == c.tuning
            &&& ran(step.sim, 1) == 100
            &&& ran(step.sim, 2) == 100
        }),
{
    let s = c.handled(Key::Char('.')).0.sim;
    reveal_with_fuel(ran, 3);
    reveal_with_fuel(after, 3);
    assert(c.handled(Key::Char('>')).0 =~= (ConsoleV {
        sim: Sim { speed: c.handled(Key::Char('>')).0.sim.speed, ..c.sim },
        ..c
    }));
}

/// Leaving, restarting and writing the tables each have their keys, and no other
/// key does any of these; leaving changes nothing.
pub proof fn law_what_is_left_to_do(c: ConsoleV, k: Key)
    ensures
        c.handled(k).1 == Effect::Quit <==> k == Key::Esc || k == Key::Char('q') || k == Key::Char(
            '\x03',
        ),
        c.handled(k).1 == Effect::Restart <==> k == Key::Char('z'),
        c.handled(k).1 == Effect::WriteTable <==> k == Key::Char('T'),
        c.handled(k).1 == Effect::Quit ==> c.handled(k).0 == c,
{
}

/// A restart begins the count of ticks and the history anew and keeps the tables.
pub proof fn law_a_restart_keeps_the_tables(c: ConsoleV, i: int)
    requires
        c.wf(),
        0 <= i < 10,
    ensures
        ({
            let z = c.handled(Key::Char('z')).0;
            &&& z.tuning == c.tuning
            &&& z.sim.ticked == 0
            &&& !z.sim.retuned
            &&& z.sim.speed == c.sim.speed
            &&& z.screen.history.len() == 10
            &&& z.screen.history[i].len() == 0
        }),
{
}

/// The knob under the cursor can be set to any value of its range.
pub open spec fn is_free(c: ConsoleV) -> bool {
    let id = c.screen.knob();
    let s = c.tuning.races[c.screen.race().at()].actions;
    &&& id != KnobId::TurnRate
    &&& id == KnobId::RatioIn || id == KnobId::RatioOut ==> action_for(s, ActionSlot::Exist) is Some
    &&& id == KnobId::MiningRate ==> action_for(s, ActionSlot::Mine) is Some
    &&& row(id).2 <= reading(id, c.tuning, c.screen.race()) <= row(id).3
    &&& id == KnobId::RatioOut ==> shown_ratio(s, true) == row(id).3
}

/// The key turns the knob under the cursor: what it shows rises or falls, unless
/// it is at its end already; every other knob shows what it did, for everyone; and
/// the run is marked as retuned.
#[verifier::rlimit(40)]
pub proof fn law_keys_turn_the_knob_under_the_cursor(
    c: ConsoleV,
    k: Key,
    up: bool,
    coarse: bool,
    other: KnobId,
    q: Race,
)
    requires
        c.wf(),
        is_free(c),
        up && !coarse ==> k == Key::Char('+') || k == Key::Char('='),
        !up && !coarse ==> k == Key::Char('-') || k == Key::Char('_'),
        up && coarse ==> k == Key::Char(']') || k == Key::ShiftRight,
        !up && coarse ==> k == Key::Char('[') || k == Key::ShiftLeft,
    ensures
        ({
            let d = c.handled(k).0;
            let (id, r) = (c.screen.knob(), c.screen.race());
            let (was, now) = (reading(id, c.tuning, r), reading(id, d.tuning, r));
            &&& d.screen == c.screen
            &&& d.sim == (Sim { retuned: true, ..c.sim })
            &&& up && was < row(id).3 ==> was < now <= row(id).3
            &&& !up && was > row(id).2 ==> row(id).2 <= now < was
            &&& up && was == row(id).3 || !up && was == row(id).2 ==> now == was
            &&& row(id).1 is Add && up ==> now == min_int(
                was + row(id).1->Add_0 * (if coarse {
                    10int
                } else {
                    1int
                }),
                row(id).3 as int,
            )
            &&& other != id && id != KnobId::RatioIn ==> reading(other, d.tuning, q) == reading(
                other,
                c.tuning,
                q,
            )
        }),
{
    let (id, r) = (c.screen.knob(), c.screen.race());
    let was = reading(id, c.tuning, r) as int;
    let v = kept(nudged(row(id).1, was, up, coarse), row(id).2, row(id).3);
    reveal(ConsoleV::turned);
    reveal(tame);
    law_a_nudge_goes_its_way(id, was, coarse);
    law_a_knob_shows_what_it_was_set_to(id, c.tuning, r, v);
    if other != id {
        law_a_knob_turns_nothing_else(id, other, c.tuning, r, q, v);
    }
    assert(c.handled(k).0.screen =~= c.screen);
}

/// The key for everything puts the shipped tables back and keeps the numbers that
/// races are restocked to; the one for a knob puts just that knob back, and says so.
pub proof fn law_keys_put_the_shipped_values_back(c: ConsoleV, id: KnobId, r: Race, many: Seq<u32>)
    requires
        c.wf(),
        many.len() == 10,
    ensures
        ({
            let all = c.handled(Key::Char('R')).0.tuning;
            let one = c.handled(Key::Char('r')).0.tuning;
            let (own, at) = (c.screen.knob(), c.screen.race());
            let shipped = shipped_tuning(many);
            &&& id != KnobId::Restock ==> reading(id, all, r) == reading(id, shipped, r)
            &&& reading(KnobId::Restock, all, r) == reading(KnobId::Restock, c.tuning, r)
            &&& own != KnobId::Restock && is_free(c) && row(own).2 <= reading(own, shipped, at)
                <= row(own).3 ==> reading(own, one, at) == reading(own, shipped, at)
            &&& own == KnobId::Restock ==> reading(own, one, at) == reading(own, c.tuning, at)
            &&& id != own && own != KnobId::RatioIn ==> reading(id, one, r) == reading(
                id,
                c.tuning,
                r,
            )
        }),
{
    let (own, at) = (c.screen.knob(), c.screen.race());
    crate::race::law_race_positions(r, 0);
    crate::race::law_race_positions(at, 0);
    reveal(ConsoleV::undone);
    reveal(tame);
    let n = c.tuning.restock[at.at()];
    let v = reading(own, shipped_tuning(Seq::new(10, |i: int| n)), at);
    assert(n <= 250);
    if own == KnobId::Restock {
        assert(v == n);
    } else {
        assert(v == reading(own, shipped_tuning(many), at));
    }
    if own == KnobId::Restock || is_free(c) && row(own).2 <= v <= row(own).3 {
        law_a_knob_shows_what_it_was_set_to(own, c.tuning, at, v);
    }
    if id != own {
        law_a_knob_turns_nothing_else(own, id, c.tuning, at, r, v);
    }
}

} // verus!
