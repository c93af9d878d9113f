//! A frame of the console, as text with escape sequences.
use crate::console::{headcount, lemma_tame_reading, population_by_race, tame, Screen, ScreenV};
use crate::element::{element_at, Element};
use crate::atlas::{
    bright, clear_line, dim, ink_text, invert, map_text, plain, push_ink, push_repeated,
    repeated, world_map,
};
use crate::race::{
    action_for, ActionRecipe, ActionSlot, PerRace, Race, RaceAttrs, RateBand, TERRAIN_PERIOD,
};
use crate::table::{grouped, grouped_text, long_text, short_text};
use crate::terrain::{colour, rgb};
use crate::text::{decimal, digits, push_decimal, push_digits, push_signed, signed_decimal};
use crate::tuning::{
    base_rate, help_of, name_of, page, page_ids, page_title, reading, row, Knob, KnobId, Page, Step,
    Tuning, TuningV,
};
use crate::world::{living, World, WorldV};
use vstd::prelude::*;
use vstd::string::*;

verus! {

/// What a frame says of the run.
#[derive(Clone, Copy, PartialEq, Eq, Debug, Structural)]
pub struct Run {
    pub paused: bool,
    pub speed: u64,
    /// How many times faster than real time, once that is known.
    pub realtime: Option<u64>,
    pub retuned: bool,
    pub wander: u32,
}

// ----------------------------------------------------------------------
// Pieces.
// ----------------------------------------------------------------------

/// Text at the left of a column of `w` characters.
pub open spec fn left(t: Seq<char>, w: int) -> Seq<char> {
    t + repeated(" "@, w - t.len())
}

/// Text at the right of a column of `w` characters.
pub open spec fn right(t: Seq<char>, w: int) -> Seq<char> {
    repeated(" "@, w - t.len()) + t
}

fn push_left(s: &mut String, t: &str, w: usize)
    ensures
        final(s)@ == old(s)@ + left(t@, w as int),
{
    let ghost before = s@;
    let n: usize = t.unicode_len();
    s.append(t);
    push_repeated(
        s,
        " ",
        if n < w {
            w - n
        } else {
            0
        },
    );
    proof {
        if n >= w {
            assert(repeated(" "@, w - n) =~= repeated(" "@, 0));
        }
    }
    assert(s@ =~= before + left(t@, w as int));
}

fn push_right(s: &mut String, t: &str, w: usize)
    ensures
        final(s)@ == old(s)@ + right(t@, w as int),
{
    let ghost before = s@;
    let n: usize = t.unicode_len();
    push_repeated(
        s,
        " ",
        if n < w {
            w - n
        } else {
            0
        },
    );
    s.append(t);
    proof {
        if n >= w {
            assert(repeated(" "@, w - n) =~= repeated(" "@, 0));
        }
    }
    assert(s@ =~= before + right(t@, w as int));
}

/// The bar of one sample, of eight heights.
pub open spec fn bar(v: u32, max: u32) -> Seq<char> {
    let m = if max < 1 {
        1
    } else {
        max as int
    };
    let k = v * 7 / m;
    if k == 0 {
        "▁"@
    } else if k == 1 {
        "▂"@
    } else if k == 2 {
        "▃"@
    } else if k == 3 {
        "▄"@
    } else if k == 4 {
        "▅"@
    } else if k == 5 {
        "▆"@
    } else if k == 6 {
        "▇"@
    } else {
        "█"@
    }
}

/// The bars of the first `n` samples.
pub open spec fn bars(h: Seq<u32>, max: u32, n: int) -> Seq<char>
    decreases n,
{
    if n <= 0 {
        Seq::empty()
    } else {
        bars(h, max, n - 1) + bar(h[n - 1], max)
    }
}

/// The last `w` samples as bars, at the right of `w` characters.
#[verifier::opaque]
pub open spec fn spark_text(h: Seq<u32>, max: u32, w: int) -> Seq<char> {
    if h.len() > w {
        bars(h.skip(h.len() - w), max, w)
    } else {
        repeated(" "@, w - h.len()) + bars(h, max, h.len() as int)
    }
}

fn push_bar(s: &mut String, v: u32, max: u32)
    ensures
        final(s)@ == old(s)@ + bar(v, max),
{
    let m: u64 = if max < 1 {
        1
    } else {
        max as u64
    };
    let k: u64 = v as u64 * 7 / m;
    s.append(
        if k == 0 {
            "▁"
        } else if k == 1 {
            "▂"
        } else if k == 2 {
            "▃"
        } else if k == 3 {
            "▄"
        } else if k == 4 {
            "▅"
        } else if k == 5 {
            "▆"
        } else if k == 6 {
            "▇"
        } else {
            "█"
        },
    );
}

/// A population over time.
pub fn spark(h: &Vec<u32>, max: u32, w: usize) -> (r: String)
    ensures
        r@ == spark_text(h@, max, w as int),
{
    reveal(spark_text);
    let mut s: String = String::new();
    let start: usize = if h.len() > w {
        h.len() - w
    } else {
        push_repeated(&mut s, " ", w - h.len());
        0
    };
    let ghost before = s@;
    let ghost tail = h@.skip(start as int);
    let mut i: usize = start;
    assert(s@ =~= before + bars(tail, max, 0));
    while i < h.len()
        invariant
            start <= i <= h@.len(),
            tail == h@.skip(start as int),
            s@ == before + bars(tail, max, i - start),
        decreases h.len() - i,
    {
        push_bar(&mut s, h[i], max);
        i = i + 1;
        assert(s@ =~= before + bars(tail, max, i - start));
    }
    proof {
        if h@.len() <= w {
            assert(tail =~= h@);
        } else {
            assert(before =~= Seq::<char>::empty());
        }
    }
    assert(s@ =~= spark_text(h@, max, w as int));
    s
}

/// Where `x` is on a gauge of `w` cells that ends at the ceiling of a band.
pub open spec fn gauge_at(x: int, b: RateBand, w: int) -> int {
    let ceil = if b.ceiling < 1 {
        1
    } else {
        b.ceiling as int
    };
    x * w / ceil
}

/// One cell of a gauge.
pub open spec fn gauge_cell(i: int, fill: int, floor: int, nominal: int) -> Seq<char> {
    if i == nominal {
        "┊"@
    } else if i == floor {
        "╵"@
    } else if i < fill {
        "▓"@
    } else {
        "░"@
    }
}

/// The cells of a gauge from `from` up to `to`.
pub open spec fn gauge_cells(from: int, to: int, fill: int, floor: int, nominal: int) -> Seq<char>
    decreases to - from,
{
    if to <= from {
        Seq::empty()
    } else {
        gauge_cells(from, to - 1, fill, floor, nominal) + gauge_cell(to - 1, fill, floor, nominal)
    }
}

pub open spec fn up_to(x: int, top: int) -> int {
    if x > top {
        top
    } else {
        x
    }
}

/// A band drawn to scale from nothing to its ceiling, filled to what was
/// granted, with its floor and its nominal rate marked.
#[verifier::opaque]
pub open spec fn gauge_text(granted: u64, b: RateBand, c: Seq<char>, w: int) -> Seq<char> {
    let fill = up_to(gauge_at(granted as int, b, w), w);
    let floor = up_to(gauge_at(b.floor as int, b, w), w - 1);
    let nominal = up_to(gauge_at(b.nominal as int, b, w), w - 1);
    dim() + "│"@ + c + gauge_cells(0, fill, fill, floor, nominal) + dim() + gauge_cells(
        fill,
        w,
        fill,
        floor,
        nominal,
    ) + "│"@ + plain()
}

fn push_gauge_cells(s: &mut String, from: usize, to: usize, fill: usize, floor: usize, nominal: usize)
    requires
        from <= to,
    ensures
        final(s)@ == old(s)@ + gauge_cells(
            from as int,
            to as int,
            fill as int,
            floor as int,
            nominal as int,
        ),
{
    let ghost before = s@;
    let mut i: usize = from;
    assert(s@ =~= before + gauge_cells(
        from as int,
        from as int,
        fill as int,
        floor as int,
        nominal as int,
    ));
    while i < to
        invariant
            from <= i <= to,
            s@ == before + gauge_cells(
                from as int,
                i as int,
                fill as int,
                floor as int,
                nominal as int,
            ),
        decreases to - i,
    {
        s.append(
            if i == nominal {
                "┊"
            } else if i == floor {
                "╵"
            } else if i < fill {
                "▓"
            } else {
                "░"
            },
        );
        i = i + 1;
        assert(s@ =~= before + gauge_cells(
            from as int,
            i as int,
            fill as int,
            floor as int,
            nominal as int,
        ));
    }
}

fn gauge_place(x: u64, ceil: u64, w: usize, top: usize) -> (r: usize)
    requires
        1 <= ceil,
        x * w <= u64::MAX,
    ensures
        r == up_to(x * w / ceil as int, top as int),
{
    assert(0 <= x * w / ceil as int) by (nonlinear_arith)
        requires
            0 <= x,
            0 <= w,
            1 <= ceil,
    ;
    let p: u64 = x * w as u64 / ceil;
    if p > top as u64 {
        top
    } else {
        p as usize
    }
}

pub fn gauge(granted: u64, b: RateBand, c: &str, w: usize) -> (r: String)
    requires
        1 <= w <= u32::MAX,
        granted * w <= u64::MAX,
    ensures
        r@ == gauge_text(granted, b, c@, w as int),
{
    reveal(gauge_text);
    let ceil: u64 = if b.ceiling < 1 {
        1
    } else {
        b.ceiling as u64
    };
    proof {
        assert(b.floor * w <= u64::MAX && b.nominal * w <= u64::MAX) by (nonlinear_arith)
            requires
                0 <= w <= u32::MAX,
                0 <= b.floor <= u32::MAX,
                0 <= b.nominal <= u32::MAX,
        ;
    }
    let fill: usize = gauge_place(granted, ceil, w, w);
    let floor: usize = gauge_place(b.floor as u64, ceil, w, w - 1);
    let nominal: usize = gauge_place(b.nominal as u64, ceil, w, w - 1);
    let mut s: String = String::new();
    s.append("\x1b[38;2;110;118;134m");
    s.append("│");
    s.append(c);
    push_gauge_cells(&mut s, 0, fill, fill, floor, nominal);
    s.append("\x1b[38;2;110;118;134m");
    push_gauge_cells(&mut s, fill, w, fill, floor, nominal);
    s.append("│");
    s.append("\x1b[0m");
    assert(s@ =~= gauge_text(granted, b, c@, w as int));
    s
}

// ----------------------------------------------------------------------
// The header.
// ----------------------------------------------------------------------

pub open spec fn state_text(run: Run) -> Seq<char> {
    if run.paused {
        bright() + "▮▮ PAUSED"@ + plain()
    } else {
        dim() + "▶"@ + plain() + " "@ + decimal(run.speed as int) + " t/s"@
    }
}

pub open spec fn rate_text(run: Run) -> Seq<char> {
    match run.realtime {
        Some(x) => decimal(x as int) + "× real"@,
        None => "measuring…"@,
    }
}

pub open spec fn tuned_text(run: Run) -> Seq<char> {
    if run.retuned {
        "  "@ + bright() + "✎ retuned"@ + plain()
    } else {
        Seq::empty()
    }
}

/// Simulated time: days, hours and minutes.
pub open spec fn clock_text(tick: int) -> Seq<char> {
    let min = tick / 100;
    decimal(min / 1440) + "d "@ + digits((min / 60) % 24, 2) + "h "@ + digits(min % 60, 2)
        + "m sim"@
}

#[verifier::opaque]
pub open spec fn header_text(w: WorldV, run: Run) -> Seq<char> {
    bright() + "CHAOTIC NATURE"@ + plain() + dim() + " · live"@ + plain() + "   tick "@
        + grouped_text(w.tick as int) + "  ·  "@ + clock_text(w.tick as int) + "  ·  "@
        + state_text(run) + "  ·  "@ + rate_text(run) + "  ·  "@ + decimal(living(w.ents))
        + " alive"@ + dim() + "  ·  "@ + grouped_text(w.stats.feedings as int) + " fed, "@
        + grouped_text(w.stats.starved as int) + " starved"@ + plain() + tuned_text(run)
        + clear_line() + "\n"@
}

fn push_state(s: &mut String, run: &Run)
    ensures
        final(s)@ == old(s)@ + state_text(*run),
{
    let ghost before = s@;
    if run.paused {
        s.append("\x1b[38;2;232;234;239m");
        s.append("▮▮ PAUSED");
        s.append("\x1b[0m");
    } else {
        s.append("\x1b[38;2;110;118;134m");
        s.append("▶");
        s.append("\x1b[0m");
        s.append(" ");
        push_decimal(s, run.speed);
        s.append(" t/s");
    }
    assert(s@ =~= before + state_text(*run));
}

fn push_rate(s: &mut String, run: &Run)
    ensures
        final(s)@ == old(s)@ + rate_text(*run),
{
    let ghost before = s@;
    match run.realtime {
        Some(x) => {
            push_decimal(s, x);
            s.append("× real");
        },
        None => {
            s.append("measuring…");
        },
    }
    assert(s@ =~= before + rate_text(*run));
}

fn push_tuned(s: &mut String, run: &Run)
    ensures
        final(s)@ == old(s)@ + tuned_text(*run),
{
    let ghost before = s@;
    if run.retuned {
        s.append("  ");
        s.append("\x1b[38;2;232;234;239m");
        s.append("✎ retuned");
        s.append("\x1b[0m");
    }
    assert(s@ =~= before + tuned_text(*run));
}

fn push_clock(s: &mut String, tick: u64)
    ensures
        final(s)@ == old(s)@ + clock_text(tick as int),
{
    let ghost before = s@;
    let min: u64 = tick / TERRAIN_PERIOD;
    push_decimal(s, min / 1440);
    s.append("d ");
    push_digits(s, (min / 60) % 24, 2);
    s.append("h ");
    push_digits(s, min % 60, 2);
    s.append("m sim");
    assert(s@ =~= before + clock_text(tick as int));
}

/// The first line of a frame.
pub fn header(w: &World, run: &Run) -> (r: String)
    requires
        w.tick <= i64::MAX,
        w.stats.feedings <= i64::MAX,
        w.stats.starved <= i64::MAX,
    ensures
        r@ == header_text(w@, *run),
{
    reveal(header_text);
    let mut s: String = String::new();
    s.append("\x1b[38;2;232;234;239m");
    s.append("CHAOTIC NATURE");
    s.append("\x1b[0m");
    s.append("\x1b[38;2;110;118;134m");
    s.append(" · live");
    s.append("\x1b[0m");
    s.append("   tick ");
    s.append(grouped(w.tick as i64).as_str());
    s.append("  ·  ");
    push_clock(&mut s, w.tick);
    s.append("  ·  ");
    push_state(&mut s, run);
    s.append("  ·  ");
    push_rate(&mut s, run);
    s.append("  ·  ");
    push_decimal(&mut s, w.alive_count() as u64);
    s.append(" alive");
    s.append("\x1b[38;2;110;118;134m");
    s.append("  ·  ");
    s.append(grouped(w.stats.feedings as i64).as_str());
    s.append(" fed, ");
    s.append(grouped(w.stats.starved as i64).as_str());
    s.append(" starved");
    s.append("\x1b[0m");
    push_tuned(&mut s, run);
    s.append("\x1b[K");
    s.append("\n");
    assert(s@ =~= header_text(w@, *run));
    s
}

// ----------------------------------------------------------------------
// The races.
// ----------------------------------------------------------------------

/// The largest of the first `n` samples, and of `m`.
pub open spec fn peak_of(h: Seq<u32>, m: u32, n: int) -> u32
    decreases n,
{
    if n <= 0 {
        m
    } else {
        let p = peak_of(h, m, n - 1);
        if h[n - 1] > p {
            h[n - 1]
        } else {
            p
        }
    }
}

/// The largest sample of the first `n` races, at least 1.
pub open spec fn peak(h: Seq<Seq<u32>>, n: int) -> u32
    decreases n,
{
    if n <= 0 {
        1
    } else {
        peak_of(h[n - 1], peak(h, n - 1), h[n - 1].len() as int)
    }
}

/// The `Exist` recipe of a race: its rate, and what goes in and comes out.
#[verifier::opaque]
pub open spec fn exist_text(s: Seq<ActionRecipe>) -> Seq<char> {
    match action_for(s, ActionSlot::Exist) {
        Some(a) => right(decimal(base_rate(a.rate) as int), 7) + "  "@ + decimal(a.ratio_in as int)
            + " → "@ + decimal(a.ratio_out as int),
        None => right("—"@, 7),
    }
}

/// A line on one race, out of its pieces.
#[verifier::opaque]
pub open spec fn race_parts(e: Element, n: int, past: Seq<char>, exist: Seq<char>) -> Seq<char> {
    let c = ink_text(colour(e));
    c + left(e.spec_name(), 7) + plain() + right(decimal(n), 5) + "  "@ + c + past + plain() + " "@
        + exist + (if n == 0 {
        dim() + "  extinct"@ + plain()
    } else {
        Seq::empty()
    }) + clear_line() + "\n"@
}

/// A line on one race.
pub open spec fn race_line(w: WorldV, v: ScreenV, t: TuningV, e: int) -> Seq<char> {
    let r = Race { element: element_at(e), kind: v.kind };
    race_parts(
        r.element,
        headcount(w.ents, r),
        spark_text(v.history[r.at()], peak(v.history, 10), 16),
        exist_text(t.races[r.at()].actions),
    )
}

/// The lines on the first `n` elements.
pub open spec fn race_lines(w: WorldV, v: ScreenV, t: TuningV, n: int) -> Seq<char>
    decreases n,
{
    if n <= 0 {
        Seq::empty()
    } else {
        race_lines(w, v, t, n - 1) + race_line(w, v, t, n - 1)
    }
}

#[verifier::opaque]
pub open spec fn races_text(w: WorldV, v: ScreenV, t: TuningV) -> Seq<char> {
    dim() + "race    alive  population       exist rate  in → out"@ + plain() + clear_line() + "\n"@
        + race_lines(w, v, t, 5)
}

fn highest(h: &PerRace<Vec<u32>>) -> (m: u32)
    ensures
        m == peak(Seq::new(10, |i: int| h@[i]@), 10),
{
    let ghost all = Seq::new(10, |i: int| h@[i]@);
    let mut m: u32 = 1;
    let mut i: usize = 0;
    while i < 10
        invariant
            i <= 10,
            all == Seq::new(10, |i: int| h@[i]@),
            m == peak(all, i as int),
        decreases 10 - i,
    {
        let ghost start = m;
        let mut k: usize = 0;
        while k < h.0[i].len()
            invariant
                i < 10,
                k <= h@[i as int]@.len(),
                m == peak_of(h@[i as int]@, start, k as int),
            decreases h@[i as int]@.len() - k,
        {
            if h.0[i][k] > m {
                m = h.0[i][k];
            }
            k = k + 1;
        }
        assert(all[i as int] == h@[i as int]@);
        i = i + 1;
    }
    m
}

fn number(n: u64) -> (r: String)
    ensures
        r@ == decimal(n as int),
{
    let mut s: String = String::new();
    push_decimal(&mut s, n);
    assert(s@ =~= decimal(n as int));
    s
}

fn push_exist(s: &mut String, a: &RaceAttrs)
    ensures
        final(s)@ == old(s)@ + exist_text(a@.actions),
{
    reveal(exist_text);
    let ghost before = s@;
    match a.action(ActionSlot::Exist) {
        Some(x) => {
            let n: u16 = match x.rate {
                crate::race::RateLaw::Flat(n) => n,
                crate::race::RateLaw::NeighborScaled { base, .. } => base,
            };
            push_right(s, number(n as u64).as_str(), 7);
            s.append("  ");
            push_decimal(s, x.ratio_in as u64);
            s.append(" → ");
            push_decimal(s, x.ratio_out as u64);
        },
        None => {
            push_right(s, "—", 7);
        },
    }
    assert(s@ =~= before + exist_text(a@.actions));
}

fn push_race_parts(s: &mut String, e: Element, n: u32, past: &str, exist: &str)
    ensures
        final(s)@ == old(s)@ + race_parts(e, n as int, past@, exist@),
{
    reveal(race_parts);
    let ghost before = s@;
    push_ink(s, rgb(e));
    push_left(s, e.name(), 7);
    s.append("\x1b[0m");
    push_right(s, number(n as u64).as_str(), 5);
    s.append("  ");
    push_ink(s, rgb(e));
    s.append(past);
    s.append("\x1b[0m");
    s.append(" ");
    s.append(exist);
    if n == 0 {
        s.append("\x1b[38;2;110;118;134m");
        s.append("  extinct");
        s.append("\x1b[0m");
    }
    s.append("\x1b[K");
    s.append("\n");
    assert(s@ =~= before + race_parts(e, n as int, past@, exist@));
}

fn push_race_line(
    s: &mut String,
    w: &World,
    v: &Screen,
    t: &Tuning,
    pop: &PerRace<u32>,
    top: u32,
    e: usize,
)
    requires
        e < 5,
        top == peak(v.value().history, 10),
        forall|r: Race| #[trigger] pop@[r.at()] == headcount(w@.ents, r),
    ensures
        final(s)@ == old(s)@ + race_line(w@, v.value(), t@, e as int),
{
    let r: Race = Race { element: Element::from_index(e), kind: v.kind };
    proof {
        crate::race::law_race_positions(r, 0);
        assert(pop@[r.at()] == headcount(w@.ents, r));
        assert(v.value().history[r.at()] == v.history@[r.at()]@);
        assert(t@.races[r.at()] == t.races@[r.at()]@);
    }
    let past: String = spark(v.history.get(r), top, 16);
    let mut exist: String = String::new();
    push_exist(&mut exist, t.races.get(r));
    assert(exist@ =~= exist_text(t@.races[r.at()].actions));
    push_race_parts(s, r.element, *pop.get(r), past.as_str(), exist.as_str());
}

/// The lines on the races.
pub fn races(w: &World, v: &Screen, t: &Tuning) -> (r: String)
    requires
        v.value().wf(),
        w.entities@.len() <= u32::MAX,
    ensures
        r@ == races_text(w@, v.value(), t@),
{
    reveal(races_text);
    let top: u32 = highest(&v.history);
    assert(Seq::new(10, |i: int| v.history@[i]@) =~= v.value().history);
    let pop: PerRace<u32> = population_by_race(w);
    let mut s: String = String::new();
    s.append("\x1b[38;2;110;118;134m");
    s.append("race    alive  population       exist rate  in → out");
    s.append("\x1b[0m");
    s.append("\x1b[K");
    s.append("\n");
    let ghost start = s@;
    let mut e: usize = 0;
    assert(s@ =~= start + race_lines(w@, v.value(), t@, 0));
    while e < 5
        invariant
            e <= 5,
            top == peak(v.value().history, 10),
            forall|r: Race| #[trigger] pop@[r.at()] == headcount(w@.ents, r),
            s@ == start + race_lines(w@, v.value(), t@, e as int),
        decreases 5 - e,
    {
        push_race_line(&mut s, w, v, t, &pop, top, e);
        e = e + 1;
        assert(s@ =~= start + race_lines(w@, v.value(), t@, e as int));
    }
    assert(s@ =~= races_text(w@, v.value(), t@));
    s
}

// ----------------------------------------------------------------------
// The table.
// ----------------------------------------------------------------------

/// The width of a column of the table.
pub open spec fn column_width(cols: int) -> int {
    let n = if cols < 20 {
        0
    } else {
        (cols - 20) / 5
    };
    if n < 8 {
        8
    } else if n > 14 {
        14
    } else {
        n
    }
}

/// The names over the first `n` columns.
pub open spec fn heads_text(cw: int, n: int) -> Seq<char>
    decreases n,
{
    if n <= 0 {
        Seq::empty()
    } else {
        heads_text(cw, n - 1) + ink_text(colour(element_at(n - 1))) + right(
            element_at(n - 1).spec_name(),
            cw,
        ) + plain()
    }
}

/// One cell of the table; the row of the cursor is lit, and its cell inverted.
#[verifier::opaque]
pub open spec fn cell_text(v: ScreenV, t: TuningV, id: KnobId, i: int, e: int, cw: int) -> Seq<char> {
    let r = Race { element: element_at(e), kind: v.kind };
    let inside = right(short_text(row(id).0, reading(id, t, r) as int), cw);
    if i == v.row && e == v.col {
        invert() + inside + plain()
    } else if i == v.row {
        bright() + inside + plain()
    } else {
        inside
    }
}

/// The first `n` cells of row `i`.
pub open spec fn cells_text(v: ScreenV, t: TuningV, id: KnobId, i: int, cw: int, n: int) -> Seq<char>
    decreases n,
{
    if n <= 0 {
        Seq::empty()
    } else {
        cells_text(v, t, id, i, cw, n - 1) + cell_text(v, t, id, i, n - 1, cw)
    }
}

/// Row `i` of the table.
#[verifier::opaque]
pub open spec fn knob_line(v: ScreenV, t: TuningV, i: int, cw: int) -> Seq<char> {
    let id = page_ids(v.page)[i];
    (if i == v.row {
        bright()
    } else {
        dim()
    }) + left(name_of(id), 18) + plain() + cells_text(v, t, id, i, cw, 5) + clear_line() + "\n"@
}

/// The first `n` rows of the table.
pub open spec fn knob_lines(v: ScreenV, t: TuningV, cw: int, n: int) -> Seq<char>
    decreases n,
{
    if n <= 0 {
        Seq::empty()
    } else {
        knob_lines(v, t, cw, n - 1) + knob_line(v, t, n - 1, cw)
    }
}

#[verifier::opaque]
pub open spec fn grid_text(v: ScreenV, t: TuningV, cols: int) -> Seq<char> {
    let cw = column_width(cols);
    dim() + "── knobs ── "@ + page_title(v.page) + "   (tab: page "@ + decimal(v.page + 1) + "/5)"@
        + plain() + clear_line() + "\n"@ + left(""@, 18) + heads_text(cw, 5) + clear_line() + "\n"@
        + knob_lines(v, t, cw, page_ids(v.page).len() as int)
}

fn push_heads(s: &mut String, cw: usize)
    ensures
        final(s)@ == old(s)@ + heads_text(cw as int, 5),
{
    let ghost before = s@;
    let mut e: usize = 0;
    assert(s@ =~= before + heads_text(cw as int, 0));
    while e < 5
        invariant
            e <= 5,
            s@ == before + heads_text(cw as int, e as int),
        decreases 5 - e,
    {
        let el: Element = Element::from_index(e);
        push_ink(s, rgb(el));
        push_right(s, el.name(), cw);
        s.append("\x1b[0m");
        e = e + 1;
        assert(s@ =~= before + heads_text(cw as int, e as int));
    }
}

fn push_cell(s: &mut String, v: &Screen, t: &Tuning, k: &Knob, i: usize, e: usize, cw: usize)
    requires
        e < 5,
        k.wf(),
        tame(t@),
    ensures
        final(s)@ == old(s)@ + cell_text(v.value(), t@, k.id, i as int, e as int, cw as int),
{
    reveal(cell_text);
    let ghost before = s@;
    let r: Race = Race { element: Element::from_index(e), kind: v.kind };
    proof {
        lemma_tame_reading(k.id, t@, r);
    }
    let inside: String = k.short(k.value(t, r));
    if i == v.row && e == v.col {
        s.append("\x1b[7m");
        push_right(s, inside.as_str(), cw);
        s.append("\x1b[0m");
    } else if i == v.row {
        s.append("\x1b[38;2;232;234;239m");
        push_right(s, inside.as_str(), cw);
        s.append("\x1b[0m");
    } else {
        push_right(s, inside.as_str(), cw);
    }
    assert(s@ =~= before + cell_text(v.value(), t@, k.id, i as int, e as int, cw as int));
}

fn push_knob_line(s: &mut String, v: &Screen, t: &Tuning, k: &Knob, i: usize, cw: usize)
    requires
        k.wf(),
        k.id == page_ids(v.page as int)[i as int],
        tame(t@),
    ensures
        final(s)@ == old(s)@ + knob_line(v.value(), t@, i as int, cw as int),
{
    reveal(knob_line);
    let ghost start = s@;
    let ghost sv = v.value();
    s.append(
        if i == v.row {
            "\x1b[38;2;232;234;239m"
        } else {
            "\x1b[38;2;110;118;134m"
        },
    );
    push_left(s, k.name, 18);
    s.append("\x1b[0m");
    let ghost before = s@;
    let mut e: usize = 0;
    assert(s@ =~= before + cells_text(sv, t@, k.id, i as int, cw as int, 0));
    while e < 5
        invariant
            e <= 5,
            k.wf(),
            tame(t@),
            sv == v.value(),
            s@ == before + cells_text(sv, t@, k.id, i as int, cw as int, e as int),
        decreases 5 - e,
    {
        push_cell(s, v, t, k, i, e, cw);
        e = e + 1;
        assert(s@ =~= before + cells_text(sv, t@, k.id, i as int, cw as int, e as int));
    }
    s.append("\x1b[K");
    s.append("\n");
    assert(s@ =~= start + knob_line(sv, t@, i as int, cw as int));
}

/// The table with its cursor.
pub fn grid(v: &Screen, t: &Tuning, cols: usize) -> (r: String)
    requires
        v.value().wf(),
        tame(t@),
    ensures
        r@ == grid_text(v.value(), t@, cols as int),
{
    reveal(grid_text);
    let n: usize = if cols < 20 {
        0
    } else {
        (cols - 20) / 5
    };
    let cw: usize = if n < 8 {
        8
    } else if n > 14 {
        14
    } else {
        n
    };
    let p: Page = page(v.page);
    let mut s: String = String::new();
    s.append("\x1b[38;2;110;118;134m");
    s.append("── knobs ── ");
    s.append(p.title);
    s.append("   (tab: page ");
    push_decimal(&mut s, v.page as u64 + 1);
    s.append("/5)");
    s.append("\x1b[0m");
    s.append("\x1b[K");
    s.append("\n");
    push_left(&mut s, "", 18);
    push_heads(&mut s, cw);
    s.append("\x1b[K");
    s.append("\n");
    let ghost start = s@;
    let mut i: usize = 0;
    assert(s@ =~= start + knob_lines(v.value(), t@, cw as int, 0));
    while i < p.knobs.len()
        invariant
            i <= p.knobs@.len(),
            v.page < 5,
            p.is_page(v.page as int),
            tame(t@),
            s@ == start + knob_lines(v.value(), t@, cw as int, i as int),
        decreases p.knobs.len() - i,
    {
        assert(p.knobs@[i as int].wf());
        push_knob_line(&mut s, v, t, &p.knobs[i], i, cw);
        i = i + 1;
        assert(s@ =~= start + knob_lines(v.value(), t@, cw as int, i as int));
    }
    assert(s@ =~= grid_text(v.value(), t@, cols as int));
    s
}

// ----------------------------------------------------------------------
// The footer, and the whole frame.
// ----------------------------------------------------------------------

/// How far the keys nudge a knob.
pub open spec fn stepping_text(step: Step) -> Seq<char> {
    match step {
        Step::Add(n) => "-/+ ±"@ + signed_decimal(n as int) + "   [/] ±"@ + signed_decimal(n * 10),
        Step::Scale => "-/+ ±10%   [/] ×2"@,
    }
}

/// The keys, in short.
#[verifier::opaque]
pub open spec fn keys_text(run: Run) -> Seq<char> {
    dim() + "↑↓←→/hjkl move · -/+ [/] adjust · space pause · < > speed "@ + decimal(
        run.speed as int,
    ) + " t/s · . advance 1 min · w wander "@ + decimal(run.wander as int)
        + "% · tab page · m map · r/R reset · z restart · T write table · q quit"@ + plain()
}

#[verifier::opaque]
pub open spec fn footer_text(v: ScreenV, t: TuningV, run: Run) -> Seq<char> {
    let id = v.knob();
    let e = element_at(v.col);
    ink_text(colour(e)) + "▸ "@ + e.spec_name() + " "@ + name_of(id) + plain() + " = "@ + bright()
        + long_text(row(id).0, reading(id, t, v.race()) as int) + plain() + "   "@ + dim()
        + stepping_text(row(id).1) + "   ·   "@ + help_of(id) + plain() + clear_line() + "\n"@ + (
    match v.notice {
        Some((m, _)) => bright() + m + plain(),
        None => keys_text(run),
    }) + clear_line() + "\n"@
}

fn push_stepping(s: &mut String, step: Step)
    requires
        step matches Step::Add(n) ==> -1000 <= n <= 1000,
    ensures
        final(s)@ == old(s)@ + stepping_text(step),
{
    let ghost before = s@;
    match step {
        Step::Add(n) => {
            s.append("-/+ ±");
            push_signed(s, n as i128);
            s.append("   [/] ±");
            push_signed(s, n as i128 * 10);
        },
        Step::Scale => {
            s.append("-/+ ±10%   [/] ×2");
        },
    }
    assert(s@ =~= before + stepping_text(step));
}

fn push_keys(s: &mut String, run: &Run)
    ensures
        final(s)@ == old(s)@ + keys_text(*run),
{
    reveal(keys_text);
    let ghost before = s@;
    s.append("\x1b[38;2;110;118;134m");
    s.append("↑↓←→/hjkl move · -/+ [/] adjust · space pause · < > speed ");
    push_decimal(s, run.speed);
    s.append(" t/s · . advance 1 min · w wander ");
    push_decimal(s, run.wander as u64);
    s.append("% · tab page · m map · r/R reset · z restart · T write table · q quit");
    s.append("\x1b[0m");
    assert(s@ =~= before + keys_text(*run));
}

/// The last two lines of a frame.
pub fn footer(v: &Screen, t: &Tuning, run: &Run) -> (r: String)
    requires
        v.value().wf(),
        tame(t@),
    ensures
        r@ == footer_text(v.value(), t@, *run),
{
    reveal(footer_text);
    let knobs: Vec<Knob> = v.knobs();
    let k: Knob = knobs[v.row];
    let e: Element = v.element();
    let r: Race = v.race();
    proof {
        lemma_tame_reading(k.id, t@, r);
    }
    let mut s: String = String::new();
    push_ink(&mut s, rgb(e));
    s.append("▸ ");
    s.append(e.name());
    s.append(" ");
    s.append(k.name);
    s.append("\x1b[0m");
    s.append(" = ");
    s.append("\x1b[38;2;232;234;239m");
    s.append(k.long(k.value(t, r)).as_str());
    s.append("\x1b[0m");
    s.append("   ");
    s.append("\x1b[38;2;110;118;134m");
    push_stepping(&mut s, k.step);
    s.append("   ·   ");
    s.append(k.help);
    s.append("\x1b[0m");
    s.append("\x1b[K");
    s.append("\n");
    match &v.notice {
        Some(x) => {
            s.append("\x1b[38;2;232;234;239m");
            s.append(x.0.as_str());
            s.append("\x1b[0m");
        },
        None => {
            push_keys(&mut s, run);
        },
    }
    s.append("\x1b[K");
    s.append("\n");
    assert(s@ =~= footer_text(v.value(), t@, *run));
    s
}

/// How many lines the map gets: what the rest of the frame leaves, at most 24,
/// and none where fewer than 4 are left.
pub open spec fn map_height(show: bool, rows: int, knob_rows: int) -> int {
    let n = rows - (11 + knob_rows) - 3;
    if !show || n < 4 {
        0
    } else if n > 24 {
        24
    } else {
        n
    }
}

pub open spec fn frame_text(w: WorldV, v: ScreenV, t: TuningV, run: Run, rows: int, cols: int) -> Seq<
    char,
> {
    let cols = if cols < 60 {
        60
    } else {
        cols
    };
    let h = map_height(v.show_map, rows, page_ids(v.page).len() as int);
    "\x1b[H"@ + header_text(w, run) + (if h > 0 {
        map_text(w, h, cols)
    } else {
        Seq::empty()
    }) + races_text(w, v, t) + grid_text(v, t, cols) + footer_text(v, t, run) + "\x1b[J"@
}

/// A whole frame for a terminal of `rows` by `cols` characters.
pub fn draw(w: &World, v: &Screen, t: &Tuning, run: &Run, rows: usize, cols: usize) -> (r: String)
    requires
        v.value().wf(),
        tame(t@),
        w@.terrain.wf(),
        w.entities@.len() <= u32::MAX,
        w.tick <= i64::MAX,
        w.stats.feedings <= i64::MAX,
        w.stats.starved <= i64::MAX,
    ensures
        r@ == frame_text(w@, v.value(), t@, *run, rows as int, cols as int),
{
    let wide: usize = if cols < 60 {
        60
    } else {
        cols
    };
    let taken: usize = 14 + v.knobs().len();
    let h: usize = if !v.show_map || rows < taken + 4 {
        0
    } else if rows - taken > 24 {
        24
    } else {
        rows - taken
    };
    let mut s: String = String::new();
    s.append("\x1b[H");
    s.append(header(w, run).as_str());
    if h > 0 {
        s.append(world_map(w, h, wide).as_str());
    }
    s.append(races(w, v, t).as_str());
    s.append(grid(v, t, wide).as_str());
    s.append(footer(v, t, run).as_str());
    s.append("\x1b[J");
    assert(s@ =~= frame_text(w@, v.value(), t@, *run, rows as int, cols as int));
    s
}

} // verus!
