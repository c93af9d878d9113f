//! Numbers as the console shows them, and the live tables written out as Rust
//! source to copy rows from.
use crate::element::{Element, PerElement};
use crate::fx::{trunc_div, Fx};
use crate::race::{
    ActionRecipe, ActionSlot, ElementTransform, Race, RaceAttrs, RaceAttrsV, RateLaw, RecipeSlot,
};
use crate::text::{
    decimal, digits, push_decimal, push_digits, push_signed, signed_decimal,
};
use crate::tuning::{cells, in_cells, in_permille, permille, Fmt, Knob, Tuning, TuningV};
use vstd::prelude::*;
use vstd::string::*;

verus! {

// ----------------------------------------------------------------------
// Numbers.
// ----------------------------------------------------------------------

/// Ticks as the duration that they are; a hundred make a minute.
pub open spec fn duration_text(ticks: int) -> Seq<char> {
    let m = ticks / 100;
    let h = m / 60;
    if m < 1 {
        decimal(ticks) + "t"@
    } else if m < 90 {
        decimal(m) + "m"@
    } else if h < 48 {
        decimal(h) + "h"@ + digits(m % 60, 2)
    } else {
        decimal(h / 24) + "d"@ + digits(h % 24, 2) + "h"@
    }
}

pub fn duration(ticks: u64) -> (r: String)
    ensures
        r@ == duration_text(ticks as int),
{
    let m: u64 = ticks / crate::race::TICKS_PER_MINUTE;
    let h: u64 = m / 60;
    let mut s: String = String::new();
    if m < 1 {
        push_decimal(&mut s, ticks);
        s.append("t");
    } else if m < 90 {
        push_decimal(&mut s, m);
        s.append("m");
    } else if h < 48 {
        push_decimal(&mut s, h);
        s.append("h");
        push_digits(&mut s, m % 60, 2);
    } else {
        push_decimal(&mut s, h / 24);
        s.append("d");
        push_digits(&mut s, h % 24, 2);
        s.append("h");
    }
    assert(s@ =~= duration_text(ticks as int));
    s
}

/// The sign and the size of a number.
pub open spec fn minus(v: int) -> Seq<char> {
    if v < 0 {
        "-"@
    } else {
        Seq::empty()
    }
}

pub open spec fn size_of(v: int) -> int {
    if v < 0 {
        -v
    } else {
        v
    }
}

/// About three figures: exact below ten thousand, then thousands and millions
/// with one place.
pub open spec fn abbrev_text(v: int) -> Seq<char> {
    let a = size_of(v);
    if a < 10_000 {
        minus(v) + decimal(a)
    } else if a < 1_000_000 {
        minus(v) + decimal(a / 1000) + "."@ + decimal((a % 1000) / 100) + "k"@
    } else {
        minus(v) + decimal(a / 1_000_000) + "."@ + decimal((a % 1_000_000) / 100_000) + "M"@
    }
}

pub fn abbrev(v: i64) -> (r: String)
    requires
        v > i64::MIN,
    ensures
        r@ == abbrev_text(v as int),
{
    let mut s: String = String::new();
    if v < 0 {
        s.append("-");
    }
    let a: u64 = if v < 0 {
        (-v) as u64
    } else {
        v as u64
    };
    if a < 10_000 {
        push_decimal(&mut s, a);
    } else if a < 1_000_000 {
        push_decimal(&mut s, a / 1000);
        s.append(".");
        push_decimal(&mut s, (a % 1000) / 100);
        s.append("k");
    } else {
        push_decimal(&mut s, a / 1_000_000);
        s.append(".");
        push_decimal(&mut s, (a % 1_000_000) / 100_000);
        s.append("M");
    }
    assert(s@ =~= abbrev_text(v as int));
    s
}

/// Digits in groups of three.
pub open spec fn groups(a: int) -> Seq<char>
    decreases a,
{
    if a < 1000 {
        decimal(a)
    } else {
        groups(a / 1000) + " "@ + digits(a % 1000, 3)
    }
}

/// A number with its digits in groups of three.
pub open spec fn grouped_text(v: int) -> Seq<char> {
    minus(v) + groups(size_of(v))
}

fn push_groups(s: &mut String, a: u64)
    ensures
        final(s)@ == old(s)@ + groups(a as int),
    decreases a,
{
    let ghost before = s@;
    if a < 1000 {
        push_decimal(s, a);
    } else {
        push_groups(s, a / 1000);
        s.append(" ");
        push_digits(s, a % 1000, 3);
    }
    assert(s@ =~= before + groups(a as int));
}

pub fn grouped(v: i64) -> (r: String)
    requires
        v > i64::MIN,
    ensures
        r@ == grouped_text(v as int),
{
    let mut s: String = String::new();
    if v < 0 {
        s.append("-");
    }
    let a: u64 = if v < 0 {
        (-v) as u64
    } else {
        v as u64
    };
    push_groups(&mut s, a);
    assert(s@ =~= grouped_text(v as int));
    s
}

/// Hundredths as a number with two places. A number between -1 and 0 loses its
/// sign.
pub open spec fn hundredths(v: int) -> Seq<char> {
    signed_decimal(trunc_div(v, 100)) + "."@ + digits(size_of(v) % 100, 2)
}

fn push_hundredths(s: &mut String, v: i64)
    ensures
        final(s)@ == old(s)@ + hundredths(v as int),
{
    let ghost before = s@;
    push_signed(s, (v / 100) as i128);
    s.append(".");
    let a: u64 = if v < 0 {
        (-(v as i128)) as u64
    } else {
        v as u64
    };
    push_digits(s, a % 100, 2);
    assert(s@ =~= before + hundredths(v as int));
}

/// The value of a knob in a grid.
pub open spec fn short_text(fmt: Fmt, v: int) -> Seq<char> {
    match fmt {
        Fmt::Int => abbrev_text(v),
        Fmt::Ticks => duration_text(if v < 0 {
            0
        } else {
            v
        }),
        Fmt::Permille => signed_decimal(v),
        Fmt::Cells => hundredths(v),
    }
}

/// The value of a knob in full.
pub open spec fn long_text(fmt: Fmt, v: int) -> Seq<char> {
    match fmt {
        Fmt::Int => grouped_text(v),
        Fmt::Ticks => grouped_text(v) + " ticks · "@ + duration_text(if v < 0 {
            0
        } else {
            v
        }),
        Fmt::Permille => signed_decimal(v) + "‰ of the unit"@,
        Fmt::Cells => hundredths(v) + " cells"@,
    }
}

impl Knob {
    /// The compact form of a value.
    pub fn short(&self, v: i64) -> (r: String)
        requires
            self.fmt == Fmt::Int ==> v > i64::MIN,
        ensures
            r@ == short_text(self.fmt, v as int),
    {
        match self.fmt {
            Fmt::Int => abbrev(v),
            Fmt::Ticks => duration(
                if v < 0 {
                    0
                } else {
                    v as u64
                },
            ),
            Fmt::Permille => {
                let mut s: String = String::new();
                push_signed(&mut s, v as i128);
                assert(s@ =~= signed_decimal(v as int));
                s
            },
            Fmt::Cells => {
                let mut s: String = String::new();
                push_hundredths(&mut s, v);
                assert(s@ =~= hundredths(v as int));
                s
            },
        }
    }

    /// The exact form of a value.
    pub fn long(&self, v: i64) -> (r: String)
        requires
            self.fmt == Fmt::Int || self.fmt == Fmt::Ticks ==> v > i64::MIN,
        ensures
            r@ == long_text(self.fmt, v as int),
    {
        let mut s: String = String::new();
        match self.fmt {
            Fmt::Int => {
                s.append(grouped(v).as_str());
            },
            Fmt::Ticks => {
                s.append(grouped(v).as_str());
                s.append(" ticks · ");
                s.append(
                    duration(
                        if v < 0 {
                            0
                        } else {
                            v as u64
                        },
                    ).as_str(),
                );
            },
            Fmt::Permille => {
                push_signed(&mut s, v as i128);
                s.append("‰ of the unit");
            },
            Fmt::Cells => {
                push_hundredths(&mut s, v);
                s.append(" cells");
            },
        }
        assert(s@ =~= long_text(self.fmt, v as int));
        s
    }
}

// ----------------------------------------------------------------------
// The tables as Rust source.
// ----------------------------------------------------------------------

/// A string as `Debug` writes it: in quotes, with escapes.
pub uninterp spec fn quoted(s: Seq<char>) -> Seq<char>;

/// `<str as Debug>::fmt`, reached through `format!` with `{:?}`: the text is a
/// function of the string alone. Which characters it escapes is not said.
#[verifier::external_body]
fn quote(s: &str) -> (r: String)
    ensures
        r@ == quoted(s@),
{
    format!("{:?}", s)
}

/// Five texts with commas between them.
#[verifier::opaque]
pub open spec fn listed(
    a: Seq<char>,
    b: Seq<char>,
    c: Seq<char>,
    d: Seq<char>,
    e: Seq<char>,
) -> Seq<char> {
    a + ", "@ + b + ", "@ + c + ", "@ + d + ", "@ + e
}

/// Five numbers with commas between them.
pub open spec fn five(v: Seq<int>) -> Seq<char> {
    listed(
        signed_decimal(v[0]),
        signed_decimal(v[1]),
        signed_decimal(v[2]),
        signed_decimal(v[3]),
        signed_decimal(v[4]),
    )
}

/// Five ratios in hundredths with commas between them.
pub open spec fn five_ratios(v: Seq<Fx>) -> Seq<char> {
    listed(
        ratio_text(v[0]),
        ratio_text(v[1]),
        ratio_text(v[2]),
        ratio_text(v[3]),
        ratio_text(v[4]),
    )
}

/// A length as the ratio of hundredths that it is nearest to.
#[verifier::opaque]
pub open spec fn ratio_text(f: Fx) -> Seq<char> {
    "Fx::ratio("@ + signed_decimal(in_cells(f) as int) + ", 100)"@
}

/// A pair as `Debug` writes it.
#[verifier::opaque]
pub open spec fn pair_text(p: (u16, u16)) -> Seq<char> {
    "("@ + decimal(p.0 as int) + ", "@ + decimal(p.1 as int) + ")"@
}

/// Five pairs with commas between them.
pub open spec fn five_pairs(v: Seq<(u16, u16)>) -> Seq<char> {
    listed(pair_text(v[0]), pair_text(v[1]), pair_text(v[2]), pair_text(v[3]), pair_text(v[4]))
}

/// A field of a table by element: its name, and what is in the brackets.
pub open spec fn field_text(name: Seq<char>, inside: Seq<char>) -> Seq<char> {
    "    "@ + name + ": PerElement(["@ + inside + "]),\n"@
}

pub open spec fn slot_name(s: ActionSlot) -> Seq<char> {
    match s {
        ActionSlot::Exist => "Exist"@,
        ActionSlot::Mine => "Mine"@,
        ActionSlot::Smelt => "Smelt"@,
        ActionSlot::Pickup => "Pickup"@,
        ActionSlot::WearRoll => "WearRoll"@,
    }
}

pub open spec fn pool_name(s: RecipeSlot) -> Seq<char> {
    match s {
        RecipeSlot::Terrain => "Terrain"@,
        RecipeSlot::Carried => "Carried"@,
        RecipeSlot::Item => "Item"@,
        RecipeSlot::Ground => "Ground"@,
        RecipeSlot::Body => "Body"@,
    }
}

pub open spec fn transform_name(t: ElementTransform) -> Seq<char> {
    match t {
        ElementTransform::Identity => "Identity"@,
        ElementTransform::Generates => "Generates"@,
    }
}

pub open spec fn rate_text(l: RateLaw) -> Seq<char> {
    match l {
        RateLaw::Flat(n) => "RateLaw::Flat("@ + decimal(n as int) + ")"@,
        RateLaw::NeighborScaled { base, per_neighbor, per_size } => "RateLaw::NeighborScaled { base: "@
            + decimal(base as int) + ", per_neighbor: "@ + decimal(per_neighbor as int)
            + ", per_size: "@ + decimal(per_size as int) + " }"@,
    }
}

/// A recipe of a row.
pub open spec fn recipe_text(a: ActionRecipe) -> Seq<char> {
    "            ActionRecipe {\n                slot: ActionSlot::"@ + slot_name(a.slot)
        + ",\n                input: RecipeSlot::"@ + pool_name(a.input)
        + ",\n                output: RecipeSlot::"@ + pool_name(a.output)
        + ",\n                transform: ElementTransform::"@ + transform_name(a.transform)
        + ",\n                ratio_in: "@ + decimal(a.ratio_in as int)
        + ",\n                ratio_out: "@ + decimal(a.ratio_out as int)
        + ",\n                rate: "@ + rate_text(a.rate)
        + ",\n                cooldown_ticks: "@ + decimal(a.cooldown_ticks as int)
        + ",\n                reach: "@ + ratio_text(a.reach) + ",\n            },\n"@
}

/// The first `n` recipes of a row.
pub open spec fn recipes_text(s: Seq<ActionRecipe>, n: int) -> Seq<char>
    decreases n,
{
    if n <= 0 {
        Seq::empty()
    } else {
        recipes_text(s, n - 1) + recipe_text(s[n - 1])
    }
}

/// A row of the race table, its last field given as source text.
pub open spec fn row_text(r: Race, a: RaceAttrsV, fantasy: Seq<char>) -> Seq<char> {
    "    RaceAttrs {\n        element: Element::"@ + r.element.spec_name()
        + ",\n        kind: Kind::"@ + r.kind.spec_name() + ",\n        lifespan: "@ + decimal(
        a.lifespan as int,
    ) + ",\n        lifespan_variance: "@ + decimal(a.lifespan_variance as int)
        + ",\n        speed: "@ + ratio_text(a.speed) + ",\n        radius: "@ + ratio_text(a.radius)
        + ",\n        actions: vec![\n"@ + recipes_text(a.actions, a.actions.len() as int)
        + "        ],\n        fantasy: "@ + fantasy + ",\n    },\n"@
}

/// A row of the race table.
pub open spec fn race_text(r: Race, a: RaceAttrsV) -> Seq<char> {
    row_text(r, a, quoted(a.fantasy))
}

/// The first `n` rows of the race table.
pub open spec fn races_text(t: Seq<RaceAttrsV>, n: int) -> Seq<char>
    decreases n,
{
    if n <= 0 {
        Seq::empty()
    } else {
        races_text(t, n - 1) + race_text(crate::race::race_at(n - 1), t[n - 1])
    }
}

/// What a line of a table by race says of its race.
pub open spec fn race_note(r: Race) -> Seq<char> {
    ", // "@ + r.element.spec_name() + " "@ + r.kind.spec_name() + "\n"@
}

/// The first `n` lines of a table of numbers by race.
pub open spec fn numbers_text(v: Seq<int>, n: int) -> Seq<char>
    decreases n,
{
    if n <= 0 {
        Seq::empty()
    } else {
        numbers_text(v, n - 1) + "        "@ + signed_decimal(v[n - 1]) + race_note(
            crate::race::race_at(n - 1),
        )
    }
}

/// The first `n` lines of a table of turn rates by race.
pub open spec fn turns_text(v: Seq<Fx>, n: int) -> Seq<char>
    decreases n,
{
    if n <= 0 {
        Seq::empty()
    } else {
        turns_text(v, n - 1) + "        Fx::ratio("@ + signed_decimal(in_permille(v[n - 1]) as int)
            + ", 1000)"@ + race_note(crate::race::race_at(n - 1))
    }
}

pub open spec fn ints16(s: Seq<u16>) -> Seq<int> {
    Seq::new(s.len(), |i: int| s[i] as int)
}

pub open spec fn ints32(s: Seq<u32>) -> Seq<int> {
    Seq::new(s.len(), |i: int| s[i] as int)
}

pub open spec fn ints64(s: Seq<u64>) -> Seq<int> {
    Seq::new(s.len(), |i: int| s[i] as int)
}

pub open spec fn signed32(s: Seq<i32>) -> Seq<int> {
    Seq::new(s.len(), |i: int| s[i] as int)
}

pub open spec fn heading_text() -> Seq<char> {
    "// Written by the chaos live view. Not compiled — copy the rows you want\n// into the RACES table in race.rs, keeping the comments there. The\n// TERRAIN_TUNING, CLIMATE_TUNING and ECOLOGY_TUNING constants below\n// follow the same rule: copy fields into terrain.rs / climate.rs /\n// ecology.rs by hand. PROPAGATION_TUNING and BEHAVIOR_TUNING follow the\n// same copy-by-hand rule, into ecology.rs and behavior.rs respectively.\n\n"@
}

pub open spec fn terrain_text(t: TuningV) -> Seq<char> {
    "pub const TERRAIN_TUNING: TerrainTuning = TerrainTuning {\n"@ + field_text(
        "diffuse_rate"@,
        five(ints16(t.diffuse_rate)),
    ) + field_text("diffuse_cap"@, five(ints16(t.diffuse_cap))) + "};\n\n"@
}

pub open spec fn climate_text(t: TuningV) -> Seq<char> {
    "pub const CLIMATE_TUNING: ClimateTuning = ClimateTuning {\n"@ + field_text(
        "base_range"@,
        five_pairs(t.base_range),
    ) + field_text("floor"@, five(ints16(t.floor))) + field_text(
        "season_peak"@,
        five(ints16(t.season_peak)),
    ) + "    season_ticks: "@ + decimal(t.season_ticks as int) + ",\n};\n"@
}

pub open spec fn ecology_text(t: TuningV) -> Seq<char> {
    "pub const ECOLOGY_TUNING: EcologyTuning = EcologyTuning {\n"@ + field_text(
        "forage_radius"@,
        five_ratios(t.forage_radius),
    ) + field_text("satiation"@, five(ints32(t.satiation))) + field_text(
        "feed_gain"@,
        five(signed32(t.feed_gain)),
    ) + field_text("starve_after"@, five(ints32(t.starve_after))) + field_text(
        "starve_rate"@,
        five(signed32(t.starve_rate)),
    ) + field_text("repro_threshold"@, five(signed32(t.repro_threshold))) + field_text(
        "attrition_rate"@,
        five(ints16(t.attrition_rate)),
    ) + field_text("suppression_rate"@, five(ints16(t.suppression_rate))) + "};\n"@
}

pub open spec fn propagation_text(t: TuningV) -> Seq<char> {
    "\npub const PROPAGATION_TUNING: PropagationTuning = PropagationTuning {\n"@ + field_text(
        "period"@,
        five(ints64(t.period)),
    ) + field_text("chance"@, five(ints16(t.chance))) + field_text(
        "offspring_size"@,
        five(ints16(t.offspring_size)),
    ) + field_text("root_min"@, five(ints16(t.root_min))) + field_text(
        "dispersal"@,
        five_ratios(t.dispersal),
    ) + field_text("crowd_max"@, five(ints16(t.crowd_max))) + "};\n"@
}

pub open spec fn behavior_text(t: TuningV) -> Seq<char> {
    "\npub const BEHAVIOR_TUNING: BehaviorTuning = BehaviorTuning {\n    flee_threshold: PerRace([\n"@
        + numbers_text(ints16(t.flee_threshold), 10)
        + "    ]),\n    sense_radius: PerRace([\n"@ + numbers_text(signed32(t.sense_radius), 10)
        + "    ]),\n    turn_rate: PerRace([\n"@ + turns_text(t.turn_rate, 10) + "    ]),\n};\n"@
}

/// The live tables as Rust source.
pub open spec fn tables_text(t: TuningV) -> Seq<char> {
    heading_text() + "pub const RACES: PerRace<RaceAttrs> = PerRace([\n"@ + races_text(t.races, 10)
        + "]);\n\n"@ + terrain_text(t) + climate_text(t) + ecology_text(t) + propagation_text(t)
        + behavior_text(t)
}

fn push_field(s: &mut String, name: &str, a: &str, b: &str, c: &str, d: &str, e: &str)
    ensures
        final(s)@ == old(s)@ + field_text(name@, listed(a@, b@, c@, d@, e@)),
{
    reveal(listed);
    let ghost before = s@;
    s.append("    ");
    s.append(name);
    s.append(": PerElement([");
    let ghost head = s@;
    s.append(a);
    s.append(", ");
    s.append(b);
    s.append(", ");
    s.append(c);
    s.append(", ");
    s.append(d);
    s.append(", ");
    s.append(e);
    assert(s@ =~= head + listed(a@, b@, c@, d@, e@));
    s.append("]),\n");
    assert(s@ =~= before + field_text(name@, listed(a@, b@, c@, d@, e@)));
}

fn number(n: i128) -> (r: String)
    requires
        i64::MIN <= n <= u64::MAX,
    ensures
        r@ == signed_decimal(n as int),
{
    let mut s: String = String::new();
    push_signed(&mut s, n);
    assert(s@ =~= signed_decimal(n as int));
    s
}

fn push_five(s: &mut String, name: &str, v: [i128; 5])
    requires
        forall|i: int| 0 <= i < 5 ==> i64::MIN <= #[trigger] v@[i] <= u64::MAX,
    ensures
        final(s)@ == old(s)@ + field_text(name@, five(Seq::new(5, |i: int| v@[i] as int))),
{
    let a: String = number(v[0]);
    let b: String = number(v[1]);
    let c: String = number(v[2]);
    let d: String = number(v[3]);
    let e: String = number(v[4]);
    push_field(s, name, a.as_str(), b.as_str(), c.as_str(), d.as_str(), e.as_str());
}

fn push_u16s(s: &mut String, name: &str, v: &PerElement<u16>)
    ensures
        final(s)@ == old(s)@ + field_text(name@, five(ints16(v@))),
{
    let a: [i128; 5] = [
        v.0[0] as i128,
        v.0[1] as i128,
        v.0[2] as i128,
        v.0[3] as i128,
        v.0[4] as i128,
    ];
    push_five(s, name, a);
    assert(Seq::new(5, |i: int| a@[i] as int) =~= ints16(v@));
}

fn push_u32s(s: &mut String, name: &str, v: &PerElement<u32>)
    ensures
        final(s)@ == old(s)@ + field_text(name@, five(ints32(v@))),
{
    let a: [i128; 5] = [
        v.0[0] as i128,
        v.0[1] as i128,
        v.0[2] as i128,
        v.0[3] as i128,
        v.0[4] as i128,
    ];
    push_five(s, name, a);
    assert(Seq::new(5, |i: int| a@[i] as int) =~= ints32(v@));
}

fn push_u64s(s: &mut String, name: &str, v: &PerElement<u64>)
    ensures
        final(s)@ == old(s)@ + field_text(name@, five(ints64(v@))),
{
    let a: [i128; 5] = [
        v.0[0] as i128,
        v.0[1] as i128,
        v.0[2] as i128,
        v.0[3] as i128,
        v.0[4] as i128,
    ];
    push_five(s, name, a);
    assert(Seq::new(5, |i: int| a@[i] as int) =~= ints64(v@));
}

fn push_i32s(s: &mut String, name: &str, v: &PerElement<i32>)
    ensures
        final(s)@ == old(s)@ + field_text(name@, five(signed32(v@))),
{
    let a: [i128; 5] = [
        v.0[0] as i128,
        v.0[1] as i128,
        v.0[2] as i128,
        v.0[3] as i128,
        v.0[4] as i128,
    ];
    push_five(s, name, a);
    assert(Seq::new(5, |i: int| a@[i] as int) =~= signed32(v@));
}

fn push_ratio(s: &mut String, f: Fx)
    ensures
        final(s)@ == old(s)@ + ratio_text(f),
{
    reveal(ratio_text);
    let ghost before = s@;
    s.append("Fx::ratio(");
    push_signed(s, cells(f) as i128);
    s.append(", 100)");
    assert(s@ =~= before + ratio_text(f));
}

fn ratio(f: Fx) -> (r: String)
    ensures
        r@ == ratio_text(f),
{
    let mut s: String = String::new();
    push_ratio(&mut s, f);
    assert(s@ =~= ratio_text(f));
    s
}

fn push_ratios(s: &mut String, name: &str, v: &PerElement<Fx>)
    ensures
        final(s)@ == old(s)@ + field_text(name@, five_ratios(v@)),
{
    let a: String = ratio(v.0[0]);
    let b: String = ratio(v.0[1]);
    let c: String = ratio(v.0[2]);
    let d: String = ratio(v.0[3]);
    let e: String = ratio(v.0[4]);
    push_field(s, name, a.as_str(), b.as_str(), c.as_str(), d.as_str(), e.as_str());
}

fn pair(p: (u16, u16)) -> (r: String)
    ensures
        r@ == pair_text(p),
{
    reveal(pair_text);
    let mut s: String = String::new();
    s.append("(");
    push_decimal(&mut s, p.0 as u64);
    s.append(", ");
    push_decimal(&mut s, p.1 as u64);
    s.append(")");
    assert(s@ =~= pair_text(p));
    s
}

fn push_pairs(s: &mut String, name: &str, v: &PerElement<(u16, u16)>)
    ensures
        final(s)@ == old(s)@ + field_text(name@, five_pairs(v@)),
{
    let a: String = pair(v.0[0]);
    let b: String = pair(v.0[1]);
    let c: String = pair(v.0[2]);
    let d: String = pair(v.0[3]);
    let e: String = pair(v.0[4]);
    push_field(s, name, a.as_str(), b.as_str(), c.as_str(), d.as_str(), e.as_str());
}

fn push_rate(s: &mut String, l: RateLaw)
    ensures
        final(s)@ == old(s)@ + rate_text(l),
{
    let ghost before = s@;
    match l {
        RateLaw::Flat(n) => {
            s.append("RateLaw::Flat(");
            push_decimal(s, n as u64);
            s.append(")");
        },
        RateLaw::NeighborScaled { base, per_neighbor, per_size } => {
            s.append("RateLaw::NeighborScaled { base: ");
            push_decimal(s, base as u64);
            s.append(", per_neighbor: ");
            push_decimal(s, per_neighbor as u64);
            s.append(", per_size: ");
            push_decimal(s, per_size as u64);
            s.append(" }");
        },
    }
    assert(s@ =~= before + rate_text(l));
}

fn slot_word(s: ActionSlot) -> (r: &'static str)
    ensures
        r@ == slot_name(s),
{
    match s {
        ActionSlot::Exist => "Exist",
        ActionSlot::Mine => "Mine",
        ActionSlot::Smelt => "Smelt",
        ActionSlot::Pickup => "Pickup",
        ActionSlot::WearRoll => "WearRoll",
    }
}

fn pool_word(s: RecipeSlot) -> (r: &'static str)
    ensures
        r@ == pool_name(s),
{
    match s {
        RecipeSlot::Terrain => "Terrain",
        RecipeSlot::Carried => "Carried",
        RecipeSlot::Item => "Item",
        RecipeSlot::Ground => "Ground",
        RecipeSlot::Body => "Body",
    }
}

fn transform_word(t: ElementTransform) -> (r: &'static str)
    ensures
        r@ == transform_name(t),
{
    match t {
        ElementTransform::Identity => "Identity",
        ElementTransform::Generates => "Generates",
    }
}

#[verifier::rlimit(30)]
fn push_recipe(s: &mut String, a: &ActionRecipe)
    ensures
        final(s)@ == old(s)@ + recipe_text(*a),
{
    let ghost before = s@;
    s.append("            ActionRecipe {\n                slot: ActionSlot::");
    s.append(slot_word(a.slot));
    s.append(",\n                input: RecipeSlot::");
    s.append(pool_word(a.input));
    s.append(",\n                output: RecipeSlot::");
    s.append(pool_word(a.output));
    s.append(",\n                transform: ElementTransform::");
    s.append(transform_word(a.transform));
    s.append(",\n                ratio_in: ");
    push_decimal(s, a.ratio_in as u64);
    s.append(",\n                ratio_out: ");
    push_decimal(s, a.ratio_out as u64);
    s.append(",\n                rate: ");
    push_rate(s, a.rate);
    s.append(",\n                cooldown_ticks: ");
    push_decimal(s, a.cooldown_ticks as u64);
    s.append(",\n                reach: ");
    push_ratio(s, a.reach);
    s.append(",\n            },\n");
    assert(s@ =~= before + recipe_text(*a));
}

fn push_recipes(s: &mut String, a: &Vec<ActionRecipe>)
    ensures
        final(s)@ == old(s)@ + recipes_text(a@, a@.len() as int),
{
    let ghost before = s@;
    let mut i: usize = 0;
    assert(s@ =~= before + recipes_text(a@, 0));
    while i < a.len()
        invariant
            i <= a@.len(),
            s@ == before + recipes_text(a@, i as int),
        decreases a.len() - i,
    {
        push_recipe(s, &a[i]);
        i = i + 1;
        assert(s@ =~= before + recipes_text(a@, i as int));
    }
}

/// Append a row of the race table, its last field given as source text.
pub fn push_row(s: &mut String, r: Race, a: &RaceAttrs, fantasy: &str)
    ensures
        final(s)@ == old(s)@ + row_text(r, a@, fantasy@),
{
    let ghost before = s@;
    s.append("    RaceAttrs {\n        element: Element::");
    s.append(r.element.name());
    s.append(",\n        kind: Kind::");
    s.append(r.kind.name());
    s.append(",\n        lifespan: ");
    push_decimal(s, a.lifespan);
    s.append(",\n        lifespan_variance: ");
    push_decimal(s, a.lifespan_variance as u64);
    s.append(",\n        speed: ");
    push_ratio(s, a.speed);
    s.append(",\n        radius: ");
    push_ratio(s, a.radius);
    s.append(",\n        actions: vec![\n");
    push_recipes(s, &a.actions);
    s.append("        ],\n        fantasy: ");
    s.append(fantasy);
    s.append(",\n    },\n");
    assert(s@ =~= before + row_text(r, a@, fantasy@));
}

fn push_race(s: &mut String, r: Race, a: &RaceAttrs)
    ensures
        final(s)@ == old(s)@ + race_text(r, a@),
{
    let fantasy: String = quote(a.fantasy);
    push_row(s, r, a, fantasy.as_str());
}

fn push_race_note(s: &mut String, r: Race)
    ensures
        final(s)@ == old(s)@ + race_note(r),
{
    let ghost before = s@;
    s.append(", // ");
    s.append(r.element.name());
    s.append(" ");
    s.append(r.kind.name());
    s.append("\n");
    assert(s@ =~= before + race_note(r));
}

fn push_terrain(s: &mut String, t: &Tuning)
    ensures
        final(s)@ == old(s)@ + terrain_text(t@),
{
    let ghost before = s@;
    s.append("pub const TERRAIN_TUNING: TerrainTuning = TerrainTuning {\n");
    push_u16s(s, "diffuse_rate", &t.terrain.diffuse_rate);
    push_u16s(s, "diffuse_cap", &t.terrain.diffuse_cap);
    s.append("};\n\n");
    assert(s@ =~= before + terrain_text(t@));
}

fn push_climate(s: &mut String, t: &Tuning)
    ensures
        final(s)@ == old(s)@ + climate_text(t@),
{
    let ghost before = s@;
    s.append("pub const CLIMATE_TUNING: ClimateTuning = ClimateTuning {\n");
    push_pairs(s, "base_range", &t.climate.base_range);
    push_u16s(s, "floor", &t.climate.floor);
    push_u16s(s, "season_peak", &t.climate.season_peak);
    s.append("    season_ticks: ");
    push_decimal(s, t.climate.season_ticks);
    s.append(",\n};\n");
    assert(s@ =~= before + climate_text(t@));
}

fn push_ecology(s: &mut String, t: &Tuning)
    ensures
        final(s)@ == old(s)@ + ecology_text(t@),
{
    let ghost before = s@;
    s.append("pub const ECOLOGY_TUNING: EcologyTuning = EcologyTuning {\n");
    push_ratios(s, "forage_radius", &t.ecology.forage_radius);
    push_u32s(s, "satiation", &t.ecology.satiation);
    push_i32s(s, "feed_gain", &t.ecology.feed_gain);
    push_u32s(s, "starve_after", &t.ecology.starve_after);
    push_i32s(s, "starve_rate", &t.ecology.starve_rate);
    push_i32s(s, "repro_threshold", &t.ecology.repro_threshold);
    push_u16s(s, "attrition_rate", &t.ecology.attrition_rate);
    push_u16s(s, "suppression_rate", &t.ecology.suppression_rate);
    s.append("};\n");
    assert(s@ =~= before + ecology_text(t@));
}

fn push_propagation(s: &mut String, t: &Tuning)
    ensures
        final(s)@ == old(s)@ + propagation_text(t@),
{
    let ghost before = s@;
    s.append("\npub const PROPAGATION_TUNING: PropagationTuning = PropagationTuning {\n");
    push_u64s(s, "period", &t.propagation.period);
    push_u16s(s, "chance", &t.propagation.chance);
    push_u16s(s, "offspring_size", &t.propagation.offspring_size);
    push_u16s(s, "root_min", &t.propagation.root_min);
    push_ratios(s, "dispersal", &t.propagation.dispersal);
    push_u16s(s, "crowd_max", &t.propagation.crowd_max);
    s.append("};\n");
    assert(s@ =~= before + propagation_text(t@));
}

fn push_behavior(s: &mut String, t: &Tuning)
    ensures
        final(s)@ == old(s)@ + behavior_text(t@),
{
    let ghost before = s@;
    let ghost (a, b, c) = (
        ints16(t@.flee_threshold),
        signed32(t@.sense_radius),
        t@.turn_rate,
    );
    let mut flee: String = String::new();
    let mut sense: String = String::new();
    let mut turn: String = String::new();
    let mut i: usize = 0;
    while i < 10
        invariant
            i <= 10,
            a == ints16(t@.flee_threshold),
            b == signed32(t@.sense_radius),
            c == t@.turn_rate,
            flee@ == numbers_text(a, i as int),
            sense@ == numbers_text(b, i as int),
            turn@ == turns_text(c, i as int),
        decreases 10 - i,
    {
        let r: Race = Race::from_index(i);
        flee.append("        ");
        push_signed(&mut flee, t.behavior.flee_threshold.0[i] as i128);
        push_race_note(&mut flee, r);
        sense.append("        ");
        push_signed(&mut sense, t.behavior.sense_radius.0[i] as i128);
        push_race_note(&mut sense, r);
        turn.append("        Fx::ratio(");
        push_signed(&mut turn, permille(t.behavior.turn_rate.0[i]) as i128);
        turn.append(", 1000)");
        push_race_note(&mut turn, r);
        i = i + 1;
        assert(flee@ =~= numbers_text(a, i as int));
        assert(sense@ =~= numbers_text(b, i as int));
        assert(turn@ =~= turns_text(c, i as int));
    }
    s.append(
        "\npub const BEHAVIOR_TUNING: BehaviorTuning = BehaviorTuning {\n    flee_threshold: PerRace([\n",
    );
    s.append(flee.as_str());
    s.append("    ]),\n    sense_radius: PerRace([\n");
    s.append(sense.as_str());
    s.append("    ]),\n    turn_rate: PerRace([\n");
    s.append(turn.as_str());
    s.append("    ]),\n};\n");
    assert(s@ =~= before + behavior_text(t@));
}

/// The live tables as Rust source, to copy rows from.
pub fn table_text(t: &Tuning) -> (r: String)
    ensures
        r@ == tables_text(t@),
{
    let mut s: String = String::new();
    s.append(
        "// Written by the chaos live view. Not compiled — copy the rows you want\n// into the RACES table in race.rs, keeping the comments there. The\n// TERRAIN_TUNING, CLIMATE_TUNING and ECOLOGY_TUNING constants below\n// follow the same rule: copy fields into terrain.rs / climate.rs /\n// ecology.rs by hand. PROPAGATION_TUNING and BEHAVIOR_TUNING follow the\n// same copy-by-hand rule, into ecology.rs and behavior.rs respectively.\n\n",
    );
    s.append("pub const RACES: PerRace<RaceAttrs> = PerRace([\n");
    let ghost start = s@;
    let mut i: usize = 0;
    assert(s@ =~= start + races_text(t@.races, 0));
    while i < 10
        invariant
            i <= 10,
            s@ == start + races_text(t@.races, i as int),
        decreases 10 - i,
    {
        push_race(&mut s, Race::from_index(i), &t.races.0[i]);
        i = i + 1;
        assert(s@ =~= start + races_text(t@.races, i as int));
    }
    s.append("]);\n\n");
    push_terrain(&mut s, t);
    push_climate(&mut s, t);
    push_ecology(&mut s, t);
    push_propagation(&mut s, t);
    push_behavior(&mut s, t);
    assert(s@ =~= tables_text(t@));
    s
}

/// Where the tables are written: beside the sources of the checkout at `root`,
/// or in the working directory.
pub open spec fn table_path_text(root: Option<Seq<char>>) -> Seq<char> {
    match root {
        Some(r) => r + "/src/race.tuned.rs"@,
        None => "race.tuned.rs"@,
    }
}

pub fn table_path(root: Option<&str>) -> (r: String)
    ensures
        r@ == table_path_text(match root {
            Some(s) => Some(s@),
            None => None,
        }),
{
    let mut s: String = String::new();
    match root {
        Some(r) => {
            s.append(r);
            s.append("/src/race.tuned.rs");
        },
        None => {
            s.append("race.tuned.rs");
        },
    }
    assert(s@ =~= table_path_text(match root {
        Some(s) => Some(s@),
        None => None,
    }));
    s
}

} // verus!
