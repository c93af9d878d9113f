//! The numbers that a person at the console can turn, as a table.
//!
//! Each knob is a row: a name, how it is shown, how big a nudge is, and the
//! range that it is kept in.
use crate::behavior::BehaviorTuning;
use crate::climate::ClimateTuning;
use crate::ecology::{EcologyTuning, PropagationTuning};
use crate::element::Element;
use crate::fx::{trunc_div, Fx};
use crate::race::{
    action_for, action_pos, lemma_action_for, race_at, seeded_races, shipped, ActionRecipe,
    ActionSlot, Kind, PerRace, Race, RaceAttrs, RaceAttrsV, RateBand, RateLaw,
};
use crate::terrain::TerrainTuning;
use crate::world::rows;
use vstd::prelude::*;

verus! {

/// What the rows of a page differ by.
#[derive(Clone, Copy, PartialEq, Eq, Debug, Structural)]
pub enum Axis {
    /// Each row differs by element and kind.
    Race,
    /// Each row is shared by both kinds of an element.
    Element,
}

/// Everything that can be tuned while a world runs.
#[derive(Clone, Debug)]
pub struct Tuning {
    pub races: PerRace<RaceAttrs>,
    /// How many bodies of each race the console keeps up. This is no rule of
    /// the simulation: they are spawned by ordinary commands.
    pub restock: PerRace<u32>,
    pub terrain: TerrainTuning,
    pub climate: ClimateTuning,
    pub ecology: EcologyTuning,
    pub propagation: PropagationTuning,
    pub behavior: BehaviorTuning,
}

/// The value of a [`Tuning`].
#[verifier::ext_equal]
pub struct TuningV {
    pub races: Seq<RaceAttrsV>,
    pub restock: Seq<u32>,
    pub diffuse_rate: Seq<u16>,
    pub diffuse_cap: Seq<u16>,
    pub ground_decay: RateBand,
    pub base_range: Seq<(u16, u16)>,
    pub floor: Seq<u16>,
    pub season_peak: Seq<u16>,
    pub season_ticks: u64,
    pub forage_radius: Seq<Fx>,
    pub satiation: Seq<u32>,
    pub feed_gain: Seq<i32>,
    pub starve_after: Seq<u32>,
    pub starve_rate: Seq<i32>,
    pub repro_threshold: Seq<i32>,
    pub attrition_rate: Seq<u16>,
    pub suppression_rate: Seq<u16>,
    pub hunt_weight: Seq<u16>,
    pub period: Seq<u64>,
    pub chance: Seq<u16>,
    pub offspring_size: Seq<u16>,
    pub root_min: Seq<u16>,
    pub dispersal: Seq<Fx>,
    pub crowd_max: Seq<u16>,
    pub growth_ref: Seq<u16>,
    pub flee_threshold: Seq<u16>,
    pub sense_radius: Seq<i32>,
    pub turn_rate: Seq<Fx>,
}

impl View for Tuning {
    type V = TuningV;

    open spec fn view(&self) -> TuningV {
        TuningV {
            races: rows(self.races@),
            restock: self.restock@,
            diffuse_rate: self.terrain.diffuse_rate@,
            diffuse_cap: self.terrain.diffuse_cap@,
            ground_decay: self.terrain.ground_decay,
            base_range: self.climate.base_range@,
            floor: self.climate.floor@,
            season_peak: self.climate.season_peak@,
            season_ticks: self.climate.season_ticks,
            forage_radius: self.ecology.forage_radius@,
            satiation: self.ecology.satiation@,
            feed_gain: self.ecology.feed_gain@,
            starve_after: self.ecology.starve_after@,
            starve_rate: self.ecology.starve_rate@,
            repro_threshold: self.ecology.repro_threshold@,
            attrition_rate: self.ecology.attrition_rate@,
            suppression_rate: self.ecology.suppression_rate@,
            hunt_weight: self.ecology.hunt_weight@,
            period: self.propagation.period@,
            chance: self.propagation.chance@,
            offspring_size: self.propagation.offspring_size@,
            root_min: self.propagation.root_min@,
            dispersal: self.propagation.dispersal@,
            crowd_max: self.propagation.crowd_max@,
            growth_ref: self.propagation.growth_ref@,
            flee_threshold: self.behavior.flee_threshold@,
            sense_radius: self.behavior.sense_radius@,
            turn_rate: self.behavior.turn_rate@,
        }
    }
}

/// `a` for each animal race and `p` for each plant race.
pub open spec fn by_kind<T>(p: T, a: T) -> Seq<T> {
    Seq::new(
        10,
        |i: int|
            if race_at(i).kind == Kind::Animal {
                a
            } else {
                p
            },
    )
}

/// The shipped tables.
pub open spec fn shipped_tuning(restock: Seq<u32>) -> TuningV {
    TuningV {
        races: Seq::new(10, |i: int| shipped(race_at(i))),
        restock,
        diffuse_rate: Seq::new(5, |i: int| 200u16),
        diffuse_cap: Seq::new(5, |i: int| 40u16),
        ground_decay: RateBand { floor: 50, nominal: 200, ceiling: 2000, burst_ticks: 8 },
        base_range: Seq::new(5, |i: int| (0u16, 40u16)),
        floor: Seq::new(5, |i: int| 1u16),
        season_peak: Seq::new(5, |i: int| 3000u16),
        season_ticks: 8640,
        forage_radius: Seq::new(5, |i: int| Fx::of_ratio(400, 100)),
        satiation: Seq::new(5, |i: int| 200u32),
        feed_gain: Seq::new(5, |i: int| 40i32),
        starve_after: Seq::new(5, |i: int| 2000u32),
        starve_rate: Seq::new(5, |i: int| 1i32),
        repro_threshold: Seq::new(5, |i: int| 75i32),
        attrition_rate: Seq::new(5, |i: int| 1u16),
        suppression_rate: Seq::new(5, |i: int| 14u16),
        hunt_weight: by_kind(0u16, 150u16),
        period: Seq::new(5, |i: int| 3u64),
        chance: Seq::new(5, |i: int| 200u16),
        offspring_size: Seq::new(5, |i: int| 200u16),
        root_min: Seq::new(5, |i: int| 300u16),
        dispersal: Seq::new(5, |i: int| Fx::of_ratio(300, 100)),
        crowd_max: Seq::new(5, |i: int| 3u16),
        growth_ref: Seq::new(5, |i: int| 1000u16),
        flee_threshold: by_kind(0u16, 8000u16),
        sense_radius: by_kind(0i32, 8i32),
        turn_rate: by_kind(Fx(0), Fx::of_ratio(1, 4)),
    }
}

impl Tuning {
    /// The shipped tables, with `per_race` bodies of each race kept up.
    pub fn new(per_race: u32) -> (t: Tuning)
        ensures
            t@ == shipped_tuning(Seq::new(10, |i: int| per_race)),
    {
        let t = Tuning {
            races: seeded_races(),
            restock: PerRace::filled(per_race),
            terrain: TerrainTuning::default(),
            climate: ClimateTuning::default(),
            ecology: EcologyTuning::default(),
            propagation: PropagationTuning::default(),
            behavior: BehaviorTuning::default(),
        };
        assert(t@ =~= shipped_tuning(t.restock@));
        t
    }

    /// The shipped tables, with as many bodies kept up as now.
    pub fn reset(&mut self)
        ensures
            final(self)@ == shipped_tuning(old(self)@.restock),
            final(self).restock == old(self).restock,
    {
        self.races = seeded_races();
        self.terrain = TerrainTuning::default();
        self.climate = ClimateTuning::default();
        self.ecology = EcologyTuning::default();
        self.propagation = PropagationTuning::default();
        self.behavior = BehaviorTuning::default();
        assert(self@ =~= shipped_tuning(self.restock@));
    }
}

/// How a knob is shown.
#[derive(Clone, Copy, PartialEq, Eq, Debug, Structural)]
pub enum Fmt {
    /// A plain count.
    Int,
    /// Ticks, as the duration that they are.
    Ticks,
    /// Per-mille of a whole.
    Permille,
    /// Hundredths of a cell.
    Cells,
}

/// How far a nudge goes.
#[derive(Clone, Copy, PartialEq, Eq, Debug, Structural)]
pub enum Step {
    /// A fixed amount; a coarse nudge is ten of them.
    Add(i64),
    /// About a tenth of the value; a coarse nudge doubles or halves it.
    Scale,
}

/// A length in hundredths of a cell, to the nearest.
pub open spec fn in_cells(f: Fx) -> i64 {
    trunc_div(f.0 * 100 + 32768, 65536) as i64
}

/// A part of one in per-mille, rounded toward zero.
pub open spec fn in_permille(f: Fx) -> i64 {
    trunc_div(f.0 * 1000, 65536) as i64
}

/// Input or output units per batch of a race's `Exist` recipe, 0 without one.
pub open spec fn shown_ratio(s: Seq<ActionRecipe>, input: bool) -> i64 {
    match action_for(s, ActionSlot::Exist) {
        Some(a) => (if input {
            a.ratio_in
        } else {
            a.ratio_out
        }) as i64,
        None => 0,
    }
}

/// The base rate of a race's `Mine` recipe, 0 without one.
pub open spec fn shown_rate(s: Seq<ActionRecipe>) -> i64 {
    match action_for(s, ActionSlot::Mine) {
        Some(a) => base_rate(a.rate) as i64,
        None => 0,
    }
}

pub open spec fn base_rate(l: RateLaw) -> u16 {
    match l {
        RateLaw::Flat(n) => n,
        RateLaw::NeighborScaled { base, .. } => base,
    }
}

/// The same law with another base.
pub open spec fn with_base(l: RateLaw, n: u16) -> RateLaw {
    match l {
        RateLaw::Flat(_) => RateLaw::Flat(n),
        RateLaw::NeighborScaled { base, per_neighbor, per_size } => RateLaw::NeighborScaled {
            base: n,
            per_neighbor,
            per_size,
        },
    }
}

/// The recipes with the one for `slot` replaced, if there is one.
pub open spec fn with_action(s: Seq<ActionRecipe>, slot: ActionSlot, a: ActionRecipe) -> Seq<
    ActionRecipe,
> {
    if action_pos(s, slot) < s.len() {
        s.update(action_pos(s, slot) as int, a)
    } else {
        s
    }
}

/// The recipes with other input units for `Exist`. The output follows down,
/// for a recipe cannot make mass.
pub open spec fn with_ratio_in(s: Seq<ActionRecipe>, n: u32) -> Seq<ActionRecipe> {
    match action_for(s, ActionSlot::Exist) {
        Some(a) => with_action(
            s,
            ActionSlot::Exist,
            ActionRecipe {
                ratio_in: n,
                ratio_out: if a.ratio_out > n {
                    n
                } else {
                    a.ratio_out
                },
                ..a
            },
        ),
        None => s,
    }
}

/// The recipes with other output units for `Exist`, at most its input units.
pub open spec fn with_ratio_out(s: Seq<ActionRecipe>, n: u32) -> Seq<ActionRecipe> {
    match action_for(s, ActionSlot::Exist) {
        Some(a) => with_action(
            s,
            ActionSlot::Exist,
            ActionRecipe {
                ratio_out: if n > a.ratio_in {
                    a.ratio_in
                } else {
                    n
                },
                ..a
            },
        ),
        None => s,
    }
}

/// The recipes with another base rate for `Mine`.
pub open spec fn with_rate(s: Seq<ActionRecipe>, n: u16) -> Seq<ActionRecipe> {
    match action_for(s, ActionSlot::Mine) {
        Some(a) => with_action(
            s,
            ActionSlot::Mine,
            ActionRecipe { rate: with_base(a.rate, n), ..a },
        ),
        None => s,
    }
}

/// Which number a knob turns.
#[derive(Clone, Copy, PartialEq, Eq, Debug, Structural)]
pub enum KnobId {
    Lifespan,
    LifeVariance,
    Speed,
    Radius,
    Restock,
    RatioIn,
    RatioOut,
    MiningRate,
    DiffuseRate,
    DiffuseCap,
    BaseLo,
    BaseHi,
    ClimateFloor,
    SeasonPeak,
    SeasonLength,
    ForageRadius,
    Satiation,
    FeedGain,
    StarveAfter,
    StarveRate,
    ReproThreshold,
    AttritionRate,
    SuppressionRate,
    Period,
    Chance,
    OffspringSize,
    RootMin,
    Dispersal,
    CrowdMax,
    FleeThreshold,
    SenseRadius,
    TurnRate,
}

/// Format, step and range of a knob.
pub open spec fn row(id: KnobId) -> (Fmt, Step, i64, i64) {
    match id {
        KnobId::Lifespan => (Fmt::Ticks, Step::Scale, 100, 12_960_000),
        KnobId::LifeVariance => (Fmt::Permille, Step::Add(10), 0, 900),
        KnobId::Speed => (Fmt::Cells, Step::Add(1), 0, 400),
        KnobId::Radius => (Fmt::Cells, Step::Add(5), 1, 2000),
        KnobId::Restock => (Fmt::Int, Step::Add(5), 0, 250),
        KnobId::RatioIn => (Fmt::Int, Step::Add(1), 1, 100_000),
        KnobId::RatioOut => (Fmt::Int, Step::Add(1), 1, 100_000),
        KnobId::MiningRate => (Fmt::Int, Step::Add(5), 0, 60_000),
        KnobId::DiffuseRate => (Fmt::Permille, Step::Add(1), 0, 1000),
        KnobId::DiffuseCap => (Fmt::Int, Step::Add(5), 0, 65_535),
        KnobId::BaseLo => (Fmt::Int, Step::Add(1), 0, 65_535),
        KnobId::BaseHi => (Fmt::Int, Step::Add(1), 0, 65_535),
        KnobId::ClimateFloor => (Fmt::Int, Step::Add(1), 0, 65_535),
        KnobId::SeasonPeak => (Fmt::Int, Step::Add(50), 0, 65_535),
        KnobId::SeasonLength => (Fmt::Ticks, Step::Scale, 1, 12_960_000),
        KnobId::ForageRadius => (Fmt::Cells, Step::Add(20), 0, 4000),
        KnobId::Satiation => (Fmt::Ticks, Step::Scale, 1, 144_000),
        KnobId::FeedGain => (Fmt::Int, Step::Add(5), 0, 100),
        KnobId::StarveAfter => (Fmt::Ticks, Step::Scale, 1, 1_008_000),
        KnobId::StarveRate => (Fmt::Int, Step::Add(1), 0, 100),
        KnobId::ReproThreshold => (Fmt::Int, Step::Add(5), 0, 100),
        KnobId::AttritionRate => (Fmt::Permille, Step::Add(1), 0, 1000),
        KnobId::SuppressionRate => (Fmt::Permille, Step::Add(1), 0, 1000),
        KnobId::Period => (Fmt::Int, Step::Add(1), 0, 1000),
        KnobId::Chance => (Fmt::Permille, Step::Add(25), 0, 1000),
        KnobId::OffspringSize => (Fmt::Permille, Step::Add(25), 0, 1000),
        KnobId::RootMin => (Fmt::Int, Step::Add(50), 0, 65_535),
        KnobId::Dispersal => (Fmt::Cells, Step::Add(5), 0, 2000),
        KnobId::CrowdMax => (Fmt::Int, Step::Add(1), 0, 1000),
        KnobId::FleeThreshold => (Fmt::Int, Step::Add(200), 0, 65_535),
        KnobId::SenseRadius => (Fmt::Int, Step::Add(1), 0, 40),
        KnobId::TurnRate => (Fmt::Permille, Step::Add(25), 0, 1000),
    }
}

pub open spec fn name_of(id: KnobId) -> Seq<char> {
    match id {
        KnobId::Lifespan => "lifespan"@,
        KnobId::LifeVariance => "life variance"@,
        KnobId::Speed => "speed"@,
        KnobId::Radius => "radius"@,
        KnobId::Restock => "restock to"@,
        KnobId::RatioIn => "ratio in"@,
        KnobId::RatioOut => "ratio out"@,
        KnobId::MiningRate => "mining rate"@,
        KnobId::DiffuseRate => "diffuse rate"@,
        KnobId::DiffuseCap => "diffuse cap"@,
        KnobId::BaseLo => "base lo"@,
        KnobId::BaseHi => "base hi"@,
        KnobId::ClimateFloor => "climate floor"@,
        KnobId::SeasonPeak => "season peak"@,
        KnobId::SeasonLength => "season length"@,
        KnobId::ForageRadius => "forage radius"@,
        KnobId::Satiation => "satiation"@,
        KnobId::FeedGain => "feed gain"@,
        KnobId::StarveAfter => "starve after"@,
        KnobId::StarveRate => "starve rate"@,
        KnobId::ReproThreshold => "repro threshold"@,
        KnobId::AttritionRate => "attrition rate"@,
        KnobId::SuppressionRate => "suppression rate"@,
        KnobId::Period => "period"@,
        KnobId::Chance => "chance"@,
        KnobId::OffspringSize => "offspring size"@,
        KnobId::RootMin => "root min"@,
        KnobId::Dispersal => "dispersal"@,
        KnobId::CrowdMax => "crowd max"@,
        KnobId::FleeThreshold => "flee threshold"@,
        KnobId::SenseRadius => "sense radius"@,
        KnobId::TurnRate => "turn rate"@,
    }
}

pub open spec fn help_of(id: KnobId) -> Seq<char> {
    match id {
        KnobId::Lifespan => "how long one body persists before it expires of old age"@,
        KnobId::LifeVariance => "per-mille spread on lifespan, so a cohort born together does not die together"@,
        KnobId::Speed => "cells per tick — an ECOLOGY knob: it decides whether biomes coexist or collapse to one"@,
        KnobId::Radius => "collision radius in cells; bigger bodies crowd each other out of a region sooner"@,
        KnobId::Restock => "VIEW KNOB: bodies of this race the view keeps spawning back, as ordinary input commands"@,
        KnobId::RatioIn => "habitat-element units consumed per batch of existing"@,
        KnobId::RatioOut => "own-element units produced per batch — never exceeds ratio in; a recipe cannot manufacture mass"@,
        KnobId::MiningRate => "terrain units of a chosen element drawn into carried stock per Mine command (Animal only)"@,
        KnobId::DiffuseRate => "permille of the concentration difference across an edge that moves each terrain tick"@,
        KnobId::DiffuseCap => "flat units per edge per terrain tick — no edge can ever carry more than this in one tick"@,
        KnobId::BaseLo => "low end of the one-time per-cell geography draw for this element"@,
        KnobId::BaseHi => "high end of the one-time per-cell geography draw for this element"@,
        KnobId::ClimateFloor => "always-on climate influx added every terrain tick, regardless of season"@,
        KnobId::SeasonPeak => "peak seasonal bonus applied to this element while it is in season"@,
        KnobId::SeasonLength => "GLOBAL: terrain ticks per season — five seasons, one per element, make one full lap"@,
        KnobId::ForageRadius => "how far a body can reach to eat prey on the ring edge it eats"@,
        KnobId::Satiation => "minimum ticks between one body's successful meals"@,
        KnobId::FeedGain => "hp restored by one successful meal, out of a 0..=100 scale"@,
        KnobId::StarveAfter => "ticks without a meal before starvation drain begins"@,
        KnobId::StarveRate => "hp lost per tick once starvation has begun"@,
        KnobId::ReproThreshold => "hp a meal must reach, from below, to spawn an offspring"@,
        KnobId::AttritionRate => "permille of what eats this element's terrain concentration converted to hp damage each terrain tick"@,
        KnobId::SuppressionRate => "permille of this element's suppressor's terrain concentration added to hunger each terrain tick"@,
        KnobId::Period => "terrain ticks between propagation attempts; 0 = never attempts"@,
        KnobId::Chance => "per-mille, per eligible plant, per attempt"@,
        KnobId::OffspringSize => "per-mille of full size a new offspring is born at"@,
        KnobId::RootMin => "minimum terrain stock of the plant's own element required at the candidate cell"@,
        KnobId::Dispersal => "max scatter offset from the parent, in cells"@,
        KnobId::CrowdMax => "max same-race bodies already occupying the candidate cell"@,
        KnobId::FleeThreshold => "terrain stock of what eats this race, at its own cell, above which it flees"@,
        KnobId::SenseRadius => "how far a body can sense prey, in cells -- larger than forage radius on purpose"@,
        KnobId::TurnRate => "per-tick steering blend toward the desired heading; 0 never turns, 1000 snaps"@,
    }
}

/// What a knob shows for race `r`.
pub open spec fn reading(id: KnobId, t: TuningV, r: Race) -> i64 {
    match id {
        KnobId::Lifespan => t.races[r.at()].lifespan as i64,
        KnobId::LifeVariance => t.races[r.at()].lifespan_variance as i64,
        KnobId::Speed => in_cells(t.races[r.at()].speed),
        KnobId::Radius => in_cells(t.races[r.at()].radius),
        KnobId::Restock => t.restock[r.at()] as i64,
        KnobId::RatioIn => shown_ratio(t.races[r.at()].actions, true),
        KnobId::RatioOut => shown_ratio(t.races[r.at()].actions, false),
        KnobId::MiningRate => shown_rate(t.races[r.at()].actions),
        KnobId::DiffuseRate => t.diffuse_rate[r.element.at()] as i64,
        KnobId::DiffuseCap => t.diffuse_cap[r.element.at()] as i64,
        KnobId::BaseLo => t.base_range[r.element.at()].0 as i64,
        KnobId::BaseHi => t.base_range[r.element.at()].1 as i64,
        KnobId::ClimateFloor => t.floor[r.element.at()] as i64,
        KnobId::SeasonPeak => t.season_peak[r.element.at()] as i64,
        KnobId::SeasonLength => t.season_ticks as i64,
        KnobId::ForageRadius => in_cells(t.forage_radius[r.element.at()]),
        KnobId::Satiation => t.satiation[r.element.at()] as i64,
        KnobId::FeedGain => t.feed_gain[r.element.at()] as i64,
        KnobId::StarveAfter => t.starve_after[r.element.at()] as i64,
        KnobId::StarveRate => t.starve_rate[r.element.at()] as i64,
        KnobId::ReproThreshold => t.repro_threshold[r.element.at()] as i64,
        KnobId::AttritionRate => t.attrition_rate[r.element.at()] as i64,
        KnobId::SuppressionRate => t.suppression_rate[r.element.at()] as i64,
        KnobId::Period => t.period[r.element.at()] as i64,
        KnobId::Chance => t.chance[r.element.at()] as i64,
        KnobId::OffspringSize => t.offspring_size[r.element.at()] as i64,
        KnobId::RootMin => t.root_min[r.element.at()] as i64,
        KnobId::Dispersal => in_cells(t.dispersal[r.element.at()]),
        KnobId::CrowdMax => t.crowd_max[r.element.at()] as i64,
        KnobId::FleeThreshold => t.flee_threshold[r.at()] as i64,
        KnobId::SenseRadius => t.sense_radius[r.at()] as i64,
        KnobId::TurnRate => in_permille(t.turn_rate[r.at()]),
    }
}

/// The table after a knob has been set to `v` for race `r`.
pub open spec fn written(id: KnobId, t: TuningV, r: Race, v: i64) -> TuningV {
    let a = t.races[r.at()];
    match id {
        KnobId::Lifespan => TuningV { races: t.races.update(r.at(), RaceAttrsV { lifespan: v as u64, ..a }), ..t },
        KnobId::LifeVariance => TuningV { races: t.races.update(r.at(), RaceAttrsV { lifespan_variance: v as u16, ..a }), ..t },
        KnobId::Speed => TuningV { races: t.races.update(r.at(), RaceAttrsV { speed: Fx::of_ratio(v as i32 as int, 100), ..a }), ..t },
        KnobId::Radius => TuningV { races: t.races.update(r.at(), RaceAttrsV { radius: Fx::of_ratio(v as i32 as int, 100), ..a }), ..t },
        KnobId::Restock => TuningV { restock: t.restock.update(r.at(), v as u32), ..t },
        KnobId::RatioIn => TuningV { races: t.races.update(r.at(), RaceAttrsV { actions: with_ratio_in(a.actions, v as u32), ..a }), ..t },
        KnobId::RatioOut => TuningV { races: t.races.update(r.at(), RaceAttrsV { actions: with_ratio_out(a.actions, v as u32), ..a }), ..t },
        KnobId::MiningRate => TuningV { races: t.races.update(r.at(), RaceAttrsV { actions: with_rate(a.actions, v as u16), ..a }), ..t },
        KnobId::DiffuseRate => TuningV { diffuse_rate: t.diffuse_rate.update(r.element.at(), v as u16), ..t },
        KnobId::DiffuseCap => TuningV { diffuse_cap: t.diffuse_cap.update(r.element.at(), v as u16), ..t },
        KnobId::BaseLo => TuningV { base_range: t.base_range.update(r.element.at(), (v as u16, t.base_range[r.element.at()].1)), ..t },
        KnobId::BaseHi => TuningV { base_range: t.base_range.update(r.element.at(), (t.base_range[r.element.at()].0, v as u16)), ..t },
        KnobId::ClimateFloor => TuningV { floor: t.floor.update(r.element.at(), v as u16), ..t },
        KnobId::SeasonPeak => TuningV { season_peak: t.season_peak.update(r.element.at(), v as u16), ..t },
        KnobId::SeasonLength => TuningV { season_ticks: v as u64, ..t },
        KnobId::ForageRadius => TuningV { forage_radius: t.forage_radius.update(r.element.at(), Fx::of_ratio(v as i32 as int, 100)), ..t },
        KnobId::Satiation => TuningV { satiation: t.satiation.update(r.element.at(), v as u32), ..t },
        KnobId::FeedGain => TuningV { feed_gain: t.feed_gain.update(r.element.at(), v as i32), ..t },
        KnobId::StarveAfter => TuningV { starve_after: t.starve_after.update(r.element.at(), v as u32), ..t },
        KnobId::StarveRate => TuningV { starve_rate: t.starve_rate.update(r.element.at(), v as i32), ..t },
        KnobId::ReproThreshold => TuningV { repro_threshold: t.repro_threshold.update(r.element.at(), v as i32), ..t },
        KnobId::AttritionRate => TuningV { attrition_rate: t.attrition_rate.update(r.element.at(), v as u16), ..t },
        KnobId::SuppressionRate => TuningV { suppression_rate: t.suppression_rate.update(r.element.at(), v as u16), ..t },
        KnobId::Period => TuningV { period: t.period.update(r.element.at(), v as u64), ..t },
        KnobId::Chance => TuningV { chance: t.chance.update(r.element.at(), v as u16), ..t },
        KnobId::OffspringSize => TuningV { offspring_size: t.offspring_size.update(r.element.at(), v as u16), ..t },
        KnobId::RootMin => TuningV { root_min: t.root_min.update(r.element.at(), v as u16), ..t },
        KnobId::Dispersal => TuningV { dispersal: t.dispersal.update(r.element.at(), Fx::of_ratio(v as i32 as int, 100)), ..t },
        KnobId::CrowdMax => TuningV { crowd_max: t.crowd_max.update(r.element.at(), v as u16), ..t },
        KnobId::FleeThreshold => TuningV { flee_threshold: t.flee_threshold.update(r.at(), v as u16), ..t },
        KnobId::SenseRadius => TuningV { sense_radius: t.sense_radius.update(r.at(), v as i32), ..t },
        KnobId::TurnRate => TuningV { turn_rate: t.turn_rate.update(r.at(), Fx::of_ratio(v as i32 as int, 1000)), ..t },
    }
}

/// A length in hundredths of a cell.
pub fn cells(v: Fx) -> (r: i64)
    ensures
        r == in_cells(v),
{
    (v.raw() as i64 * 100 + 32_768) / 65_536
}

/// A part of one in per-mille.
pub fn permille(v: Fx) -> (r: i64)
    ensures
        r == in_permille(v),
{
    (v.raw() as i64 * 1000) / 65_536
}

fn exist_ratio_in(a: &RaceAttrs) -> (r: i64)
    ensures
        r == shown_ratio(a@.actions, true),
{
    match a.action(ActionSlot::Exist) {
        Some(x) => x.ratio_in as i64,
        None => 0,
    }
}

fn exist_ratio_out(a: &RaceAttrs) -> (r: i64)
    ensures
        r == shown_ratio(a@.actions, false),
{
    match a.action(ActionSlot::Exist) {
        Some(x) => x.ratio_out as i64,
        None => 0,
    }
}

fn mining_rate(a: &RaceAttrs) -> (r: i64)
    ensures
        r == shown_rate(a@.actions),
{
    match a.action(ActionSlot::Mine) {
        Some(x) => match x.rate {
            RateLaw::Flat(n) => n as i64,
            RateLaw::NeighborScaled { base, .. } => base as i64,
        },
        None => 0,
    }
}

fn set_ratio_in(a: &mut RaceAttrs, n: u32)
    ensures
        final(a)@ == (RaceAttrsV { actions: with_ratio_in(old(a)@.actions, n), ..old(a)@ }),
{
    if let Some(x) = a.action_mut(ActionSlot::Exist) {
        x.ratio_in = n;
        if x.ratio_out > n {
            x.ratio_out = n;
        }
    }
}

fn set_ratio_out(a: &mut RaceAttrs, n: u32)
    ensures
        final(a)@ == (RaceAttrsV { actions: with_ratio_out(old(a)@.actions, n), ..old(a)@ }),
{
    if let Some(x) = a.action_mut(ActionSlot::Exist) {
        x.ratio_out = if n > x.ratio_in {
            x.ratio_in
        } else {
            n
        };
    }
}

fn set_rate(a: &mut RaceAttrs, n: u16)
    ensures
        final(a)@ == (RaceAttrsV { actions: with_rate(old(a)@.actions, n), ..old(a)@ }),
{
    if let Some(x) = a.action_mut(ActionSlot::Mine) {
        x.rate = match x.rate {
            RateLaw::Flat(_) => RateLaw::Flat(n),
            RateLaw::NeighborScaled { base, per_neighbor, per_size } => RateLaw::NeighborScaled {
                base: n,
                per_neighbor,
                per_size,
            },
        };
    }
}

impl KnobId {
    fn name(self) -> (r: &'static str)
        ensures
            r@ == name_of(self),
    {
        match self {
            KnobId::Lifespan => "lifespan",
            KnobId::LifeVariance => "life variance",
            KnobId::Speed => "speed",
            KnobId::Radius => "radius",
            KnobId::Restock => "restock to",
            KnobId::RatioIn => "ratio in",
            KnobId::RatioOut => "ratio out",
            KnobId::MiningRate => "mining rate",
            KnobId::DiffuseRate => "diffuse rate",
            KnobId::DiffuseCap => "diffuse cap",
            KnobId::BaseLo => "base lo",
            KnobId::BaseHi => "base hi",
            KnobId::ClimateFloor => "climate floor",
            KnobId::SeasonPeak => "season peak",
            KnobId::SeasonLength => "season length",
            KnobId::ForageRadius => "forage radius",
            KnobId::Satiation => "satiation",
            KnobId::FeedGain => "feed gain",
            KnobId::StarveAfter => "starve after",
            KnobId::StarveRate => "starve rate",
            KnobId::ReproThreshold => "repro threshold",
            KnobId::AttritionRate => "attrition rate",
            KnobId::SuppressionRate => "suppression rate",
            KnobId::Period => "period",
            KnobId::Chance => "chance",
            KnobId::OffspringSize => "offspring size",
            KnobId::RootMin => "root min",
            KnobId::Dispersal => "dispersal",
            KnobId::CrowdMax => "crowd max",
            KnobId::FleeThreshold => "flee threshold",
            KnobId::SenseRadius => "sense radius",
            KnobId::TurnRate => "turn rate",
        }
    }

    fn help(self) -> (r: &'static str)
        ensures
            r@ == help_of(self),
    {
        match self {
            KnobId::Lifespan => "how long one body persists before it expires of old age",
            KnobId::LifeVariance => "per-mille spread on lifespan, so a cohort born together does not die together",
            KnobId::Speed => "cells per tick — an ECOLOGY knob: it decides whether biomes coexist or collapse to one",
            KnobId::Radius => "collision radius in cells; bigger bodies crowd each other out of a region sooner",
            KnobId::Restock => "VIEW KNOB: bodies of this race the view keeps spawning back, as ordinary input commands",
            KnobId::RatioIn => "habitat-element units consumed per batch of existing",
            KnobId::RatioOut => "own-element units produced per batch — never exceeds ratio in; a recipe cannot manufacture mass",
            KnobId::MiningRate => "terrain units of a chosen element drawn into carried stock per Mine command (Animal only)",
            KnobId::DiffuseRate => "permille of the concentration difference across an edge that moves each terrain tick",
            KnobId::DiffuseCap => "flat units per edge per terrain tick — no edge can ever carry more than this in one tick",
            KnobId::BaseLo => "low end of the one-time per-cell geography draw for this element",
            KnobId::BaseHi => "high end of the one-time per-cell geography draw for this element",
            KnobId::ClimateFloor => "always-on climate influx added every terrain tick, regardless of season",
            KnobId::SeasonPeak => "peak seasonal bonus applied to this element while it is in season",
            KnobId::SeasonLength => "GLOBAL: terrain ticks per season — five seasons, one per element, make one full lap",
            KnobId::ForageRadius => "how far a body can reach to eat prey on the ring edge it eats",
            KnobId::Satiation => "minimum ticks between one body's successful meals",
            KnobId::FeedGain => "hp restored by one successful meal, out of a 0..=100 scale",
            KnobId::StarveAfter => "ticks without a meal before starvation drain begins",
            KnobId::StarveRate => "hp lost per tick once starvation has begun",
            KnobId::ReproThreshold => "hp a meal must reach, from below, to spawn an offspring",
            KnobId::AttritionRate => "permille of what eats this element's terrain concentration converted to hp damage each terrain tick",
            KnobId::SuppressionRate => "permille of this element's suppressor's terrain concentration added to hunger each terrain tick",
            KnobId::Period => "terrain ticks between propagation attempts; 0 = never attempts",
            KnobId::Chance => "per-mille, per eligible plant, per attempt",
            KnobId::OffspringSize => "per-mille of full size a new offspring is born at",
            KnobId::RootMin => "minimum terrain stock of the plant's own element required at the candidate cell",
            KnobId::Dispersal => "max scatter offset from the parent, in cells",
            KnobId::CrowdMax => "max same-race bodies already occupying the candidate cell",
            KnobId::FleeThreshold => "terrain stock of what eats this race, at its own cell, above which it flees",
            KnobId::SenseRadius => "how far a body can sense prey, in cells -- larger than forage radius on purpose",
            KnobId::TurnRate => "per-tick steering blend toward the desired heading; 0 never turns, 1000 snaps",
        }
    }

    fn row(self) -> (r: (Fmt, Step, i64, i64))
        ensures
            r == row(self),
    {
        match self {
            KnobId::Lifespan => (Fmt::Ticks, Step::Scale, 100, 12_960_000),
            KnobId::LifeVariance => (Fmt::Permille, Step::Add(10), 0, 900),
            KnobId::Speed => (Fmt::Cells, Step::Add(1), 0, 400),
            KnobId::Radius => (Fmt::Cells, Step::Add(5), 1, 2000),
            KnobId::Restock => (Fmt::Int, Step::Add(5), 0, 250),
            KnobId::RatioIn => (Fmt::Int, Step::Add(1), 1, 100_000),
            KnobId::RatioOut => (Fmt::Int, Step::Add(1), 1, 100_000),
            KnobId::MiningRate => (Fmt::Int, Step::Add(5), 0, 60_000),
            KnobId::DiffuseRate => (Fmt::Permille, Step::Add(1), 0, 1000),
            KnobId::DiffuseCap => (Fmt::Int, Step::Add(5), 0, 65_535),
            KnobId::BaseLo => (Fmt::Int, Step::Add(1), 0, 65_535),
            KnobId::BaseHi => (Fmt::Int, Step::Add(1), 0, 65_535),
            KnobId::ClimateFloor => (Fmt::Int, Step::Add(1), 0, 65_535),
            KnobId::SeasonPeak => (Fmt::Int, Step::Add(50), 0, 65_535),
            KnobId::SeasonLength => (Fmt::Ticks, Step::Scale, 1, 12_960_000),
            KnobId::ForageRadius => (Fmt::Cells, Step::Add(20), 0, 4000),
            KnobId::Satiation => (Fmt::Ticks, Step::Scale, 1, 144_000),
            KnobId::FeedGain => (Fmt::Int, Step::Add(5), 0, 100),
            KnobId::StarveAfter => (Fmt::Ticks, Step::Scale, 1, 1_008_000),
            KnobId::StarveRate => (Fmt::Int, Step::Add(1), 0, 100),
            KnobId::ReproThreshold => (Fmt::Int, Step::Add(5), 0, 100),
            KnobId::AttritionRate => (Fmt::Permille, Step::Add(1), 0, 1000),
            KnobId::SuppressionRate => (Fmt::Permille, Step::Add(1), 0, 1000),
            KnobId::Period => (Fmt::Int, Step::Add(1), 0, 1000),
            KnobId::Chance => (Fmt::Permille, Step::Add(25), 0, 1000),
            KnobId::OffspringSize => (Fmt::Permille, Step::Add(25), 0, 1000),
            KnobId::RootMin => (Fmt::Int, Step::Add(50), 0, 65_535),
            KnobId::Dispersal => (Fmt::Cells, Step::Add(5), 0, 2000),
            KnobId::CrowdMax => (Fmt::Int, Step::Add(1), 0, 1000),
            KnobId::FleeThreshold => (Fmt::Int, Step::Add(200), 0, 65_535),
            KnobId::SenseRadius => (Fmt::Int, Step::Add(1), 0, 40),
            KnobId::TurnRate => (Fmt::Permille, Step::Add(25), 0, 1000),
        }
    }
}

/// A row of the table.
#[derive(Clone, Copy, Debug)]
pub struct Knob {
    pub id: KnobId,
    pub name: &'static str,
    pub help: &'static str,
    pub fmt: Fmt,
    pub step: Step,
    pub lo: i64,
    pub hi: i64,
}

/// `v` kept within `lo` and `hi`.
pub open spec fn kept(v: int, lo: i64, hi: i64) -> i64 {
    if v < lo {
        lo
    } else if v > hi {
        hi
    } else {
        v as i64
    }
}

pub open spec fn sat_i64(v: int) -> int {
    if v > i64::MAX {
        i64::MAX as int
    } else if v < i64::MIN {
        i64::MIN as int
    } else {
        v
    }
}

fn bounded(v: i128) -> (r: i64)
    ensures
        r == sat_i64(v as int),
{
    if v > i64::MAX as i128 {
        i64::MAX
    } else if v < i64::MIN as i128 {
        i64::MIN
    } else {
        v as i64
    }
}

/// Where a nudge takes a value, before its range is applied.
pub open spec fn nudged(step: Step, v: int, up: bool, coarse: bool) -> int {
    match step {
        Step::Add(n) => {
            let d = if coarse {
                n * 10
            } else {
                n as int
            };
            sat_i64(if up {
                v + d
            } else {
                v - d
            })
        },
        Step::Scale => if coarse && up {
            if sat_i64(2 * v) > v + 1 {
                sat_i64(2 * v)
            } else {
                v + 1
            }
        } else if coarse {
            trunc_div(v, 2)
        } else if up {
            sat_i64(v + at_least_one(trunc_div(v, 10)))
        } else {
            sat_i64(v - at_least_one(trunc_div(v, 11)))
        },
    }
}

pub open spec fn at_least_one(v: int) -> int {
    if v < 1 {
        1
    } else {
        v
    }
}

impl Knob {
    /// The knob is the row of its id.
    pub open spec fn wf(self) -> bool {
        &&& self.name@ == name_of(self.id)
        &&& self.help@ == help_of(self.id)
        &&& (self.fmt, self.step, self.lo, self.hi) == row(self.id)
    }

    /// The row of an id.
    pub fn of(id: KnobId) -> (k: Knob)
        ensures
            k.id == id,
            k.wf(),
    {
        let (fmt, step, lo, hi): (Fmt, Step, i64, i64) = id.row();
        Knob { id, name: id.name(), help: id.help(), fmt, step, lo, hi }
    }

    /// What the knob shows for race `r`.
    pub fn value(&self, t: &Tuning, r: Race) -> (v: i64)
        ensures
            v == reading(self.id, t@, r),
    {
        proof {
            crate::race::law_race_positions(r, 0);
        }
        match self.id {
            KnobId::Lifespan => #[verifier::truncate] (t.races.get(r).lifespan as i64),
            KnobId::LifeVariance => t.races.get(r).lifespan_variance as i64,
            KnobId::Speed => cells(t.races.get(r).speed),
            KnobId::Radius => cells(t.races.get(r).radius),
            KnobId::Restock => *t.restock.get(r) as i64,
            KnobId::RatioIn => exist_ratio_in(t.races.get(r)),
            KnobId::RatioOut => exist_ratio_out(t.races.get(r)),
            KnobId::MiningRate => mining_rate(t.races.get(r)),
            KnobId::DiffuseRate => *t.terrain.diffuse_rate.get(r.element) as i64,
            KnobId::DiffuseCap => *t.terrain.diffuse_cap.get(r.element) as i64,
            KnobId::BaseLo => t.climate.base_range.get(r.element).0 as i64,
            KnobId::BaseHi => t.climate.base_range.get(r.element).1 as i64,
            KnobId::ClimateFloor => *t.climate.floor.get(r.element) as i64,
            KnobId::SeasonPeak => *t.climate.season_peak.get(r.element) as i64,
            KnobId::SeasonLength => #[verifier::truncate] (t.climate.season_ticks as i64),
            KnobId::ForageRadius => cells(*t.ecology.forage_radius.get(r.element)),
            KnobId::Satiation => *t.ecology.satiation.get(r.element) as i64,
            KnobId::FeedGain => *t.ecology.feed_gain.get(r.element) as i64,
            KnobId::StarveAfter => *t.ecology.starve_after.get(r.element) as i64,
            KnobId::StarveRate => *t.ecology.starve_rate.get(r.element) as i64,
            KnobId::ReproThreshold => *t.ecology.repro_threshold.get(r.element) as i64,
            KnobId::AttritionRate => *t.ecology.attrition_rate.get(r.element) as i64,
            KnobId::SuppressionRate => *t.ecology.suppression_rate.get(r.element) as i64,
            KnobId::Period => #[verifier::truncate] (*t.propagation.period.get(r.element) as i64),
            KnobId::Chance => *t.propagation.chance.get(r.element) as i64,
            KnobId::OffspringSize => *t.propagation.offspring_size.get(r.element) as i64,
            KnobId::RootMin => *t.propagation.root_min.get(r.element) as i64,
            KnobId::Dispersal => cells(*t.propagation.dispersal.get(r.element)),
            KnobId::CrowdMax => *t.propagation.crowd_max.get(r.element) as i64,
            KnobId::FleeThreshold => *t.behavior.flee_threshold.get(r) as i64,
            KnobId::SenseRadius => *t.behavior.sense_radius.get(r) as i64,
            KnobId::TurnRate => permille(*t.behavior.turn_rate.get(r)),
        }
    }

    /// Set the knob to `v` for race `r`.
    pub fn set(&self, t: &mut Tuning, r: Race, v: i64)
        ensures
            final(t)@ == written(self.id, old(t)@, r, v),
    {
        let ghost before = t@;
        proof {
            crate::race::law_race_positions(r, 0);
        }
        match self.id {
            KnobId::Lifespan => { t.races.get_mut(r).lifespan = #[verifier::truncate] (v as u64); },
            KnobId::LifeVariance => { t.races.get_mut(r).lifespan_variance = #[verifier::truncate] (v as u16); },
            KnobId::Speed => { t.races.get_mut(r).speed = Fx::ratio(#[verifier::truncate] (v as i32), 100); },
            KnobId::Radius => { t.races.get_mut(r).radius = Fx::ratio(#[verifier::truncate] (v as i32), 100); },
            KnobId::Restock => { t.restock.set(r, #[verifier::truncate] (v as u32)); },
            KnobId::RatioIn => { set_ratio_in(t.races.get_mut(r), #[verifier::truncate] (v as u32)); },
            KnobId::RatioOut => { set_ratio_out(t.races.get_mut(r), #[verifier::truncate] (v as u32)); },
            KnobId::MiningRate => { set_rate(t.races.get_mut(r), #[verifier::truncate] (v as u16)); },
            KnobId::DiffuseRate => { t.terrain.diffuse_rate.set(r.element, #[verifier::truncate] (v as u16)); },
            KnobId::DiffuseCap => { t.terrain.diffuse_cap.set(r.element, #[verifier::truncate] (v as u16)); },
            KnobId::BaseLo => { { let was: (u16, u16) = *t.climate.base_range.get(r.element); t.climate.base_range.set(r.element, (#[verifier::truncate] (v as u16), was.1)); } },
            KnobId::BaseHi => { { let was: (u16, u16) = *t.climate.base_range.get(r.element); t.climate.base_range.set(r.element, (was.0, #[verifier::truncate] (v as u16))); } },
            KnobId::ClimateFloor => { t.climate.floor.set(r.element, #[verifier::truncate] (v as u16)); },
            KnobId::SeasonPeak => { t.climate.season_peak.set(r.element, #[verifier::truncate] (v as u16)); },
            KnobId::SeasonLength => { t.climate.season_ticks = #[verifier::truncate] (v as u64); },
            KnobId::ForageRadius => { t.ecology.forage_radius.set(r.element, Fx::ratio(#[verifier::truncate] (v as i32), 100)); },
            KnobId::Satiation => { t.ecology.satiation.set(r.element, #[verifier::truncate] (v as u32)); },
            KnobId::FeedGain => { t.ecology.feed_gain.set(r.element, #[verifier::truncate] (v as i32)); },
            KnobId::StarveAfter => { t.ecology.starve_after.set(r.element, #[verifier::truncate] (v as u32)); },
            KnobId::StarveRate => { t.ecology.starve_rate.set(r.element, #[verifier::truncate] (v as i32)); },
            KnobId::ReproThreshold => { t.ecology.repro_threshold.set(r.element, #[verifier::truncate] (v as i32)); },
            KnobId::AttritionRate => { t.ecology.attrition_rate.set(r.element, #[verifier::truncate] (v as u16)); },
            KnobId::SuppressionRate => { t.ecology.suppression_rate.set(r.element, #[verifier::truncate] (v as u16)); },
            KnobId::Period => { t.propagation.period.set(r.element, #[verifier::truncate] (v as u64)); },
            KnobId::Chance => { t.propagation.chance.set(r.element, #[verifier::truncate] (v as u16)); },
            KnobId::OffspringSize => { t.propagation.offspring_size.set(r.element, #[verifier::truncate] (v as u16)); },
            KnobId::RootMin => { t.propagation.root_min.set(r.element, #[verifier::truncate] (v as u16)); },
            KnobId::Dispersal => { t.propagation.dispersal.set(r.element, Fx::ratio(#[verifier::truncate] (v as i32), 100)); },
            KnobId::CrowdMax => { t.propagation.crowd_max.set(r.element, #[verifier::truncate] (v as u16)); },
            KnobId::FleeThreshold => { t.behavior.flee_threshold.set(r, #[verifier::truncate] (v as u16)); },
            KnobId::SenseRadius => { t.behavior.sense_radius.set(r, #[verifier::truncate] (v as i32)); },
            KnobId::TurnRate => { t.behavior.turn_rate.set(r, Fx::ratio(#[verifier::truncate] (v as i32), 1000)); },
        }
        assert(t@ =~= written(self.id, before, r, v));
    }

    /// Nudge the knob up or down for race `r`, within its range.
    pub fn nudge(&self, t: &mut Tuning, r: Race, up: bool, coarse: bool)
        requires
            self.wf(),
            self.step == Step::Scale && up && coarse ==> reading(self.id, old(t)@, r) < i64::MAX,
        ensures
            final(t)@ == written(
                self.id,
                old(t)@,
                r,
                kept(
                    nudged(self.step, reading(self.id, old(t)@, r) as int, up, coarse),
                    self.lo,
                    self.hi,
                ),
            ),
    {
        let v: i64 = self.value(t, r);
        let next: i64 = match self.step {
            Step::Add(n) => {
                let d: i64 = if coarse {
                    n * 10
                } else {
                    n
                };
                if up {
                    bounded(v as i128 + d as i128)
                } else {
                    bounded(v as i128 - d as i128)
                }
            },
            Step::Scale => if coarse && up {
                let twice: i64 = bounded(v as i128 * 2);
                if twice > v + 1 {
                    twice
                } else {
                    v + 1
                }
            } else if coarse {
                v / 2
            } else if up {
                let d: i64 = v / 10;
                bounded(v as i128 + (if d < 1 {
                    1
                } else {
                    d
                }) as i128)
            } else {
                let d: i64 = v / 11;
                bounded(v as i128 - (if d < 1 {
                    1
                } else {
                    d
                }) as i128)
            },
        };
        let v: i64 = if next < self.lo {
            self.lo
        } else if next > self.hi {
            self.hi
        } else {
            next
        };
        self.set(t, r, v);
    }
}

impl Knob {
    /// The range of a slider for this knob, and whether it is logarithmic: a
    /// proportional knob with a wide range is, and then starts at 1 at least.
    pub fn slider(&self) -> (r: (i64, i64, bool))
        ensures
            r.2 == (self.step == Step::Scale && self.lo >= 0 && self.hi > 1000),
            r.1 == self.hi,
            r.0 == (if r.2 && self.lo < 1 {
                1
            } else {
                self.lo
            }),
    {
        let log: bool = self.step == Step::Scale && self.lo >= 0 && self.hi > 1000;
        let lo: i64 = if log && self.lo < 1 {
            1
        } else {
            self.lo
        };
        (lo, self.hi, log)
    }
}

/// A screenful of knobs.
pub struct Page {
    pub title: &'static str,
    pub knobs: Vec<Knob>,
    pub axis: Axis,
}

/// The knobs of a page.
pub open spec fn page_ids(i: int) -> Seq<KnobId> {
    if i == 0 {
        seq![KnobId::Lifespan, KnobId::LifeVariance, KnobId::Speed, KnobId::Radius, KnobId::Restock, KnobId::RatioIn, KnobId::RatioOut, KnobId::MiningRate]
    } else if i == 1 {
        seq![KnobId::DiffuseRate, KnobId::DiffuseCap, KnobId::BaseLo, KnobId::BaseHi, KnobId::ClimateFloor, KnobId::SeasonPeak, KnobId::SeasonLength]
    } else if i == 2 {
        seq![KnobId::ForageRadius, KnobId::Satiation, KnobId::FeedGain, KnobId::StarveAfter, KnobId::StarveRate, KnobId::ReproThreshold, KnobId::AttritionRate, KnobId::SuppressionRate]
    } else if i == 3 {
        seq![KnobId::Period, KnobId::Chance, KnobId::OffspringSize, KnobId::RootMin, KnobId::Dispersal, KnobId::CrowdMax]
    } else {
        seq![KnobId::FleeThreshold, KnobId::SenseRadius, KnobId::TurnRate]
    }
}

pub open spec fn page_title(i: int) -> Seq<char> {
    if i == 0 {
        "body & rates"@
    } else if i == 1 {
        "terrain & climate"@
    } else if i == 2 {
        "ecology (S2)"@
    } else if i == 3 {
        "propagation (S3.5)"@
    } else {
        "behavior (S3.4)"@
    }
}

pub open spec fn page_axis(i: int) -> Axis {
    if i == 0 || i == 4 {
        Axis::Race
    } else {
        Axis::Element
    }
}

pub const PAGE_COUNT: usize = 5;

impl Page {
    /// The page is page number `i` of the table.
    pub open spec fn is_page(self, i: int) -> bool {
        &&& self.title@ == page_title(i)
        &&& self.axis == page_axis(i)
        &&& self.knobs@.len() == page_ids(i).len()
        &&& forall|k: int|
            0 <= k < self.knobs@.len() ==> (#[trigger] self.knobs@[k]).wf() && self.knobs@[k].id
                == page_ids(i)[k]
    }
}

/// The rows of some ids.
fn knobs_of(ids: &[KnobId]) -> (v: Vec<Knob>)
    ensures
        v@.len() == ids@.len(),
        forall|k: int| 0 <= k < v@.len() ==> (#[trigger] v@[k]).wf() && v@[k].id == ids@[k],
{
    let mut v: Vec<Knob> = Vec::new();
    let mut i: usize = 0;
    while i < ids.len()
        invariant
            i <= ids@.len(),
            v@.len() == i,
            forall|k: int| 0 <= k < i ==> (#[trigger] v@[k]).wf() && v@[k].id == ids@[k],
        decreases ids.len() - i,
    {
        v.push(Knob::of(ids[i]));
        i = i + 1;
    }
    v
}

/// Page number `i` of the table, counted round.
pub fn page(i: usize) -> (p: Page)
    ensures
        p.is_page(i as int % 5),
{
    let k: usize = i % PAGE_COUNT;
    if k == 0 {
        Page {
            title: "body & rates",
            knobs: knobs_of(&[KnobId::Lifespan, KnobId::LifeVariance, KnobId::Speed, KnobId::Radius, KnobId::Restock, KnobId::RatioIn, KnobId::RatioOut, KnobId::MiningRate]),
            axis: Axis::Race,
        }
    } else if k == 1 {
        Page {
            title: "terrain & climate",
            knobs: knobs_of(&[KnobId::DiffuseRate, KnobId::DiffuseCap, KnobId::BaseLo, KnobId::BaseHi, KnobId::ClimateFloor, KnobId::SeasonPeak, KnobId::SeasonLength]),
            axis: Axis::Element,
        }
    } else if k == 2 {
        Page {
            title: "ecology (S2)",
            knobs: knobs_of(&[KnobId::ForageRadius, KnobId::Satiation, KnobId::FeedGain, KnobId::StarveAfter, KnobId::StarveRate, KnobId::ReproThreshold, KnobId::AttritionRate, KnobId::SuppressionRate]),
            axis: Axis::Element,
        }
    } else if k == 3 {
        Page {
            title: "propagation (S3.5)",
            knobs: knobs_of(&[KnobId::Period, KnobId::Chance, KnobId::OffspringSize, KnobId::RootMin, KnobId::Dispersal, KnobId::CrowdMax]),
            axis: Axis::Element,
        }
    } else {
        Page {
            title: "behavior (S3.4)",
            knobs: knobs_of(&[KnobId::FleeThreshold, KnobId::SenseRadius, KnobId::TurnRate]),
            axis: Axis::Race,
        }
    }
}

/// All pages of the table.
pub fn pages() -> (v: Vec<Page>)
    ensures
        v@.len() == 5,
        forall|i: int| 0 <= i < 5 ==> (#[trigger] v@[i]).is_page(i),
{
    vec![page(0), page(1), page(2), page(3), page(4)]
}

/// On a page that is shared by kinds, the kind makes no difference.
pub proof fn law_element_pages_ignore_the_kind(p: int, k: int, t: TuningV, e: Element, v: i64)
    requires
        0 <= p < 5,
        page_axis(p) == Axis::Element,
        0 <= k < page_ids(p).len(),
    ensures
        ({
            let id = page_ids(p)[k];
            let (plant, animal) = (
                Race { element: e, kind: Kind::Plant },
                Race { element: e, kind: Kind::Animal },
            );
            &&& reading(id, t, plant) == reading(id, t, animal)
            &&& written(id, t, plant, v) == written(id, t, animal, v)
        }),
{
}

/// A table has its shape.
pub open spec fn is_table(t: TuningV) -> bool {
    &&& t.races.len() == 10
    &&& t.restock.len() == 10
    &&& t.diffuse_rate.len() == 5
    &&& t.diffuse_cap.len() == 5
    &&& t.base_range.len() == 5
    &&& t.floor.len() == 5
    &&& t.season_peak.len() == 5
    &&& t.forage_radius.len() == 5
    &&& t.satiation.len() == 5
    &&& t.feed_gain.len() == 5
    &&& t.starve_after.len() == 5
    &&& t.starve_rate.len() == 5
    &&& t.repro_threshold.len() == 5
    &&& t.attrition_rate.len() == 5
    &&& t.suppression_rate.len() == 5
    &&& t.period.len() == 5
    &&& t.chance.len() == 5
    &&& t.offspring_size.len() == 5
    &&& t.root_min.len() == 5
    &&& t.dispersal.len() == 5
    &&& t.crowd_max.len() == 5
    &&& t.flee_threshold.len() == 10
    &&& t.sense_radius.len() == 10
    &&& t.turn_rate.len() == 10
}

proof fn lemma_cells_exact(v: int)
    requires
        0 <= v <= 4000,
    ensures
        in_cells(Fx::of_ratio(v, 100)) == v,
{
    let q = trunc_div(v * 65536, 100);
    assert(q == v * 65536 / 100);
    assert(0 <= q <= 2_621_440);
}

/// A knob that is set to a value of its range shows that value. Three are left
/// out: output units are kept below input units, a race without the recipe has
/// nothing to set, and the turn rate is shown rounded down.
pub proof fn law_a_knob_shows_what_it_was_set_to(id: KnobId, t: TuningV, r: Race, v: i64)
    requires
        is_table(t),
        row(id).2 <= v <= row(id).3,
        id != KnobId::TurnRate,
        id == KnobId::RatioIn || id == KnobId::RatioOut ==> action_for(
            t.races[r.at()].actions,
            ActionSlot::Exist,
        ) is Some,
        id == KnobId::MiningRate ==> action_for(
            t.races[r.at()].actions,
            ActionSlot::Mine,
        ) is Some,
        id == KnobId::RatioOut ==> v <= shown_ratio(t.races[r.at()].actions, true),
    ensures
        reading(id, written(id, t, r, v), r) == v,
{
    crate::race::law_race_positions(r, 0);
    if row(id).0 == Fmt::Cells {
        lemma_cells_exact(v as int);
    }
    let s = t.races[r.at()].actions;
    lemma_action_for(s, ActionSlot::Exist);
    lemma_action_for(s, ActionSlot::Mine);
    if id == KnobId::RatioIn {
        lemma_action_replaced(s, ActionSlot::Exist, with_ratio_in(s, v as u32));
    }
    if id == KnobId::RatioOut {
        lemma_action_replaced(s, ActionSlot::Exist, with_ratio_out(s, v as u32));
    }
    if id == KnobId::MiningRate {
        lemma_action_replaced(s, ActionSlot::Mine, with_rate(s, v as u16));
    }
}

/// A recipe that is replaced by one for the same slot is found again.
pub(crate) proof fn lemma_action_replaced(s: Seq<ActionRecipe>, slot: ActionSlot, u: Seq<ActionRecipe>)
    requires
        u.len() == s.len(),
        forall|i: int| 0 <= i < s.len() ==> (#[trigger] u[i]).slot == s[i].slot,
    ensures
        action_pos(u, slot) == action_pos(s, slot),
    decreases s.len(),
{
    if s.len() > 0 {
        assert(u[0].slot == s[0].slot);
        if s[0].slot != slot {
            let (p, q) = (s.skip(1), u.skip(1));
            assert forall|i: int| 0 <= i < p.len() implies (#[trigger] q[i]).slot == p[i].slot by {
                assert(q[i] == u[i + 1]);
                assert(p[i] == s[i + 1]);
            }
            lemma_action_replaced(p, slot, q);
        }
    }
}

/// No setting of a knob makes a recipe that creates mass.
pub proof fn law_tuning_keeps_recipes_valid(id: KnobId, t: TuningV, r: Race, v: i64)
    requires
        is_table(t),
        id == KnobId::RatioIn || id == KnobId::RatioOut ==> 1 <= v <= u32::MAX,
        forall|i: int| 0 <= i < 10 ==> (#[trigger] t.races[i]).actions_valid(),
    ensures
        forall|i: int|
            0 <= i < 10 ==> (#[trigger] written(id, t, r, v).races[i]).actions_valid(),
{
    crate::race::law_race_positions(r, 0);
    let s = t.races[r.at()].actions;
    let u = written(id, t, r, v);
    lemma_action_for(s, ActionSlot::Exist);
    lemma_action_for(s, ActionSlot::Mine);
    assert(t.races[r.at()].actions_valid());
    assert forall|i: int| 0 <= i < 10 implies (#[trigger] u.races[i]).actions_valid() by {
        assert(t.races[i].actions_valid());
        let x = u.races[i].actions;
        assert forall|k: int| 0 <= k < x.len() implies (#[trigger] x[k]).is_valid() by {
            assert(t.races[i].actions[k].is_valid());
        }
    }
}

} // verus!
