//! Races and their attributes.
//!
//! Every race is an element and a kind, and is tuned through a small set of
//! shared attributes: how long a body lives, how fast it moves, and what it
//! does through its `actions` table. A race touches material (terrain,
//! carried stock, items, ground piles, its own body) only through
//! [`ActionRecipe`] rows: fired by a command, or, for `Exist`, once per
//! terrain tick. A race without a recipe for a slot does nothing there.
use crate::element::{element_at, Element};
use crate::fx::Fx;
use crate::hash::{fnv, le16, le32, le64, Hashable, Hasher};
use std::ops::{Index, IndexMut};
use vstd::prelude::*;

verus! {

/// Rooted or mobile.
#[derive(Clone, Copy, PartialEq, Eq, Debug, Hash, Structural)]
pub enum Kind {
    Plant,
    Animal,
}

impl Kind {
    pub const COUNT: usize = 2;

    pub open spec fn at(self) -> int {
        match self {
            Kind::Plant => 0,
            Kind::Animal => 1,
        }
    }

    pub fn index(self) -> (r: usize)
        ensures
            r == self.at(),
    {
        match self {
            Kind::Plant => 0,
            Kind::Animal => 1,
        }
    }

    pub open spec fn spec_name(self) -> Seq<char> {
        match self {
            Kind::Plant => "Plant"@,
            Kind::Animal => "Animal"@,
        }
    }

    pub fn name(self) -> (r: &'static str)
        ensures
            r@ == self.spec_name(),
    {
        match self {
            Kind::Plant => "Plant",
            Kind::Animal => "Animal",
        }
    }
}

/// What a body is born as. Predation, suppression and attrition read only the
/// element; attribute lookups read the pair.
#[derive(Clone, Copy, PartialEq, Eq, Debug, Structural)]
pub struct Race {
    pub element: Element,
    pub kind: Kind,
}

/// The race at position `i` of the fixed order: ring order, plant before animal.
pub open spec fn race_at(i: int) -> Race {
    Race {
        element: element_at(i / 2),
        kind: if i % 2 == 0 {
            Kind::Plant
        } else {
            Kind::Animal
        },
    }
}

impl Race {
    pub const COUNT: usize = 10;

    pub open spec fn at(self) -> int {
        self.element.at() * 2 + self.kind.at()
    }

    /// Every race, in the fixed order.
    pub fn all() -> (r: [Race; 10])
        ensures
            forall|i: int| 0 <= i < 10 ==> #[trigger] r@[i] == race_at(i),
    {
        let r: [Race; 10] = [
            Race { element: Element::Wood, kind: Kind::Plant },
            Race { element: Element::Wood, kind: Kind::Animal },
            Race { element: Element::Fire, kind: Kind::Plant },
            Race { element: Element::Fire, kind: Kind::Animal },
            Race { element: Element::Earth, kind: Kind::Plant },
            Race { element: Element::Earth, kind: Kind::Animal },
            Race { element: Element::Metal, kind: Kind::Plant },
            Race { element: Element::Metal, kind: Kind::Animal },
            Race { element: Element::Water, kind: Kind::Plant },
            Race { element: Element::Water, kind: Kind::Animal },
        ];
        r
    }

    pub fn index(self) -> (r: usize)
        ensures
            r == self.at(),
            r < 10,
    {
        self.element.index() * 2 + self.kind.index()
    }

    pub fn from_index(i: usize) -> (r: Race)
        requires
            i < 10,
        ensures
            r == race_at(i as int),
            r.at() == i,
    {
        let kind: Kind = if i % 2 == 0 {
            Kind::Plant
        } else {
            Kind::Animal
        };
        Race { element: Element::from_index(i / 2), kind }
    }
}

/// Positions name races one for one.
pub proof fn law_race_positions(r: Race, i: int)
    ensures
        0 <= r.at() < 10,
        race_at(r.at()) == r,
        0 <= i < 10 ==> race_at(i).at() == i,
{
}

/// A value per race, in the fixed order.
#[derive(Clone, Copy, PartialEq, Eq, Debug, Default)]
pub struct PerRace<T>(pub [T; 10]);

impl<T> View for PerRace<T> {
    type V = Seq<T>;

    open spec fn view(&self) -> Seq<T> {
        self.0@
    }
}

impl<T> PerRace<T> {
    pub fn get(&self, r: Race) -> (v: &T)
        ensures
            *v == self@[r.at()],
    {
        &self.0[r.index()]
    }

    pub fn get_mut(&mut self, r: Race) -> (v: &mut T)
        ensures
            *v == old(self)@[r.at()],
            final(self)@ == old(self)@.update(r.at(), *final(v)),
    {
        &mut self.0[r.index()]
    }

    pub fn set(&mut self, r: Race, v: T)
        ensures
            final(self)@ == old(self)@.update(r.at(), v),
    {
        self.0[r.index()] = v;
    }
}

impl<T> PerRace<T> {
    /// The values with their races, in the fixed order.
    pub fn iter(&self) -> (r: Vec<(Race, &T)>)
        ensures
            r@.len() == 10,
            forall|i: int|
                0 <= i < 10 ==> (#[trigger] r@[i]).0 == race_at(i) && *r@[i].1 == self@[i],
    {
        let mut v: Vec<(Race, &T)> = Vec::new();
        let mut i: usize = 0;
        while i < 10
            invariant
                i <= 10,
                v@.len() == i,
                forall|k: int|
                    0 <= k < i ==> (#[trigger] v@[k]).0 == race_at(k) && *v@[k].1 == self@[k],
            decreases 10 - i,
        {
            v.push((Race::from_index(i), &self.0[i]));
            i = i + 1;
        }
        v
    }
}

impl<T: Copy> PerRace<T> {
    pub fn filled(v: T) -> (r: PerRace<T>)
        ensures
            r@ == Seq::new(10, |i: int| v),
    {
        PerRace([v; 10])
    }
}

impl<T> Index<Race> for PerRace<T> {
    type Output = T;

    fn index(&self, r: Race) -> (v: &T)
        ensures
            *v == self@[r.at()],
    {
        &self.0[r.index()]
    }
}

impl<T> vstd::std_specs::core::IndexSpecImpl<Race> for PerRace<T> {
    open spec fn index_req(&self, r: &Race) -> bool {
        true
    }
}

impl<T> IndexMut<Race> for PerRace<T> {
    fn index_mut(&mut self, r: Race) -> (v: &mut T)
        ensures
            *v == old(self)@[r.at()],
            final(self)@ == old(self)@.update(r.at(), *final(v)),
    {
        &mut self.0[r.index()]
    }
}

/// A tick is 0.6 seconds, so a minute is 100 ticks.
pub const TICKS_PER_MINUTE: u64 = 100;

pub const TICKS_PER_HOUR: u64 = 6_000;

pub const TICKS_PER_DAY: u64 = 144_000;

/// One terrain tick per 100 ticks: one simulated minute.
pub const TERRAIN_PERIOD: u64 = 100;

/// A bounded rate per terrain tick, enforced by a
/// [`Governor`](crate::governor::Governor).
#[derive(Clone, Copy, PartialEq, Eq, Debug, Structural)]
pub struct RateBand {
    /// The part of the banked bucket that one terrain tick never spends.
    pub floor: u32,
    /// The long-run average under sustained demand: what accrues per tick.
    pub nominal: u32,
    /// Never exceeded in a single terrain tick.
    pub ceiling: u32,
    /// How many terrain ticks of `nominal` may be banked.
    pub burst_ticks: u32,
}

impl RateBand {
    pub fn new(floor: u32, nominal: u32, ceiling: u32, burst_ticks: u32) -> (r: RateBand)
        ensures
            r == (RateBand { floor, nominal, ceiling, burst_ticks }),
    {
        RateBand { floor, nominal, ceiling, burst_ticks }
    }

    pub open spec fn spec_burst_cap(self) -> int {
        self.nominal * self.burst_ticks
    }

    pub fn burst_cap(&self) -> (r: u64)
        ensures
            r == self.spec_burst_cap(),
    {
        assert(0 <= self.nominal * self.burst_ticks <= 0xffff_ffff * 0xffff_ffff) by (nonlinear_arith)
            requires
                0 <= self.nominal <= 0xffff_ffff,
                0 <= self.burst_ticks <= 0xffff_ffff,
        ;
        self.nominal as u64 * self.burst_ticks as u64
    }

    pub open spec fn spec_is_valid(&self) -> bool {
        self.floor <= self.nominal <= self.ceiling
    }

    #[verifier::when_used_as_spec(spec_is_valid)]
    pub fn is_valid(&self) -> (r: bool)
        ensures
            r == self.spec_is_valid(),
    {
        self.floor <= self.nominal && self.nominal <= self.ceiling
    }

    /// Move one edge of the band and drag the others along as needed, so that
    /// `floor <= nominal <= ceiling` survives any single edit.
    pub fn set_edge(&mut self, edge: Edge, v: u32)
        ensures
            *final(self) == old(self).with_edge(edge, v),
    {
        match edge {
            Edge::Floor => {
                self.floor = v;
                if self.nominal < self.floor {
                    self.nominal = self.floor;
                }
                if self.ceiling < self.nominal {
                    self.ceiling = self.nominal;
                }
            },
            Edge::Nominal => {
                self.nominal = v;
                if self.floor > self.nominal {
                    self.floor = self.nominal;
                }
                if self.ceiling < self.nominal {
                    self.ceiling = self.nominal;
                }
            },
            Edge::Ceiling => {
                self.ceiling = v;
                if self.nominal > self.ceiling {
                    self.nominal = self.ceiling;
                }
                if self.floor > self.nominal {
                    self.floor = self.nominal;
                }
            },
        }
    }

    pub open spec fn with_edge(self, edge: Edge, v: u32) -> RateBand {
        match edge {
            Edge::Floor => {
                let nominal = if self.nominal < v {
                    v
                } else {
                    self.nominal
                };
                RateBand {
                    floor: v,
                    nominal,
                    ceiling: if self.ceiling < nominal {
                        nominal
                    } else {
                        self.ceiling
                    },
                    burst_ticks: self.burst_ticks,
                }
            },
            Edge::Nominal => RateBand {
                floor: if self.floor > v {
                    v
                } else {
                    self.floor
                },
                nominal: v,
                ceiling: if self.ceiling < v {
                    v
                } else {
                    self.ceiling
                },
                burst_ticks: self.burst_ticks,
            },
            Edge::Ceiling => {
                let nominal = if self.nominal > v {
                    v
                } else {
                    self.nominal
                };
                RateBand {
                    floor: if self.floor > nominal {
                        nominal
                    } else {
                        self.floor
                    },
                    nominal,
                    ceiling: v,
                    burst_ticks: self.burst_ticks,
                }
            },
        }
    }
}

/// A valid band stays valid under any single edit, the edited edge takes the
/// value it was given, and an edge that already agrees is left alone.
pub proof fn law_set_edge_keeps_band_valid(b: RateBand, edge: Edge, v: u32)
    requires
        b.is_valid(),
    ensures
        b.with_edge(edge, v).is_valid(),
        edge == Edge::Floor ==> b.with_edge(edge, v).floor == v,
        edge == Edge::Nominal ==> b.with_edge(edge, v).nominal == v,
        edge == Edge::Ceiling ==> b.with_edge(edge, v).ceiling == v,
        b.with_edge(edge, v).burst_ticks == b.burst_ticks,
        edge == Edge::Floor && v <= b.nominal ==> b.with_edge(edge, v) == (RateBand { floor: v, ..b }),
        edge == Edge::Nominal && b.floor <= v <= b.ceiling ==> b.with_edge(edge, v) == (RateBand {
            nominal: v,
            ..b
        }),
        edge == Edge::Ceiling && b.nominal <= v ==> b.with_edge(edge, v) == (RateBand { ceiling: v, ..b }),
{
}

/// Which edge of a [`RateBand`] an edit moves.
#[derive(Clone, Copy, PartialEq, Eq, Debug, Structural)]
pub enum Edge {
    Floor,
    Nominal,
    Ceiling,
}

/// Which pool of material a recipe reads from or writes to. The element is
/// given when the recipe fires.
#[derive(Clone, Copy, PartialEq, Eq, Debug, Structural)]
pub enum RecipeSlot {
    /// The terrain cell the body stands on.
    Terrain,
    /// The body's loose carried stock.
    Carried,
    /// The body's bundled items of the element.
    Item,
    /// Piles on the ground within the recipe's reach.
    Ground,
    /// The body's own material.
    Body,
}

impl RecipeSlot {
    pub open spec fn code(self) -> u8 {
        match self {
            RecipeSlot::Terrain => 0,
            RecipeSlot::Carried => 1,
            RecipeSlot::Item => 2,
            RecipeSlot::Ground => 3,
            RecipeSlot::Body => 4,
        }
    }

    fn to_code(self) -> (r: u8)
        ensures
            r == self.code(),
    {
        match self {
            RecipeSlot::Terrain => 0,
            RecipeSlot::Carried => 1,
            RecipeSlot::Item => 2,
            RecipeSlot::Ground => 3,
            RecipeSlot::Body => 4,
        }
    }
}

/// How a recipe's output element relates to its input element.
#[derive(Clone, Copy, PartialEq, Eq, Debug, Structural)]
pub enum ElementTransform {
    /// The same element.
    Identity,
    /// The element that the input generates.
    Generates,
}

impl ElementTransform {
    pub open spec fn code(self) -> u8 {
        match self {
            ElementTransform::Identity => 0,
            ElementTransform::Generates => 1,
        }
    }

    fn to_code(self) -> (r: u8)
        ensures
            r == self.code(),
    {
        match self {
            ElementTransform::Identity => 0,
            ElementTransform::Generates => 1,
        }
    }

    pub open spec fn spec_apply(self, e: Element) -> Element {
        match self {
            ElementTransform::Identity => e,
            ElementTransform::Generates => e.spec_generates(),
        }
    }

    pub fn apply(self, e: Element) -> (r: Element)
        ensures
            r == self.spec_apply(e),
    {
        match self {
            ElementTransform::Identity => e,
            ElementTransform::Generates => e.generates(),
        }
    }
}

/// A cap, per firing, on how many input units a recipe may draw.
#[derive(Clone, Copy, PartialEq, Eq, Debug, Structural)]
pub enum RateLaw {
    /// The same whatever surrounds the body.
    Flat(u16),
    /// `base + per_neighbor * (crowd - 1) + per_size * size / 1000`, where
    /// `crowd` counts bodies of the race in the cell.
    NeighborScaled { base: u16, per_neighbor: u16, per_size: u16 },
}

impl RateLaw {
    /// How many units one firing asks for.
    pub open spec fn spec_requested(self, neighbors: int, size: int) -> int {
        match self {
            RateLaw::Flat(n) => n as int,
            RateLaw::NeighborScaled { base, per_neighbor, per_size } => base + per_neighbor * (
            if neighbors > 0 {
                neighbors - 1
            } else {
                0
            }) + (per_size * size) / 1000,
        }
    }

    pub fn requested(self, neighbors: u32, size: u16) -> (r: u64)
        ensures
            r == self.spec_requested(neighbors as int, size as int),
    {
        match self {
            RateLaw::Flat(n) => n as u64,
            RateLaw::NeighborScaled { base, per_neighbor, per_size } => {
                let others: u32 = if neighbors > 0 {
                    neighbors - 1
                } else {
                    0
                };
                assert(0 <= per_neighbor * others <= 0xffff * 0xffff_ffff) by (nonlinear_arith)
                    requires
                        0 <= per_neighbor <= 0xffff,
                        0 <= others <= 0xffff_ffff,
                ;
                assert(0 <= per_size * size <= 0xffff * 0xffff) by (nonlinear_arith)
                    requires
                        0 <= per_size <= 0xffff,
                        0 <= size <= 0xffff,
                ;
                base as u64 + per_neighbor as u64 * others as u64 + (per_size as u64 * size as u64)
                    / 1000
            },
        }
    }
}

/// Which action a recipe answers to.
#[derive(Clone, Copy, PartialEq, Eq, Debug, Hash, Structural)]
pub enum ActionSlot {
    /// Fired once per terrain tick for every living body of the race.
    Exist,
    Mine,
    Smelt,
    Pickup,
    /// Wear of an item back into terrain.
    WearRoll,
}

impl ActionSlot {
    pub const COUNT: usize = 5;

    pub open spec fn at(self) -> int {
        match self {
            ActionSlot::Exist => 0,
            ActionSlot::Mine => 1,
            ActionSlot::Smelt => 2,
            ActionSlot::Pickup => 3,
            ActionSlot::WearRoll => 4,
        }
    }

    pub fn index(self) -> (r: usize)
        ensures
            r == self.at(),
            r < 5,
    {
        match self {
            ActionSlot::Exist => 0,
            ActionSlot::Mine => 1,
            ActionSlot::Smelt => 2,
            ActionSlot::Pickup => 3,
            ActionSlot::WearRoll => 4,
        }
    }
}

/// One hop of material that a race can perform.
#[derive(Clone, Copy, PartialEq, Eq, Debug, Structural)]
pub struct ActionRecipe {
    pub slot: ActionSlot,
    pub input: RecipeSlot,
    pub output: RecipeSlot,
    pub transform: ElementTransform,
    /// Input units consumed per whole batch.
    pub ratio_in: u32,
    /// Output units produced per whole batch, never more than `ratio_in`.
    pub ratio_out: u32,
    pub rate: RateLaw,
    /// Ticks after a firing before the same body may fire this recipe again.
    pub cooldown_ticks: u16,
    /// Reach of a recipe that draws from the ground.
    pub reach: Fx,
}

impl ActionRecipe {
    pub open spec fn spec_is_valid(&self) -> bool {
        self.ratio_in > 0 && self.ratio_out > 0 && self.ratio_out <= self.ratio_in
    }

    #[verifier::when_used_as_spec(spec_is_valid)]
    pub fn is_valid(&self) -> (r: bool)
        ensures
            r == self.spec_is_valid(),
    {
        self.ratio_in > 0 && self.ratio_out > 0 && self.ratio_out <= self.ratio_in
    }
}

pub open spec fn rate_digest(h: u64, rate: RateLaw) -> u64 {
    match rate {
        RateLaw::Flat(n) => fnv(fnv(h, seq![0u8]), le16(n)),
        RateLaw::NeighborScaled { base, per_neighbor, per_size } => {
            let h = fnv(h, seq![1u8]);
            let h = fnv(h, le16(base));
            let h = fnv(h, le16(per_neighbor));
            fnv(h, le16(per_size))
        },
    }
}

impl Hashable for ActionRecipe {
    open spec fn digest(&self, h: u64) -> u64 {
        let h = fnv(h, seq![self.slot.at() as u8]);
        let h = fnv(h, seq![self.input.code()]);
        let h = fnv(h, seq![self.output.code()]);
        let h = fnv(h, seq![self.transform.code()]);
        let h = fnv(h, le32(self.ratio_in));
        let h = fnv(h, le32(self.ratio_out));
        let h = rate_digest(h, self.rate);
        let h = fnv(h, le16(self.cooldown_ticks));
        fnv(h, le32(self.reach.0 as u32))
    }

    fn hash_into(&self, h: &mut Hasher) {
        h.u8(self.slot.index() as u8).u8(self.input.to_code()).u8(self.output.to_code()).u8(
            self.transform.to_code(),
        ).u32(self.ratio_in).u32(self.ratio_out);
        match self.rate {
            RateLaw::Flat(n) => {
                h.u8(0).u16(n);
            },
            RateLaw::NeighborScaled { base, per_neighbor, per_size } => {
                h.u8(1).u16(base).u16(per_neighbor).u16(per_size);
            },
        }
        h.u16(self.cooldown_ticks).i32(self.reach.raw());
    }
}

/// The attributes of one race.
#[derive(Clone, PartialEq, Debug)]
pub struct RaceAttrs {
    pub element: Element,
    pub kind: Kind,
    /// Natural lifespan in ticks, before variance.
    pub lifespan: u64,
    /// Per-mille variance of the lifespan, per individual.
    pub lifespan_variance: u16,
    /// Cells travelled per tick.
    pub speed: Fx,
    /// Collision radius in cells.
    pub radius: Fx,
    /// The race's recipes.
    pub actions: Vec<ActionRecipe>,
    /// One line on what the numbers are for.
    pub fantasy: &'static str,
}

/// The value of a [`RaceAttrs`].
#[verifier::ext_equal]
pub struct RaceAttrsV {
    pub element: Element,
    pub kind: Kind,
    pub lifespan: u64,
    pub lifespan_variance: u16,
    pub speed: Fx,
    pub radius: Fx,
    pub actions: Seq<ActionRecipe>,
    pub fantasy: Seq<char>,
}

impl View for RaceAttrs {
    type V = RaceAttrsV;

    open spec fn view(&self) -> RaceAttrsV {
        RaceAttrsV {
            element: self.element,
            kind: self.kind,
            lifespan: self.lifespan,
            lifespan_variance: self.lifespan_variance,
            speed: self.speed,
            radius: self.radius,
            actions: self.actions@,
            fantasy: self.fantasy@,
        }
    }
}

/// Position of the first recipe for `slot`, or the length if there is none.
pub open spec fn action_pos(s: Seq<ActionRecipe>, slot: ActionSlot) -> nat
    decreases s.len(),
{
    if s.len() == 0 {
        0
    } else if s[0].slot == slot {
        0
    } else {
        1 + action_pos(s.skip(1), slot)
    }
}

/// The first recipe for `slot`, if there is one.
pub open spec fn action_for(s: Seq<ActionRecipe>, slot: ActionSlot) -> Option<ActionRecipe> {
    if action_pos(s, slot) < s.len() {
        Some(s[action_pos(s, slot) as int])
    } else {
        None
    }
}

proof fn lemma_action_pos(s: Seq<ActionRecipe>, slot: ActionSlot, i: int)
    requires
        0 <= i <= s.len(),
        forall|j: int| 0 <= j < i ==> (#[trigger] s[j]).slot != slot,
        i < s.len() ==> s[i].slot == slot,
    ensures
        action_pos(s, slot) == i,
    decreases s.len(),
{
    if s.len() > 0 && i > 0 {
        assert(s[0].slot != slot);
        let t = s.skip(1);
        assert forall|j: int| 0 <= j < i - 1 implies (#[trigger] t[j]).slot != slot by {
            assert(t[j] == s[j + 1]);
        }
        lemma_action_pos(t, slot, i - 1);
    }
}

/// The recipe found for a slot is a row of the table and answers to that slot.
pub proof fn lemma_action_for(s: Seq<ActionRecipe>, slot: ActionSlot)
    ensures
        action_pos(s, slot) <= s.len(),
        action_pos(s, slot) < s.len() ==> s[action_pos(s, slot) as int].slot == slot,
        action_pos(s, slot) == s.len() <==> forall|j: int|
            0 <= j < s.len() ==> (#[trigger] s[j]).slot != slot,
    decreases s.len(),
{
    if s.len() > 0 && s[0].slot != slot {
        let t = s.skip(1);
        lemma_action_for(t, slot);
        assert(forall|j: int| 0 <= j < t.len() ==> #[trigger] t[j] == s[j + 1]);
        if action_pos(t, slot) == t.len() {
            assert forall|j: int| 0 <= j < s.len() implies (#[trigger] s[j]).slot != slot by {
                if j > 0 {
                    assert(t[j - 1] == s[j]);
                }
            }
        }
    } else if s.len() > 0 {
        assert(s[0].slot == slot);
    }
}

impl RaceAttrsV {
    pub open spec fn is_valid(self) -> bool {
        &&& self.lifespan > 0
        &&& self.actions_valid()
        &&& self.body_is_valid()
    }

    pub open spec fn actions_valid(self) -> bool {
        forall|i: int| 0 <= i < self.actions.len() ==> (#[trigger] self.actions[i]).is_valid()
    }

    pub open spec fn body_is_valid(self) -> bool {
        &&& self.kind == Kind::Animal ==> self.speed.0 > 0
        &&& self.kind == Kind::Plant ==> self.speed.0 == 0
        &&& self.radius.0 > 0
        &&& self.kind == Kind::Plant ==> action_for(self.actions, ActionSlot::Mine) is None
        &&& self.kind == Kind::Plant ==> action_for(self.actions, ActionSlot::Smelt) is None
    }
}

impl RaceAttrs {
    /// One meal per this many ticks.
    pub const FEED_PERIOD: u64 = 200;

    pub fn is_valid(&self) -> (r: bool)
        ensures
            r == self@.is_valid(),
    {
        let mut i: usize = 0;
        while i < self.actions.len()
            invariant
                i <= self.actions.len(),
                forall|j: int| 0 <= j < i ==> (#[trigger] self.actions@[j]).is_valid(),
            decreases self.actions.len() - i,
        {
            if !self.actions[i].is_valid() {
                assert(!self@.actions[i as int].is_valid());
                return false;
            }
            i = i + 1;
        }
        self.lifespan > 0 && self.body_is_valid()
    }

    /// An animal must move and a plant must not; both must crowd; and a plant
    /// never mines or smelts.
    fn body_is_valid(&self) -> (r: bool)
        ensures
            r == self@.body_is_valid(),
    {
        let speed_ok: bool = match self.kind {
            Kind::Animal => self.speed.0 > 0,
            Kind::Plant => self.speed.0 == 0,
        };
        let mining_ok: bool = self.kind == Kind::Animal || self.action_index(
            ActionSlot::Mine,
        ).is_none();
        let smelt_ok: bool = self.kind == Kind::Animal || self.action_index(
            ActionSlot::Smelt,
        ).is_none();
        speed_ok && self.radius.0 > 0 && mining_ok && smelt_ok
    }

    fn action_index(&self, slot: ActionSlot) -> (r: Option<usize>)
        ensures
            match r {
                Some(i) => i == action_pos(self.actions@, slot) && i < self.actions@.len(),
                None => action_pos(self.actions@, slot) == self.actions@.len(),
            },
    {
        let mut i: usize = 0;
        while i < self.actions.len()
            invariant
                i <= self.actions.len(),
                forall|j: int| 0 <= j < i ==> (#[trigger] self.actions@[j]).slot != slot,
            decreases self.actions.len() - i,
        {
            if self.actions[i].slot == slot {
                proof {
                    lemma_action_pos(self.actions@, slot, i as int);
                }
                return Some(i);
            }
            i = i + 1;
        }
        proof {
            lemma_action_pos(self.actions@, slot, i as int);
        }
        None
    }

    /// The first recipe this race has for `slot`, or `None` if it has none.
    pub fn action(&self, slot: ActionSlot) -> (r: Option<&ActionRecipe>)
        ensures
            match r {
                Some(a) => action_for(self.actions@, slot) == Some(*a),
                None => action_for(self.actions@, slot) is None,
            },
    {
        match self.action_index(slot) {
            Some(i) => Some(&self.actions[i]),
            None => None,
        }
    }

    /// The mutable counterpart of [`RaceAttrs::action`].
    pub fn action_mut(&mut self, slot: ActionSlot) -> (r: Option<&mut ActionRecipe>)
        ensures
            match r {
                Some(a) => {
                    &&& action_for(old(self).actions@, slot) == Some(*a)
                    &&& final(self)@ == (RaceAttrsV {
                        actions: old(self).actions@.update(
                            action_pos(old(self).actions@, slot) as int,
                            *final(a),
                        ),
                        ..old(self)@
                    })
                },
                None => {
                    &&& action_for(old(self).actions@, slot) is None
                    &&& final(self)@ == old(self)@
                },
            },
    {
        match self.action_index(slot) {
            Some(i) => Some(&mut self.actions[i]),
            None => None,
        }
    }

    /// An owned copy.
    pub fn copy(&self) -> (r: RaceAttrs)
        ensures
            r@ == self@,
    {
        let mut actions: Vec<ActionRecipe> = Vec::new();
        let mut i: usize = 0;
        while i < self.actions.len()
            invariant
                i <= self.actions.len(),
                actions@ == self.actions@.take(i as int),
            decreases self.actions.len() - i,
        {
            actions.push(self.actions[i]);
            assert(self.actions@.take(i + 1) =~= self.actions@.take(i as int).push(
                self.actions@[i as int],
            ));
            i = i + 1;
        }
        assert(self.actions@.take(i as int) =~= self.actions@);
        RaceAttrs {
            element: self.element,
            kind: self.kind,
            lifespan: self.lifespan,
            lifespan_variance: self.lifespan_variance,
            speed: self.speed,
            radius: self.radius,
            actions,
            fantasy: self.fantasy,
        }
    }
}

/// Lifespan, variance, speed, radius and fantasy of a shipped row.
pub open spec fn shipped_body(r: Race) -> (u64, u16, Fx, Fx, Seq<char>) {
    match (r.element, r.kind) {
        (Element::Wood, Kind::Plant) => (
            45000,
            180,
            Fx(0),
            Fx::of_ratio(60, 100),
            "Grows where it stands and draws through its roots — the map remembers a thicket long after any single stem is gone."@,
        ),
        (Element::Wood, Kind::Animal) => (
            15000,
            180,
            Fx::of_ratio(9, 100),
            Fx::of_ratio(60, 100),
            "Ranges the thicket for a meal — what it takes in shapes the ground it leaves behind, no roots required to leave a mark."@,
        ),
        (Element::Fire, Kind::Plant) => (
            2400,
            300,
            Fx(0),
            Fx::of_ratio(40, 100),
            "Ember-moss, smouldering low and constant — it never dies spectacularly, it just keeps glowing where it took root."@,
        ),
        (Element::Fire, Kind::Animal) => (
            800,
            300,
            Fx::of_ratio(46, 100),
            Fx::of_ratio(40, 100),
            "Born from a lightning strike, burns hot, dies fast, and the ground remembers."@,
        ),
        (Element::Earth, Kind::Plant) => (
            6048000,
            120,
            Fx(0),
            Fx::of_ratio(150, 100),
            "Older than the animal that shares its name — patience that outlasts even Earth's own long-lived fauna, terraforming by simply persisting the longest."@,
        ),
        (Element::Earth, Kind::Animal) => (
            2016000,
            120,
            Fx::of_ratio(4, 100),
            Fx::of_ratio(150, 100),
            "Ancient. Lives for a fortnight and terraforms by refusing to move."@,
        ),
        (Element::Metal, Kind::Plant) => (
            216000,
            90,
            Fx(0),
            Fx::of_ratio(55, 100),
            "An ore-vein growth, embedded and slow — it forges nothing, it just sits in the seam and the seam changes around it."@,
        ),
        (Element::Metal, Kind::Animal) => (
            72000,
            90,
            Fx::of_ratio(21, 100),
            Fx::of_ratio(55, 100),
            "Precise and scheduled. Writes to the world only at the moment of forging."@,
        ),
        (Element::Water, Kind::Plant) => (
            10500,
            220,
            Fx(0),
            Fx::of_ratio(50, 100),
            "A reed-bed, rooted in the shallows — where the animal current tears through, this just sits and slowly silts the bank."@,
        ),
        (Element::Water, Kind::Animal) => (
            3500,
            220,
            Fx::of_ratio(33, 100),
            Fx::of_ratio(50, 100),
            "Rhythmic and tidal. Terraforms by flowing, and stops when it stops."@,
        ),
    }
}

/// Ratio in, ratio out and rate of a shipped `Exist` recipe.
pub open spec fn exist_ratio(e: Element) -> (u32, u32, u16) {
    match e {
        Element::Wood => (1, 1, 900),
        Element::Fire => (1000, 477, 1100),
        Element::Earth => (1, 1, 850),
        Element::Metal => (50, 1, 950),
        Element::Water => (1000, 742, 1000),
    }
}

pub open spec fn exist_recipe(e: Element) -> ActionRecipe {
    ActionRecipe {
        slot: ActionSlot::Exist,
        input: RecipeSlot::Terrain,
        output: RecipeSlot::Body,
        transform: ElementTransform::Generates,
        ratio_in: exist_ratio(e).0,
        ratio_out: exist_ratio(e).1,
        rate: RateLaw::Flat(exist_ratio(e).2),
        cooldown_ticks: 0,
        reach: Fx(0),
    }
}

pub open spec fn mine_recipe() -> ActionRecipe {
    ActionRecipe {
        slot: ActionSlot::Mine,
        input: RecipeSlot::Terrain,
        output: RecipeSlot::Carried,
        transform: ElementTransform::Identity,
        ratio_in: 1,
        ratio_out: 1,
        rate: RateLaw::Flat(40),
        cooldown_ticks: 0,
        reach: Fx(0),
    }
}

pub open spec fn smelt_recipe() -> ActionRecipe {
    ActionRecipe {
        slot: ActionSlot::Smelt,
        input: RecipeSlot::Carried,
        output: RecipeSlot::Carried,
        transform: ElementTransform::Generates,
        ratio_in: 50,
        ratio_out: 1,
        rate: RateLaw::Flat(65535),
        cooldown_ticks: 0,
        reach: Fx(0),
    }
}

/// The recipes a shipped row has: `Exist`, and for an animal `Mine` and `Smelt`.
pub open spec fn shipped_actions(r: Race) -> Seq<ActionRecipe> {
    match r.kind {
        Kind::Plant => seq![exist_recipe(r.element)],
        Kind::Animal => seq![exist_recipe(r.element), mine_recipe(), smelt_recipe()],
    }
}

/// The shipped row of a race.
pub open spec fn shipped(r: Race) -> RaceAttrsV {
    RaceAttrsV {
        element: r.element,
        kind: r.kind,
        lifespan: shipped_body(r).0,
        lifespan_variance: shipped_body(r).1,
        speed: shipped_body(r).2,
        radius: shipped_body(r).3,
        actions: shipped_actions(r),
        fantasy: shipped_body(r).4,
    }
}

/// The shipped table: every number is a knob, and every one is meant to be
/// moved. Its rows hold no recipes yet; [`seed_actions`] adds them.
fn base_row(r: Race) -> (a: RaceAttrs)
    ensures
        a@ == (RaceAttrsV { actions: Seq::empty(), ..shipped(r) }),
{
    match (r.element, r.kind) {
        // 7.5 hours
        (Element::Wood, Kind::Plant) => RaceAttrs {
            element: r.element,
            kind: r.kind,
            lifespan: 45000,
            lifespan_variance: 180,
            speed: Fx::zero(),
            radius: Fx::ratio(60, 100),
            actions: Vec::new(),
            fantasy: "Grows where it stands and draws through its roots — the map remembers a thicket long after any single stem is gone.",
        },
        // 2.5 hours
        (Element::Wood, Kind::Animal) => RaceAttrs {
            element: r.element,
            kind: r.kind,
            lifespan: 15000,
            lifespan_variance: 180,
            speed: Fx::ratio(9, 100),
            radius: Fx::ratio(60, 100),
            actions: Vec::new(),
            fantasy: "Ranges the thicket for a meal — what it takes in shapes the ground it leaves behind, no roots required to leave a mark.",
        },
        // 24 minutes
        (Element::Fire, Kind::Plant) => RaceAttrs {
            element: r.element,
            kind: r.kind,
            lifespan: 2400,
            lifespan_variance: 300,
            speed: Fx::zero(),
            radius: Fx::ratio(40, 100),
            actions: Vec::new(),
            fantasy: "Ember-moss, smouldering low and constant — it never dies spectacularly, it just keeps glowing where it took root.",
        },
        // 8 minutes
        (Element::Fire, Kind::Animal) => RaceAttrs {
            element: r.element,
            kind: r.kind,
            lifespan: 800,
            lifespan_variance: 300,
            speed: Fx::ratio(46, 100),
            radius: Fx::ratio(40, 100),
            actions: Vec::new(),
            fantasy: "Born from a lightning strike, burns hot, dies fast, and the ground remembers.",
        },
        // 42 days
        (Element::Earth, Kind::Plant) => RaceAttrs {
            element: r.element,
            kind: r.kind,
            lifespan: 6048000,
            lifespan_variance: 120,
            speed: Fx::zero(),
            radius: Fx::ratio(150, 100),
            actions: Vec::new(),
            fantasy: "Older than the animal that shares its name — patience that outlasts even Earth's own long-lived fauna, terraforming by simply persisting the longest.",
        },
        // a fortnight
        (Element::Earth, Kind::Animal) => RaceAttrs {
            element: r.element,
            kind: r.kind,
            lifespan: 2016000,
            lifespan_variance: 120,
            speed: Fx::ratio(4, 100),
            radius: Fx::ratio(150, 100),
            actions: Vec::new(),
            fantasy: "Ancient. Lives for a fortnight and terraforms by refusing to move.",
        },
        // 36 hours
        (Element::Metal, Kind::Plant) => RaceAttrs {
            element: r.element,
            kind: r.kind,
            lifespan: 216000,
            lifespan_variance: 90,
            speed: Fx::zero(),
            radius: Fx::ratio(55, 100),
            actions: Vec::new(),
            fantasy: "An ore-vein growth, embedded and slow — it forges nothing, it just sits in the seam and the seam changes around it.",
        },
        // 12 hours
        (Element::Metal, Kind::Animal) => RaceAttrs {
            element: r.element,
            kind: r.kind,
            lifespan: 72000,
            lifespan_variance: 90,
            speed: Fx::ratio(21, 100),
            radius: Fx::ratio(55, 100),
            actions: Vec::new(),
            fantasy: "Precise and scheduled. Writes to the world only at the moment of forging.",
        },
        // 105 minutes
        (Element::Water, Kind::Plant) => RaceAttrs {
            element: r.element,
            kind: r.kind,
            lifespan: 10500,
            lifespan_variance: 220,
            speed: Fx::zero(),
            radius: Fx::ratio(50, 100),
            actions: Vec::new(),
            fantasy: "A reed-bed, rooted in the shallows — where the animal current tears through, this just sits and slowly silts the bank.",
        },
        // 35 minutes
        (Element::Water, Kind::Animal) => RaceAttrs {
            element: r.element,
            kind: r.kind,
            lifespan: 3500,
            lifespan_variance: 220,
            speed: Fx::ratio(33, 100),
            radius: Fx::ratio(50, 100),
            actions: Vec::new(),
            fantasy: "Rhythmic and tidal. Terraforms by flowing, and stops when it stops.",
        },
    }
}

/// Append the shipped recipes of the row's race.
fn seed_actions(a: RaceAttrs) -> (r: RaceAttrs)
    ensures
        r@ == (RaceAttrsV {
            actions: a@.actions + shipped_actions(Race { element: a.element, kind: a.kind }),
            ..a@
        }),
{
    let mut a = a;
    let (ratio_in, ratio_out, nominal): (u32, u32, u16) = match a.element {
        Element::Wood => (1, 1, 900),
        Element::Fire => (1000, 477, 1100),
        Element::Earth => (1, 1, 850),
        Element::Metal => (50, 1, 950),
        Element::Water => (1000, 742, 1000),
    };
    a.actions.push(
        ActionRecipe {
            slot: ActionSlot::Exist,
            input: RecipeSlot::Terrain,
            output: RecipeSlot::Body,
            transform: ElementTransform::Generates,
            ratio_in,
            ratio_out,
            rate: RateLaw::Flat(nominal),
            cooldown_ticks: 0,
            reach: Fx::zero(),
        },
    );
    if a.kind == Kind::Animal {
        a.actions.push(
            ActionRecipe {
                slot: ActionSlot::Mine,
                input: RecipeSlot::Terrain,
                output: RecipeSlot::Carried,
                transform: ElementTransform::Identity,
                ratio_in: 1,
                ratio_out: 1,
                rate: RateLaw::Flat(40),
                cooldown_ticks: 0,
                reach: Fx::zero(),
            },
        );
        a.actions.push(
            ActionRecipe {
                slot: ActionSlot::Smelt,
                input: RecipeSlot::Carried,
                output: RecipeSlot::Carried,
                transform: ElementTransform::Generates,
                ratio_in: 50,
                ratio_out: 1,
                rate: RateLaw::Flat(65_535),
                cooldown_ticks: 0,
                reach: Fx::zero(),
            },
        );
    }
    a
}

/// The shipped row of `r`, with its recipes.
pub fn attrs(r: Race) -> (a: RaceAttrs)
    ensures
        a@ == shipped(r),
{
    seed_actions(base_row(r))
}

/// The whole shipped table, with every row's recipes.
pub fn seeded_races() -> (t: PerRace<RaceAttrs>)
    ensures
        forall|i: int| 0 <= i < 10 ==> (#[trigger] t@[i])@ == shipped(race_at(i)),
{
    PerRace(
        [
            attrs(Race::from_index(0)),
            attrs(Race::from_index(1)),
            attrs(Race::from_index(2)),
            attrs(Race::from_index(3)),
            attrs(Race::from_index(4)),
            attrs(Race::from_index(5)),
            attrs(Race::from_index(6)),
            attrs(Race::from_index(7)),
            attrs(Race::from_index(8)),
            attrs(Race::from_index(9)),
        ],
    )
}

/// Every shipped row is valid, and its `Exist` recipe turns the race's
/// habitat element back into its own.
pub proof fn law_shipped_rows_are_valid(r: Race)
    ensures
        shipped(r).is_valid(),
        action_for(shipped(r).actions, ActionSlot::Exist) == Some(exist_recipe(r.element)),
        exist_recipe(r.element).transform.spec_apply(r.element.habitat()) == r.element,
        action_for(shipped(r).actions, ActionSlot::Mine) is Some <==> r.kind == Kind::Animal,
        action_for(shipped(r).actions, ActionSlot::Smelt) is Some <==> r.kind == Kind::Animal,
{
    let s = shipped_actions(r);
    lemma_action_pos(s, ActionSlot::Exist, 0);
    match r.kind {
        Kind::Plant => {
            lemma_action_pos(s, ActionSlot::Mine, 1);
            lemma_action_pos(s, ActionSlot::Smelt, 1);
        },
        Kind::Animal => {
            lemma_action_pos(s, ActionSlot::Mine, 1);
            lemma_action_pos(s, ActionSlot::Smelt, 2);
        },
    }
    lemma_shipped_ratios();
}

/// The fixed-point values of the shipped table's ratios.
proof fn lemma_shipped_ratios()
    ensures
        forall|n: int| 0 < n <= 150 ==> (#[trigger] Fx::of_ratio(n, 100)).0 > 0,
{
    assert forall|n: int| 0 < n <= 150 implies (#[trigger] Fx::of_ratio(n, 100)).0 > 0 by {
        assert(n * 65536 / 100 > 0);
        assert(n * 65536 / 100 <= 98304);
    }
}

impl Hashable for RateBand {
    open spec fn digest(&self, h: u64) -> u64 {
        let h = fnv(h, le32(self.floor));
        let h = fnv(h, le32(self.nominal));
        let h = fnv(h, le32(self.ceiling));
        fnv(h, le32(self.burst_ticks))
    }

    fn hash_into(&self, h: &mut Hasher) {
        h.u32(self.floor).u32(self.nominal).u32(self.ceiling).u32(self.burst_ticks);
    }
}

/// The state after hashing the recipes in order.
pub open spec fn actions_digest(h: u64, s: Seq<ActionRecipe>) -> u64
    decreases s.len(),
{
    if s.len() == 0 {
        h
    } else {
        s.last().digest(actions_digest(h, s.drop_last()))
    }
}

pub open spec fn attrs_digest(h: u64, a: RaceAttrsV) -> u64 {
    let h = fnv(h, seq![a.element.at() as u8]);
    let h = fnv(h, seq![a.kind.at() as u8]);
    let h = fnv(h, le64(a.lifespan));
    let h = fnv(h, le16(a.lifespan_variance));
    let h = fnv(h, le32(a.speed.0 as u32));
    let h = fnv(h, le32(a.radius.0 as u32));
    let h = fnv(h, le32(a.actions.len() as u32));
    actions_digest(h, a.actions)
}

impl Hashable for RaceAttrs {
    open spec fn digest(&self, h: u64) -> u64 {
        attrs_digest(h, self@)
    }

    fn hash_into(&self, h: &mut Hasher) {
        h.u8(self.element.index() as u8).u8(self.kind.index() as u8).u64(self.lifespan).u16(
            self.lifespan_variance,
        ).i32(self.speed.raw()).i32(self.radius.raw());
        h.u32(#[verifier::truncate] (self.actions.len() as u32));
        let ghost mid = h.0;
        let mut i: usize = 0;
        while i < self.actions.len()
            invariant
                i <= self.actions.len(),
                h.0 == actions_digest(mid, self.actions@.take(i as int)),
            decreases self.actions.len() - i,
        {
            assert(self.actions@.take(i + 1).drop_last() =~= self.actions@.take(i as int));
            self.actions[i].hash_into(h);
            i = i + 1;
        }
        assert(self.actions@.take(i as int) =~= self.actions@);
    }
}

} // verus!
