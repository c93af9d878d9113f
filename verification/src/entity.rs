//! The simulated body.
use crate::element::{Element, PerElement};
use crate::fx::{trunc_div, Fx, V2};
use crate::hash::{digest_u64s, fnv, le16, le32, le64, le_bool, Hashable, Hasher};
use crate::race::{Kind, Race, RaceAttrs, RaceAttrsV};
use crate::rand::{draw_range, draw_signed, rand_range, rand_signed, Channel};
use vstd::prelude::*;

verus! {

/// Displacement below which a tick of movement does not count as an action.
pub fn action_threshold() -> (r: Fx)
    ensures
        r == spec_action_threshold(),
{
    Fx::ratio(1, 100)
}

pub open spec fn spec_action_threshold() -> Fx {
    Fx::of_ratio(1, 100)
}

/// The top of the `hp` range, the same for every race.
pub const MAX_HP: i32 = 100;

/// A bundle of material of one element that a body holds.
#[derive(Clone, Copy, PartialEq, Eq, Debug, Structural)]
pub struct Item {
    pub element: Element,
    pub quantity: u64,
}

impl Hashable for Item {
    open spec fn digest(&self, h: u64) -> u64 {
        fnv(fnv(h, seq![self.element.at() as u8]), le64(self.quantity))
    }

    fn hash_into(&self, h: &mut Hasher) {
        h.u8(self.element.index() as u8).u64(self.quantity);
    }
}

#[derive(Clone, PartialEq, Eq, Debug)]
pub struct Entity {
    pub id: u32,
    pub element: Element,
    pub kind: Kind,
    pub pos: V2,
    /// Unit vector; a step is the heading times the race's speed.
    pub heading: V2,
    pub age: u64,
    /// Rolled at birth around the race's lifespan.
    pub lifespan: u64,
    pub hp: i32,
    pub alive: bool,
    /// Set when this tick's displacement counted as an action.
    pub acted: bool,
    /// Ticks since the body last fed.
    pub hunger: u32,
    /// Per-mille of full size; scales the collision radius.
    pub size: u16,
    /// Units of its own element that the body is made of.
    pub material: u64,
    /// Loose stock the body carries, per element.
    pub carried: PerElement<u64>,
    /// Bundles the body holds.
    pub items: Vec<Item>,
    /// Tick from which each action may be fired again, by action position.
    pub action_ready_at: [u64; 5],
}

/// The value of an [`Entity`].
#[verifier::ext_equal]
pub struct EntityV {
    pub id: u32,
    pub element: Element,
    pub kind: Kind,
    pub pos: V2,
    pub heading: V2,
    pub age: u64,
    pub lifespan: u64,
    pub hp: i32,
    pub alive: bool,
    pub acted: bool,
    pub hunger: u32,
    pub size: u16,
    pub material: u64,
    pub carried: Seq<u64>,
    pub items: Seq<Item>,
    pub action_ready_at: Seq<u64>,
}

impl View for Entity {
    type V = EntityV;

    open spec fn view(&self) -> EntityV {
        EntityV {
            id: self.id,
            element: self.element,
            kind: self.kind,
            pos: self.pos,
            heading: self.heading,
            age: self.age,
            lifespan: self.lifespan,
            hp: self.hp,
            alive: self.alive,
            acted: self.acted,
            hunger: self.hunger,
            size: self.size,
            material: self.material,
            carried: self.carried@,
            items: self.items@,
            action_ready_at: self.action_ready_at@,
        }
    }
}

/// The values of a list of bodies.
pub open spec fn views(s: Seq<Entity>) -> Seq<EntityV> {
    Seq::new(s.len(), |i: int| s[i]@)
}

impl EntityV {
    pub open spec fn race(self) -> Race {
        Race { element: self.element, kind: self.kind }
    }
}

/// The body that race attributes `a` give birth to at `pos`.
pub open spec fn newborn(
    id: u32,
    element: Element,
    pos: V2,
    seed: u64,
    tick: u64,
    a: RaceAttrsV,
) -> EntityV {
    EntityV {
        id,
        element,
        kind: a.kind,
        pos,
        heading: first_heading(seed, tick, id),
        age: 0,
        lifespan: rolled_lifespan(a, seed, tick, id),
        hp: 50,
        alive: true,
        acted: false,
        hunger: 0,
        size: 1000,
        material: 0,
        carried: Seq::new(5, |i: int| 0u64),
        items: Seq::empty(),
        action_ready_at: Seq::new(5, |i: int| 0u64),
    }
}

impl Entity {
    /// `a` is the spawning world's current row for the race. A newborn is at
    /// half strength, holds nothing, and may act at once.
    pub fn spawn(id: u32, element: Element, pos: V2, seed: u64, tick: u64, a: &RaceAttrs) -> (r:
        Entity)
        ensures
            r@ == newborn(id, element, pos, seed, tick, a@),
    {
        let e = Entity {
            id,
            element,
            kind: a.kind,
            pos,
            heading: initial_heading(seed, tick, id),
            age: 0,
            lifespan: roll_lifespan(a, seed, tick, id),
            hp: MAX_HP / 2,
            alive: true,
            acted: false,
            hunger: 0,
            size: 1000,
            material: 0,
            carried: PerElement::filled(0u64),
            items: Vec::new(),
            action_ready_at: [0u64; 5],
        };
        assert(e@ =~= newborn(id, element, pos, seed, tick, a@));
        e
    }

    pub fn is_expired(&self) -> (r: bool)
        ensures
            r == (self.age >= self.lifespan),
    {
        self.age >= self.lifespan
    }

    pub fn race(&self) -> (r: Race)
        ensures
            r == self@.race(),
    {
        Race { element: self.element, kind: self.kind }
    }
}

/// The state after hashing the items in order.
pub open spec fn items_digest(h: u64, s: Seq<Item>) -> u64
    decreases s.len(),
{
    if s.len() == 0 {
        h
    } else {
        s.last().digest(items_digest(h, s.drop_last()))
    }
}

pub open spec fn entity_digest(h: u64, e: EntityV) -> u64 {
    let h = fnv(h, le32(e.id));
    let h = fnv(h, seq![e.element.at() as u8]);
    let h = fnv(h, seq![e.kind.at() as u8]);
    let h = fnv(h, le32(e.pos.x.0 as u32));
    let h = fnv(h, le32(e.pos.y.0 as u32));
    let h = fnv(h, le32(e.heading.x.0 as u32));
    let h = fnv(h, le32(e.heading.y.0 as u32));
    let h = fnv(h, le64(e.age));
    let h = fnv(h, le64(e.lifespan));
    let h = fnv(h, le32(e.hp as u32));
    let h = fnv(h, le_bool(e.alive));
    let h = fnv(h, le_bool(e.acted));
    let h = fnv(h, le32(e.hunger));
    let h = fnv(h, le16(e.size));
    let h = fnv(h, le64(e.material));
    let h = digest_u64s(h, e.carried);
    let h = fnv(h, le32(e.items.len() as u32));
    let h = items_digest(h, e.items);
    digest_u64s(h, e.action_ready_at)
}

impl Hashable for Entity {
    open spec fn digest(&self, h: u64) -> u64 {
        entity_digest(h, self@)
    }

    fn hash_into(&self, h: &mut Hasher) {
        h.u32(self.id).u8(self.element.index() as u8).u8(self.kind.index() as u8).i32(
            self.pos.x.raw(),
        ).i32(self.pos.y.raw()).i32(self.heading.x.raw()).i32(self.heading.y.raw()).u64(
            self.age,
        ).u64(self.lifespan).i32(self.hp).bool(self.alive).bool(self.acted).u32(self.hunger).u16(
            self.size,
        ).u64(self.material);
        h.u64s(self.carried.0.as_slice());
        h.u32(#[verifier::truncate] (self.items.len() as u32));
        let ghost mid = h.0;
        let mut i: usize = 0;
        while i < self.items.len()
            invariant
                i <= self.items.len(),
                h.0 == items_digest(mid, self.items@.take(i as int)),
            decreases self.items.len() - i,
        {
            assert(self.items@.take(i + 1).drop_last() =~= self.items@.take(i as int));
            self.items[i].hash_into(h);
            i = i + 1;
        }
        assert(self.items@.take(i as int) =~= self.items@);
        h.u64s(self.action_ready_at.as_slice());
    }
}

/// The per-mille of its lifespan at which a growing plant reaches its ceiling.
pub const MATURITY_PERMILLE: u64 = 250;

/// Age at which a body that lives `lifespan` ticks is mature.
pub open spec fn maturity_age(lifespan: u64) -> int {
    (if lifespan * 250 > u64::MAX {
        u64::MAX as int
    } else {
        lifespan * 250
    }) / 1000
}

pub open spec fn spec_grown_size(birth_size: u16, age: u64, lifespan: u64, ceiling: u16) -> int {
    if ceiling <= birth_size {
        birth_size as int
    } else if maturity_age(lifespan) == 0 || age >= maturity_age(lifespan) {
        ceiling as int
    } else {
        birth_size + ((ceiling - birth_size) * age) / maturity_age(lifespan)
    }
}

/// Size is between its value at birth and the ceiling, and reaches the
/// ceiling at maturity; with no room to grow it stays what it was at birth.
pub proof fn law_grown_size_bounds(birth_size: u16, age: u64, lifespan: u64, ceiling: u16)
    ensures
        ceiling <= birth_size ==> spec_grown_size(birth_size, age, lifespan, ceiling) == birth_size,
        ceiling > birth_size ==> birth_size <= spec_grown_size(birth_size, age, lifespan, ceiling)
            <= ceiling,
        ceiling > birth_size && age >= maturity_age(lifespan) ==> spec_grown_size(
            birth_size,
            age,
            lifespan,
            ceiling,
        ) == ceiling,
{
    let m = maturity_age(lifespan);
    if ceiling > birth_size && m != 0 && age < m {
        let d = ceiling - birth_size;
        lemma_share_bound(d, age as int, m);
    }
}

/// A share `a / m` of `d`, rounded down, is at most `d`.
proof fn lemma_share_bound(d: int, a: int, m: int)
    requires
        0 <= d,
        0 <= a <= m,
        0 < m,
    ensures
        0 <= (d * a) / m <= d,
{
    assert(0 <= (d * a) / m <= d) by (nonlinear_arith)
        requires
            0 <= d,
            0 <= a <= m,
            0 < m,
    ;
}

/// Size never falls with age.
pub proof fn law_growth_is_monotone(birth_size: u16, a: u64, b: u64, lifespan: u64, ceiling: u16)
    requires
        a <= b,
    ensures
        spec_grown_size(birth_size, a, lifespan, ceiling) <= spec_grown_size(
            birth_size,
            b,
            lifespan,
            ceiling,
        ),
{
    let m = maturity_age(lifespan);
    law_grown_size_bounds(birth_size, a, lifespan, ceiling);
    law_grown_size_bounds(birth_size, b, lifespan, ceiling);
    if ceiling > birth_size && m != 0 && b < m {
        let d = ceiling - birth_size;
        assert(d * a <= d * b) by (nonlinear_arith)
            requires
                0 <= d,
                a <= b,
        ;
        vstd::arithmetic::div_mod::lemma_div_is_ordered(d * a, d * b, m);
    }
}

/// Linear growth from `birth_size` at age 0 to `ceiling` at
/// [`MATURITY_PERMILLE`] of the lifespan, held at `ceiling` from there on.
/// Derived from the four numbers alone, so it can be recomputed every tick.
pub fn grown_size(birth_size: u16, age: u64, lifespan: u64, ceiling: u16) -> (r: u16)
    ensures
        r == spec_grown_size(birth_size, age, lifespan, ceiling),
{
    if ceiling <= birth_size {
        return birth_size;
    }
    let scaled: u128 = lifespan as u128 * 250;
    let capped: u128 = if scaled > u64::MAX as u128 {
        u64::MAX as u128
    } else {
        scaled
    };
    let mature: u64 = (capped / 1000) as u64;
    if mature == 0 || age >= mature {
        return ceiling;
    }
    let d: u16 = ceiling - birth_size;
    proof {
        lemma_share_bound(d as int, age as int, mature as int);
        assert(0 <= d * age <= 0xffff * 0xffff_ffff_ffff_ffff) by (nonlinear_arith)
            requires
                0 <= d <= 0xffff,
                0 <= age <= 0xffff_ffff_ffff_ffff,
        ;
    }
    let grown: u128 = (d as u128 * age as u128) / (mature as u128);
    birth_size + grown as u16
}

pub open spec fn spec_growth_ceiling(own_element_stock: u16, growth_ref: u16) -> int {
    if growth_ref == 0 {
        1000
    } else if (own_element_stock * 1000) / (growth_ref as int) > 1000 {
        1000
    } else {
        (own_element_stock * 1000) / (growth_ref as int)
    }
}

/// The size, in per-mille and at most 1000, that the local stock of a plant's
/// own element supports. A `growth_ref` of zero switches the scaling off.
pub fn growth_ceiling(own_element_stock: u16, growth_ref: u16) -> (r: u16)
    ensures
        r == spec_growth_ceiling(own_element_stock, growth_ref),
        r <= 1000,
{
    if growth_ref == 0 {
        return 1000;
    }
    let c: u32 = (own_element_stock as u32 * 1000) / (growth_ref as u32);
    if c > 1000 {
        1000
    } else {
        c as u16
    }
}

pub open spec fn rolled_lifespan(a: RaceAttrsV, seed: u64, tick: u64, id: u32) -> u64 {
    let v = a.lifespan_variance as i32;
    if v == 0 {
        if a.lifespan == 0 {
            1
        } else {
            a.lifespan
        }
    } else {
        let delta = draw_range(
            seed,
            tick,
            id,
            Channel::LifespanVariance,
            (-v) as i32,
            (v + 1) as i32,
        );
        let scaled = trunc_div(a.lifespan * (1000 + delta), 1000);
        if scaled < 1 {
            1
        } else {
            scaled as u64
        }
    }
}

/// The per-individual lifespan: the race's, varied by up to its variance in
/// per-mille either way, and at least one tick.
pub fn roll_lifespan(a: &RaceAttrs, seed: u64, tick: u64, id: u32) -> (r: u64)
    ensures
        r == rolled_lifespan(a@, seed, tick, id),
{
    let v: i32 = a.lifespan_variance as i32;
    if v == 0 {
        return if a.lifespan == 0 {
            1
        } else {
            a.lifespan
        };
    }
    let delta: i32 = rand_range(seed, tick, id, Channel::LifespanVariance, -v, v + 1);
    let k: i128 = 1000 + delta as i128;
    assert(-0xffff_ffff_ffff_ffff * 70000 <= a.lifespan * k <= 0xffff_ffff_ffff_ffff * 70000)
        by (nonlinear_arith)
        requires
            0 <= a.lifespan <= 0xffff_ffff_ffff_ffff,
            -70000 <= k <= 70000,
    ;
    let scaled: i128 = (a.lifespan as i128 * k) / 1000;
    if scaled < 1 {
        1
    } else {
        #[verifier::truncate]
        (scaled as u64)
    }
}

/// A body's lifespan is its race's, give or take the variance in per-mille,
/// and at least one tick. With a variance of at most 1000 that is at most
/// twice the race's.
pub proof fn law_lifespan_bounds(a: RaceAttrsV, seed: u64, tick: u64, id: u32)
    requires
        0 < a.lifespan <= u64::MAX / 2,
        a.lifespan_variance <= 1000,
    ensures
        1 <= rolled_lifespan(a, seed, tick, id) <= 2 * a.lifespan,
        a.lifespan * (1000 - a.lifespan_variance) / 1000 <= rolled_lifespan(a, seed, tick, id)
            <= a.lifespan * (1000 + a.lifespan_variance) / 1000,
{
    let v = a.lifespan_variance as i32;
    if v != 0 {
        let lo = (-v) as i32;
        let hi = (v + 1) as i32;
        crate::rand::law_draw_below_bound(
            seed,
            tick,
            id,
            Channel::LifespanVariance,
            (hi - lo) as u32,
        );
        let delta = draw_range(seed, tick, id, Channel::LifespanVariance, lo, hi);
        let k = 1000 + delta;
        lemma_share(a.lifespan as int, v as int, k as int);
    } else {
        lemma_share(a.lifespan as int, 0, 1000);
    }
}

/// A share of `l` that is within `v` per-mille of the whole.
proof fn lemma_share(l: int, v: int, k: int)
    requires
        1 <= l,
        0 <= v <= 1000,
        1000 - v <= k <= 1000 + v,
    ensures
        0 <= l * (1000 - v) / 1000 <= l * k / 1000 <= l * (1000 + v) / 1000 <= 2 * l,
        1 <= l * (1000 + v) / 1000,
        0 <= l * k,
{
    let (x, y, z) = (l * (1000 - v), l * k, l * (1000 + v));
    assert(0 <= x <= y <= z) by (nonlinear_arith)
        requires
            1 <= l,
            0 <= 1000 - v <= k <= 1000 + v,
            x == l * (1000 - v),
            y == l * k,
            z == l * (1000 + v),
    ;
    assert(1000 <= z <= 2000 * l) by (nonlinear_arith)
        requires
            1 <= l,
            0 <= v <= 1000,
            z == l * (1000 + v),
    ;
}

pub open spec fn first_heading(seed: u64, tick: u64, id: u32) -> V2 {
    let v = V2 {
        x: draw_signed(seed, tick, id, Channel::Wander),
        y: draw_signed(seed, tick, id.wrapping_add(0x5EED), Channel::Wander),
    };
    if v.spec_len_sq().0 == 0 {
        V2 { x: Fx(65536), y: Fx(0) }
    } else {
        v.spec_normalized()
    }
}

/// A unit heading from where and when the body was born.
pub fn initial_heading(seed: u64, tick: u64, id: u32) -> (r: V2)
    ensures
        r == first_heading(seed, tick, id),
{
    let x: Fx = rand_signed(seed, tick, id, Channel::Wander);
    let y: Fx = rand_signed(seed, tick, id.wrapping_add(0x5EED), Channel::Wander);
    let v: V2 = V2::new(x, y);
    if v.len_sq().is_zero() {
        V2::new(Fx::one(), Fx::zero())
    } else {
        v.normalized()
    }
}

} // verus!
