//! Feeding, starvation, reproduction, and what the ground does to those who
//! stand on it.
//!
//! The ring and star relations reach bodies through terrain: standing in what
//! eats you costs `hp`, standing in what suppresses you brings hunger on.
//! Plants take both exactly as animals do.
use crate::element::{Element, PerElement};
use crate::entity::{Entity, EntityV};
use crate::fx::{min_int, Fx};
use crate::hash::{digest_i32s, digest_u16s, digest_u32s, digest_u64s, Hashable, Hasher};
use crate::race::{race_at, Kind, PerRace, Race};
use crate::terrain::{cell_at, Terrain, TerrainV};
use vstd::prelude::*;

verus! {

/// The shipped chance, in per-mille, that an animal takes animal prey.
const HUNT_WEIGHT_DEFAULT: u16 = 150;

/// The rates that feeding and starvation read.
#[derive(Clone, Copy, PartialEq, Eq, Debug)]
pub struct EcologyTuning {
    /// How far a body can reach to eat, in cells.
    pub forage_radius: PerElement<Fx>,
    /// Ticks that must pass between one body's meals.
    pub satiation: PerElement<u32>,
    /// `hp` restored by one meal.
    pub feed_gain: PerElement<i32>,
    /// Ticks without a meal before starvation begins.
    pub starve_after: PerElement<u32>,
    /// `hp` lost per tick of starvation.
    pub starve_rate: PerElement<i32>,
    /// `hp` that a meal must reach from below for the body to reproduce.
    pub repro_threshold: PerElement<i32>,
    /// Per-mille of the stock of what eats a body that it loses as `hp`, per
    /// terrain tick.
    pub attrition_rate: PerElement<u16>,
    /// Per-mille of the stock of what suppresses a body that is added to its
    /// hunger, per terrain tick.
    pub suppression_rate: PerElement<u16>,
    /// Per-mille chance, per predator and tick, that animal prey is taken.
    /// Grazing is not gated.
    pub hunt_weight: PerRace<u16>,
}

impl EcologyTuning {
    /// The shipped rates.
    pub open spec fn is_shipped(self) -> bool {
        &&& self.forage_radius@ == Seq::new(5, |i: int| Fx::of_ratio(400, 100))
        &&& self.satiation@ == Seq::new(5, |i: int| 200u32)
        &&& self.feed_gain@ == Seq::new(5, |i: int| 40i32)
        &&& self.starve_after@ == Seq::new(5, |i: int| 2000u32)
        &&& self.starve_rate@ == Seq::new(5, |i: int| 1i32)
        &&& self.repro_threshold@ == Seq::new(5, |i: int| 75i32)
        &&& self.attrition_rate@ == Seq::new(5, |i: int| 1u16)
        &&& self.suppression_rate@ == Seq::new(5, |i: int| 14u16)
        &&& forall|i: int|
            0 <= i < 10 ==> #[trigger] self.hunt_weight@[i] == (if race_at(i).kind == Kind::Animal {
                150u16
            } else {
                0u16
            })
    }
}

impl Default for EcologyTuning {
    fn default() -> (r: EcologyTuning)
        ensures
            r.is_shipped(),
    {
        let mut hunt_weight: PerRace<u16> = PerRace::filled(0u16);
        let mut k: usize = 0;
        while k < 10
            invariant
                k <= 10,
                forall|i: int|
                    0 <= i < 10 ==> #[trigger] hunt_weight@[i] == (if i < k && race_at(i).kind
                        == Kind::Animal {
                        150u16
                    } else {
                        0u16
                    }),
            decreases 10 - k,
        {
            let r: Race = Race::from_index(k);
            if r.kind == Kind::Animal {
                hunt_weight.set(r, HUNT_WEIGHT_DEFAULT);
            }
            k = k + 1;
        }
        EcologyTuning {
            forage_radius: PerElement::filled(Fx::ratio(400, 100)),
            satiation: PerElement::filled(200u32),
            feed_gain: PerElement::filled(40i32),
            starve_after: PerElement::filled(2000u32),
            starve_rate: PerElement::filled(1i32),
            repro_threshold: PerElement::filled(75i32),
            attrition_rate: PerElement::filled(1u16),
            suppression_rate: PerElement::filled(14u16),
            hunt_weight,
        }
    }
}

/// The raw values of a list of fixed-point numbers.
pub open spec fn raws(s: Seq<Fx>) -> Seq<i32> {
    Seq::new(s.len(), |i: int| s[i].0)
}

/// The raw values of five fixed-point numbers.
pub fn raw_values(p: &PerElement<Fx>) -> (r: [i32; 5])
    ensures
        r@ == raws(p@),
{
    let r: [i32; 5] = [p.0[0].0, p.0[1].0, p.0[2].0, p.0[3].0, p.0[4].0];
    assert(r@ =~= raws(p@));
    r
}

impl Hashable for EcologyTuning {
    open spec fn digest(&self, h: u64) -> u64 {
        let h = digest_i32s(h, raws(self.forage_radius@));
        let h = digest_u32s(h, self.satiation@);
        let h = digest_i32s(h, self.feed_gain@);
        let h = digest_u32s(h, self.starve_after@);
        let h = digest_i32s(h, self.starve_rate@);
        let h = digest_i32s(h, self.repro_threshold@);
        let h = digest_u16s(h, self.attrition_rate@);
        let h = digest_u16s(h, self.suppression_rate@);
        digest_u16s(h, self.hunt_weight@)
    }

    fn hash_into(&self, h: &mut Hasher) {
        h.i32s(raw_values(&self.forage_radius).as_slice());
        h.u32s(self.satiation.0.as_slice());
        h.i32s(self.feed_gain.0.as_slice());
        h.u32s(self.starve_after.0.as_slice());
        h.i32s(self.starve_rate.0.as_slice());
        h.i32s(self.repro_threshold.0.as_slice());
        h.u16s(self.attrition_rate.0.as_slice());
        h.u16s(self.suppression_rate.0.as_slice());
        h.u16s(self.hunt_weight.0.as_slice());
    }
}

/// What a stock does to a body at a rate in per-mille.
pub open spec fn toll(stock: u16, rate: u16) -> int {
    (stock * rate) / 1000
}

pub proof fn lemma_toll(stock: u16, rate: u16)
    ensures
        0 <= stock * rate <= 65535 * 65535,
        0 <= toll(stock, rate) <= 4294836,
{
    assert(0 <= stock * rate <= 65535 * 65535) by (nonlinear_arith)
        requires
            0 <= stock <= 65535,
            0 <= rate <= 65535,
    ;
}

/// A body after the ground it stands on has worn it down: it loses `hp` in
/// proportion to what eats it there, never more than it has.
pub open spec fn attrited(e: EntityV, t: TerrainV, tuning: EcologyTuning) -> EntityV {
    if e.alive && e.hp > 0 {
        let stock = t.stock(cell_at(t.side, e.pos), e.element.spec_eaten_by());
        let dmg = min_int(toll(stock, tuning.attrition_rate@[e.element.at()]), e.hp as int);
        EntityV { hp: (e.hp - dmg) as i32, ..e }
    } else {
        e
    }
}

/// A body after what suppresses it where it stands has brought hunger on.
pub open spec fn suppressed(e: EntityV, t: TerrainV, tuning: EcologyTuning) -> EntityV {
    if e.alive {
        let stock = t.stock(cell_at(t.side, e.pos), e.element.spec_suppressed_by());
        let extra = toll(stock, tuning.suppression_rate@[e.element.at()]);
        EntityV { hunger: min_int(e.hunger + extra, u32::MAX as int) as u32, ..e }
    } else {
        e
    }
}

/// Wear every living body down by what eats it where it stands. Terrain is
/// read and never written; a body worn down to nothing dies when it next ages.
pub fn apply_attrition(entities: &mut Vec<Entity>, terrain: &Terrain, tuning: &EcologyTuning)
    requires
        terrain@.wf(),
    ensures
        final(entities)@.len() == old(entities)@.len(),
        forall|i: int|
            0 <= i < old(entities)@.len() ==> (#[trigger] final(entities)@[i])@ == attrited(
                old(entities)@[i]@,
                terrain@,
                *tuning,
            ),
{
    let ghost before = entities@;
    let mut i: usize = 0;
    while i < entities.len()
        invariant
            i <= entities@.len(),
            entities@.len() == before.len(),
            terrain@.wf(),
            forall|j: int|
                0 <= j < entities@.len() ==> (#[trigger] entities@[j])@ == (if j < i {
                    attrited(before[j]@, terrain@, *tuning)
                } else {
                    before[j]@
                }),
        decreases entities.len() - i,
    {
        let el: Element = entities[i].element;
        let hp: i32 = entities[i].hp;
        assert(entities@[i as int]@ == before[i as int]@);
        if entities[i].alive && hp > 0 {
            let stock: u16 = terrain.stock_at(entities[i].pos, el.eaten_by());
            let rate: u16 = *tuning.attrition_rate.get(el);
            proof {
                lemma_toll(stock, rate);
            }
            let mut dmg: u64 = (stock as u64 * rate as u64) / 1000;
            if dmg > hp as u64 {
                dmg = hp as u64;
            }
            entities[i].hp = hp - dmg as i32;
        }
        i = i + 1;
    }
}

/// Bring hunger on in every living body by what suppresses it where it stands.
pub fn apply_suppression(entities: &mut Vec<Entity>, terrain: &Terrain, tuning: &EcologyTuning)
    requires
        terrain@.wf(),
    ensures
        final(entities)@.len() == old(entities)@.len(),
        forall|i: int|
            0 <= i < old(entities)@.len() ==> (#[trigger] final(entities)@[i])@ == suppressed(
                old(entities)@[i]@,
                terrain@,
                *tuning,
            ),
{
    let ghost before = entities@;
    let mut i: usize = 0;
    while i < entities.len()
        invariant
            i <= entities@.len(),
            entities@.len() == before.len(),
            terrain@.wf(),
            forall|j: int|
                0 <= j < entities@.len() ==> (#[trigger] entities@[j])@ == (if j < i {
                    suppressed(before[j]@, terrain@, *tuning)
                } else {
                    before[j]@
                }),
        decreases entities.len() - i,
    {
        let el: Element = entities[i].element;
        assert(entities@[i as int]@ == before[i as int]@);
        if entities[i].alive {
            let stock: u16 = terrain.stock_at(entities[i].pos, el.suppressed_by());
            let rate: u16 = *tuning.suppression_rate.get(el);
            proof {
                lemma_toll(stock, rate);
            }
            let extra: u32 = ((stock as u64 * rate as u64) / 1000) as u32;
            let hunger: u32 = entities[i].hunger;
            entities[i].hunger = hunger.saturating_add(extra);
        }
        i = i + 1;
    }
}

/// Attrition never takes more `hp` than a body has and changes nothing else;
/// suppression never lessens hunger and changes nothing else.
pub proof fn law_ground_toll_is_bounded(e: EntityV, t: TerrainV, tuning: EcologyTuning)
    ensures
        attrited(e, t, tuning).hp <= e.hp,
        e.hp >= 0 ==> attrited(e, t, tuning).hp >= 0,
        attrited(e, t, tuning) == (EntityV { hp: attrited(e, t, tuning).hp, ..e }),
        suppressed(e, t, tuning).hunger >= e.hunger,
        suppressed(e, t, tuning) == (EntityV { hunger: suppressed(e, t, tuning).hunger, ..e }),
        !e.alive ==> attrited(e, t, tuning) == e && suppressed(e, t, tuning) == e,
{
    let a = t.stock(cell_at(t.side, e.pos), e.element.spec_eaten_by());
    let b = t.stock(cell_at(t.side, e.pos), e.element.spec_suppressed_by());
    lemma_toll(a, tuning.attrition_rate@[e.element.at()]);
    lemma_toll(b, tuning.suppression_rate@[e.element.at()]);
}

/// The rates that plant reproduction reads.
#[derive(Clone, Copy, PartialEq, Eq, Debug)]
pub struct PropagationTuning {
    /// Terrain ticks between attempts; zero means never.
    pub period: PerElement<u64>,
    /// Per-mille chance that an attempt is made.
    pub chance: PerElement<u16>,
    /// Per-mille of full size that an offspring is born at.
    pub offspring_size: PerElement<u16>,
    /// Stock of the plant's habitat element that the landing cell must hold.
    pub root_min: PerElement<u16>,
    /// How far from its parent an offspring may land.
    pub dispersal: PerElement<Fx>,
    /// Bodies of the race that a cell may hold before rooting there is refused.
    pub crowd_max: PerElement<u16>,
    /// Stock of its own element at which a plant can grow to full size; zero
    /// means that it always can.
    pub growth_ref: PerElement<u16>,
}

impl PropagationTuning {
    /// The shipped rates.
    pub open spec fn is_shipped(self) -> bool {
        &&& self.period@ == Seq::new(5, |i: int| 3u64)
        &&& self.chance@ == Seq::new(5, |i: int| 200u16)
        &&& self.offspring_size@ == Seq::new(5, |i: int| 200u16)
        &&& self.root_min@ == Seq::new(5, |i: int| 300u16)
        &&& self.dispersal@ == Seq::new(5, |i: int| Fx::of_ratio(300, 100))
        &&& self.crowd_max@ == Seq::new(5, |i: int| 3u16)
        &&& self.growth_ref@ == Seq::new(5, |i: int| 1000u16)
    }
}

impl Default for PropagationTuning {
    fn default() -> (r: PropagationTuning)
        ensures
            r.is_shipped(),
    {
        PropagationTuning {
            period: PerElement::filled(3u64),
            chance: PerElement::filled(200u16),
            offspring_size: PerElement::filled(200u16),
            root_min: PerElement::filled(300u16),
            dispersal: PerElement::filled(Fx::ratio(300, 100)),
            crowd_max: PerElement::filled(3u16),
            growth_ref: PerElement::filled(1000u16),
        }
    }
}

impl Hashable for PropagationTuning {
    open spec fn digest(&self, h: u64) -> u64 {
        let h = digest_u64s(h, self.period@);
        let h = digest_u16s(h, self.chance@);
        let h = digest_u16s(h, self.offspring_size@);
        let h = digest_u16s(h, self.root_min@);
        let h = digest_i32s(h, raws(self.dispersal@));
        let h = digest_u16s(h, self.crowd_max@);
        digest_u16s(h, self.growth_ref@)
    }

    fn hash_into(&self, h: &mut Hasher) {
        h.u64s(self.period.0.as_slice());
        h.u16s(self.chance.0.as_slice());
        h.u16s(self.offspring_size.0.as_slice());
        h.u16s(self.root_min.0.as_slice());
        h.i32s(raw_values(&self.dispersal).as_slice());
        h.u16s(self.crowd_max.0.as_slice());
        h.u16s(self.growth_ref.0.as_slice());
    }
}

} // verus!
