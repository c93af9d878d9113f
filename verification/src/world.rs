//! The simulated world: its state, its invariant and its books.
//!
//! A tick runs its phases in one fixed order, which is part of every recorded
//! replay: commands, aging, movement, collisions, feeding, flora, terrain,
//! reap.
use crate::behavior::BehaviorTuning;
use crate::ecology::{EcologyTuning, PropagationTuning};
use crate::element::{Element, PerElement};
use crate::entity::{entity_digest, newborn, views, Entity, EntityV, Item};
use crate::fx::{Fx, V2};
use crate::governor::{governor_digest, Governor};
use crate::hash::{fnv, le32, le64, Hashable, Hasher, FNV_OFFSET};
use crate::race::{attrs_digest, race_at, seeded_races, shipped, PerRace, Race, RaceAttrs, RaceAttrsV};
use crate::rand::{draw_below, rand_below, Channel};
use crate::sums::{lemma_sum_bounds, lemma_sum_push, lemma_sum_update, sum_by};
use crate::terrain::{terrain_digest, terrain_mass, Terrain, TerrainTuning, TerrainV};
use vstd::prelude::*;

verus! {

/// Per-tick positional noise, so that bodies do not travel on rails.
pub open spec fn spec_jitter() -> Fx {
    Fx::of_ratio(1, 400)
}

pub fn jitter() -> (r: Fx)
    ensures
        r == spec_jitter(),
{
    Fx::ratio(1, 400)
}

/// Spread of an offspring around its parent.
pub open spec fn spec_birth_scatter() -> Fx {
    Fx::of_ratio(150, 100)
}

pub fn birth_scatter() -> (r: Fx)
    ensures
        r == spec_birth_scatter(),
{
    Fx::ratio(150, 100)
}

/// What every cell of a fresh world holds of Earth; of the other elements it
/// holds nothing.
pub const GENESIS_EARTH: u16 = 1000;

/// Running totals since the world began.
#[derive(Clone, Copy, PartialEq, Eq, Debug, Structural)]
pub struct Stats {
    pub births: u64,
    pub deaths: u64,
    pub collisions: u64,
    pub actions: u64,
    /// Meals, counted at the predator.
    pub feedings: u64,
    /// Deaths of bodies that were starving; some of `deaths`.
    pub starved: u64,
    pub grazed: u64,
    pub hunted: u64,
    pub fled: u64,
    /// Offspring that rooted; some of `births`.
    pub propagated: u64,
    /// Offspring that found too little ground or too great a crowd.
    pub rooted_rejected: u64,
}

impl Default for Stats {
    fn default() -> (r: Stats)
        ensures
            r == no_stats(),
    {
        Stats {
            births: 0,
            deaths: 0,
            collisions: 0,
            actions: 0,
            feedings: 0,
            starved: 0,
            grazed: 0,
            hunted: 0,
            fled: 0,
            propagated: 0,
            rooted_rejected: 0,
        }
    }
}

pub open spec fn no_stats() -> Stats {
    Stats {
        births: 0,
        deaths: 0,
        collisions: 0,
        actions: 0,
        feedings: 0,
        starved: 0,
        grazed: 0,
        hunted: 0,
        fled: 0,
        propagated: 0,
        rooted_rejected: 0,
    }
}

impl Stats {
    /// Every total can still count `n` more.
    pub open spec fn room(self, n: int) -> bool {
        &&& self.births + n <= u64::MAX
        &&& self.deaths + n <= u64::MAX
        &&& self.collisions + n <= u64::MAX
        &&& self.actions + n <= u64::MAX
        &&& self.feedings + n <= u64::MAX
        &&& self.starved + n <= u64::MAX
        &&& self.grazed + n <= u64::MAX
        &&& self.hunted + n <= u64::MAX
        &&& self.fled + n <= u64::MAX
        &&& self.propagated + n <= u64::MAX
        &&& self.rooted_rejected + n <= u64::MAX
    }

    /// No total of `self` is more than `n` above the one of `before`.
    pub open spec fn within(self, before: Stats, n: int) -> bool {
        &&& before.births <= self.births <= before.births + n
        &&& before.deaths <= self.deaths <= before.deaths + n
        &&& before.collisions <= self.collisions <= before.collisions + n
        &&& before.actions <= self.actions <= before.actions + n
        &&& before.feedings <= self.feedings <= before.feedings + n
        &&& before.starved <= self.starved <= before.starved + n
        &&& before.grazed <= self.grazed <= before.grazed + n
        &&& before.hunted <= self.hunted <= before.hunted + n
        &&& before.fled <= self.fled <= before.fled + n
        &&& before.propagated <= self.propagated <= before.propagated + n
        &&& before.rooted_rejected <= self.rooted_rejected <= before.rooted_rejected + n
    }
}

/// A pile of material on the ground.
#[derive(Clone, Copy, PartialEq, Eq, Debug, Structural)]
pub struct GroundItem {
    pub element: Element,
    pub quantity: u64,
    pub pos: V2,
}

impl Hashable for GroundItem {
    open spec fn digest(&self, h: u64) -> u64 {
        let h = fnv(h, seq![self.element.at() as u8]);
        let h = fnv(h, le64(self.quantity));
        let h = fnv(h, le32(self.pos.x.0 as u32));
        fnv(h, le32(self.pos.y.0 as u32))
    }

    fn hash_into(&self, h: &mut Hasher) {
        h.u8(self.element.index() as u8).u64(self.quantity).i32(self.pos.x.raw()).i32(
            self.pos.y.raw(),
        );
    }
}

#[derive(Clone, Debug)]
pub struct World {
    pub seed: u64,
    pub tick: u64,
    /// Always in ascending order of `id`.
    pub entities: Vec<Entity>,
    pub next_id: u32,
    /// The simulated square is `[0, size] x [0, size]`, in cells.
    pub size: Fx,
    /// The tuning table this world runs on.
    pub races: PerRace<RaceAttrs>,
    pub terrain: Terrain,
    pub terrain_tuning: TerrainTuning,
    pub ecology: EcologyTuning,
    pub behavior: BehaviorTuning,
    pub propagation: PropagationTuning,
    /// Material on the ground that belongs to no body.
    pub ground_items: Vec<GroundItem>,
    /// Bounds how fast ground items return to terrain.
    pub ground_decay_gov: Governor,
    pub stats: Stats,
}

/// The value of a [`World`].
#[verifier::ext_equal]
pub struct WorldV {
    pub seed: u64,
    pub tick: u64,
    pub ents: Seq<EntityV>,
    pub next_id: u32,
    pub size: Fx,
    pub races: Seq<RaceAttrsV>,
    pub terrain: TerrainV,
    pub terrain_tuning: TerrainTuning,
    pub ecology: EcologyTuning,
    pub behavior: BehaviorTuning,
    pub propagation: PropagationTuning,
    pub ground: Seq<GroundItem>,
    pub decay: Governor,
    pub stats: Stats,
}

/// The values of the rows of a table.
pub open spec fn rows(s: Seq<RaceAttrs>) -> Seq<RaceAttrsV> {
    Seq::new(s.len(), |i: int| s[i]@)
}

impl View for World {
    type V = WorldV;

    open spec fn view(&self) -> WorldV {
        WorldV {
            seed: self.seed,
            tick: self.tick,
            ents: views(self.entities@),
            next_id: self.next_id,
            size: self.size,
            races: rows(self.races@),
            terrain: self.terrain@,
            terrain_tuning: self.terrain_tuning,
            ecology: self.ecology,
            behavior: self.behavior,
            propagation: self.propagation,
            ground: self.ground_items@,
            decay: self.ground_decay_gov,
            stats: self.stats,
        }
    }
}

/// A quantity, as a number.
pub open spec fn item_mass() -> spec_fn(Item) -> int {
    |i: Item| i.quantity as int
}

pub open spec fn pile_mass() -> spec_fn(GroundItem) -> int {
    |g: GroundItem| g.quantity as int
}

pub open spec fn carried_mass(c: Seq<u64>) -> int {
    c[0] + c[1] + c[2] + c[3] + c[4]
}

/// All material that a body embodies, carries and holds; a dead body has
/// returned its own.
pub open spec fn body_mass(e: EntityV) -> int {
    if e.alive {
        e.material + carried_mass(e.carried) + sum_by(e.items, item_mass())
    } else {
        0
    }
}

pub open spec fn body_masses() -> spec_fn(EntityV) -> int {
    |e: EntityV| body_mass(e)
}

/// All material in the world: in the ground, banked, in and on bodies, and
/// lying about.
pub open spec fn mass(w: WorldV) -> int {
    terrain_mass(w.terrain) + sum_by(w.ents, body_masses()) + sum_by(w.ground, pile_mass())
}

/// The arrays in a body have their lengths.
pub open spec fn shaped(e: EntityV) -> bool {
    e.carried.len() == 5 && e.action_ready_at.len() == 5
}

/// Ids ascend, and none has been handed out beyond `next_id`.
pub open spec fn ids_ascend(ents: Seq<EntityV>, next_id: u32) -> bool {
    &&& forall|i: int, j: int| 0 <= i < j < ents.len() ==> (#[trigger] ents[i]).id < (#[trigger] ents[j]).id
    &&& forall|i: int| 0 <= i < ents.len() ==> (#[trigger] ents[i]).id < next_id
}

impl WorldV {
    /// What every phase keeps.
    pub open spec fn wf(self) -> bool {
        &&& self.terrain.wf()
        &&& self.races.len() == 10
        &&& forall|i: int| 0 <= i < 10 ==> (#[trigger] self.races[i]).actions_valid()
        &&& forall|i: int| 0 <= i < self.ents.len() ==> shaped(#[trigger] self.ents[i])
        &&& forall|i: int|
            0 <= i < self.ents.len() && (#[trigger] self.ents[i]).alive ==> self.ents[i].age
                < u64::MAX
        &&& ids_ascend(self.ents, self.next_id)
        &&& self.decay.wf()
        &&& mass(self) <= u64::MAX
    }

    /// Every body is inside the simulated square.
    pub open spec fn inside(self) -> bool {
        &&& self.size.0 >= 0
        &&& forall|i: int| 0 <= i < self.ents.len() ==> in_square(self.size, (#[trigger] self.ents[i]).pos)
    }
}

pub open spec fn in_square(size: Fx, p: V2) -> bool {
    0 <= p.x.0 <= size.0 && 0 <= p.y.0 <= size.0
}

/// There are no more bodies than ids handed out.
pub proof fn lemma_population_bound(ents: Seq<EntityV>, next_id: u32)
    requires
        ids_ascend(ents, next_id),
    ensures
        ents.len() <= next_id,
{
    if ents.len() > 0 {
        lemma_id_at_least(ents, next_id, ents.len() - 1);
        assert(ents[ents.len() - 1].id < next_id);
    }
}

proof fn lemma_id_at_least(ents: Seq<EntityV>, next_id: u32, i: int)
    requires
        ids_ascend(ents, next_id),
        0 <= i < ents.len(),
    ensures
        ents[i].id >= i,
    decreases i,
{
    if i > 0 {
        lemma_id_at_least(ents, next_id, i - 1);
        assert(ents[i - 1].id < ents[i].id);
    }
}

/// Each part of the books is non-negative and so at most the whole.
pub proof fn lemma_mass_parts(w: WorldV)
    requires
        w.terrain.wf(),
        forall|i: int| 0 <= i < w.ents.len() ==> shaped(#[trigger] w.ents[i]),
    ensures
        0 <= terrain_mass(w.terrain) <= mass(w),
        0 <= sum_by(w.ents, body_masses()) <= mass(w),
        0 <= sum_by(w.ground, pile_mass()) <= mass(w),
        forall|i: int| 0 <= i < w.ents.len() ==> 0 <= body_mass(#[trigger] w.ents[i]) <= mass(w),
        forall|i: int|
            0 <= i < w.ents.len() ==> 0 <= body_mass(#[trigger] w.ents[i]) <= sum_by(
                w.ents,
                body_masses(),
            ),
{
    crate::terrain::lemma_terrain_mass_parts(w.terrain);
    lemma_sum_bounds(w.ground, pile_mass());
    assert forall|i: int| 0 <= i < w.ents.len() implies body_masses()(#[trigger] w.ents[i]) >= 0 by {
        lemma_body_mass_parts(w.ents[i]);
    }
    lemma_sum_bounds(w.ents, body_masses());
    assert forall|i: int| 0 <= i < w.ents.len() implies 0 <= body_mass(#[trigger] w.ents[i])
        <= sum_by(w.ents, body_masses()) by {
        assert(body_masses()(w.ents[i]) == body_mass(w.ents[i]));
    }
}

pub proof fn lemma_body_mass_parts(e: EntityV)
    ensures
        0 <= sum_by(e.items, item_mass()),
        0 <= body_mass(e),
        e.alive ==> e.material <= body_mass(e),
        e.alive ==> 0 <= carried_mass(e.carried) <= body_mass(e),
        e.alive ==> sum_by(e.items, item_mass()) <= body_mass(e),
{
    lemma_sum_bounds(e.items, item_mass());
}

/// Replacing one body changes the books by the difference of its mass.
pub proof fn lemma_mass_body(w: WorldV, i: int, e: EntityV)
    requires
        0 <= i < w.ents.len(),
    ensures
        mass(WorldV { ents: w.ents.update(i, e), ..w }) == mass(w) - body_mass(w.ents[i])
            + body_mass(e),
{
    lemma_sum_update(w.ents, i, e, body_masses());
}

/// The bodies of `t` are those of `s` with the same identity and the same
/// material.
pub open spec fn same_books(s: Seq<EntityV>, t: Seq<EntityV>) -> bool {
    &&& t.len() == s.len()
    &&& forall|j: int|
        0 <= j < s.len() ==> (#[trigger] t[j]).id == s[j].id && t[j].alive == s[j].alive && t[j].age
            == s[j].age && t[j].material == s[j].material && t[j].carried == s[j].carried
            && t[j].items == s[j].items && t[j].action_ready_at == s[j].action_ready_at
}

/// A change that leaves identities and material alone keeps the invariant.
pub proof fn lemma_same_books(w: WorldV, u: WorldV)
    requires
        w.wf(),
        same_books(w.ents, u.ents),
        u.terrain == w.terrain,
        u.ground == w.ground,
        u.races == w.races,
        u.next_id == w.next_id,
        u.decay == w.decay,
    ensures
        u.wf(),
        mass(u) == mass(w),
{
    assert forall|j: int| 0 <= j < u.ents.len() implies body_masses()(#[trigger] u.ents[j])
        == body_masses()(w.ents[j]) by {}
    crate::sums::lemma_sum_eq(u.ents, w.ents, body_masses(), body_masses());
    assert forall|j: int| 0 <= j < u.ents.len() implies shaped(#[trigger] u.ents[j]) by {
        assert(shaped(w.ents[j]));
    }
    assert forall|j: int| 0 <= j < u.ents.len() && (#[trigger] u.ents[j]).alive implies u.ents[j].age
        < u64::MAX by {
        assert(w.ents[j].alive);
    }
    assert forall|i: int, j: int| 0 <= i < j < u.ents.len() implies (#[trigger] u.ents[i]).id < (
    #[trigger] u.ents[j]).id by {
        assert(u.ents[i].id == w.ents[i].id && u.ents[j].id == w.ents[j].id);
    }
    assert forall|i: int| 0 <= i < u.ents.len() implies (#[trigger] u.ents[i]).id < u.next_id by {
        assert(u.ents[i].id == w.ents[i].id);
    }
}

/// Clamp a position into the square.
pub open spec fn clamped(size: Fx, p: V2) -> V2 {
    V2 { x: p.x.spec_clamp(Fx(0), size), y: p.y.spec_clamp(Fx(0), size) }
}

/// The world after a birth.
pub open spec fn spawned(w: WorldV, race: Race, at: V2, size: u16) -> WorldV {
    let e = newborn(
        w.next_id,
        race.element,
        clamped(w.size, at),
        w.seed,
        w.tick,
        w.races[race.at()],
    );
    WorldV {
        ents: w.ents.push(EntityV { size, ..e }),
        next_id: (w.next_id + 1) as u32,
        stats: Stats { births: (w.stats.births + 1) as u64, ..w.stats },
        ..w
    }
}

/// A birth keeps the invariant, brings no material and puts the newborn inside.
pub proof fn law_birth_keeps_the_books(w: WorldV, race: Race, at: V2, size: u16)
    requires
        w.wf(),
        w.next_id < u32::MAX,
    ensures
        spawned(w, race, at, size).wf(),
        mass(spawned(w, race, at, size)) == mass(w),
        w.inside() ==> spawned(w, race, at, size).inside(),
{
    let u = spawned(w, race, at, size);
    let e = u.ents.last();
    assert(u.ents =~= w.ents.push(e));
    lemma_sum_push(w.ents, e, body_masses());
    assert(body_mass(e) == 0) by {
        assert(sum_by(e.items, item_mass()) == 0);
    }
    assert forall|i: int| 0 <= i < u.ents.len() implies shaped(#[trigger] u.ents[i]) by {
        if i < w.ents.len() {
            assert(u.ents[i] == w.ents[i]);
        }
    }
    assert forall|i: int| 0 <= i < u.ents.len() && (#[trigger] u.ents[i]).alive implies u.ents[i].age
        < u64::MAX by {
        if i < w.ents.len() {
            assert(u.ents[i] == w.ents[i]);
        }
    }
    assert forall|i: int, j: int| 0 <= i < j < u.ents.len() implies (#[trigger] u.ents[i]).id < (
    #[trigger] u.ents[j]).id by {
        assert(u.ents[i] == w.ents[i]);
        if j < w.ents.len() {
            assert(u.ents[j] == w.ents[j]);
        }
    }
    assert forall|i: int| 0 <= i < u.ents.len() implies (#[trigger] u.ents[i]).id < u.next_id by {
        if i < w.ents.len() {
            assert(u.ents[i] == w.ents[i]);
        }
    }
    if w.inside() {
        assert forall|i: int| 0 <= i < u.ents.len() implies in_square(
            u.size,
            (#[trigger] u.ents[i]).pos,
        ) by {
            if i < w.ents.len() {
                assert(u.ents[i] == w.ents[i]);
            }
        }
    }
}

/// A coordinate for the `salt`-th seeded body.
pub open spec fn scattered(w: WorldV, salt: int, axis: u64) -> Fx {
    let n = if w.size.floor() > 1 {
        w.size.floor()
    } else {
        1
    };
    Fx::of_int(draw_below(w.seed, axis, salt as u32, Channel::SpawnPlacement, n as u32))
}

/// The world after `k` bodies of the race at position `r` have been seeded.
pub open spec fn seeded_race(w: WorldV, r: int, k: int) -> WorldV
    decreases k,
{
    if k <= 0 {
        w
    } else {
        let u = seeded_race(w, r, k - 1);
        let salt = r * 7919 + (k - 1);
        let at = V2 { x: scattered(u, salt, 0), y: scattered(u, salt, 1) };
        spawned(u, race_at(r), at, 1000)
    }
}

/// The world after `per_race` bodies of each of the first `n` races have been
/// seeded.
pub open spec fn seeded(w: WorldV, n: int, per_race: int) -> WorldV
    decreases n,
{
    if n <= 0 {
        w
    } else {
        seeded_race(seeded(w, n - 1, per_race), n - 1, per_race)
    }
}

/// Position of the first body with the given id, or the length.
pub open spec fn id_pos(ents: Seq<EntityV>, id: u32) -> int
    decreases ents.len(),
{
    if ents.len() == 0 {
        0
    } else if ents[0].id == id {
        0
    } else {
        1 + id_pos(ents.skip(1), id)
    }
}

/// The body with the given id, if there is one.
pub open spec fn find_id(ents: Seq<EntityV>, id: u32) -> Option<int> {
    if id_pos(ents, id) < ents.len() {
        Some(id_pos(ents, id))
    } else {
        None
    }
}

pub proof fn lemma_id_pos(ents: Seq<EntityV>, id: u32, i: int)
    requires
        0 <= i <= ents.len(),
        forall|j: int| 0 <= j < i ==> (#[trigger] ents[j]).id != id,
        i < ents.len() ==> ents[i].id == id,
    ensures
        id_pos(ents, id) == i,
    decreases ents.len(),
{
    if ents.len() > 0 && i > 0 {
        assert(ents[0].id != id);
        let t = ents.skip(1);
        assert forall|j: int| 0 <= j < i - 1 implies (#[trigger] t[j]).id != id by {
            assert(t[j] == ents[j + 1]);
        }
        lemma_id_pos(t, id, i - 1);
    }
}

pub proof fn lemma_find_id(ents: Seq<EntityV>, id: u32)
    ensures
        0 <= id_pos(ents, id) <= ents.len(),
        id_pos(ents, id) < ents.len() ==> ents[id_pos(ents, id)].id == id,
    decreases ents.len(),
{
    if ents.len() > 0 && ents[0].id != id {
        let t = ents.skip(1);
        lemma_find_id(t, id);
    }
}

/// How many bodies live.
pub open spec fn living(ents: Seq<EntityV>) -> int
    decreases ents.len(),
{
    if ents.len() == 0 {
        0
    } else {
        living(ents.drop_last()) + (if ents.last().alive {
            1
        } else {
            0int
        })
    }
}

/// How many bodies of element `e` live.
pub open spec fn living_of(ents: Seq<EntityV>, e: Element) -> int
    decreases ents.len(),
{
    if ents.len() == 0 {
        0
    } else {
        living_of(ents.drop_last(), e) + (if ents.last().alive && ents.last().element == e {
            1
        } else {
            0int
        })
    }
}

/// A fresh world.
pub open spec fn is_genesis(w: WorldV, seed: u64, size_cells: i32) -> bool {
    let side = crate::tile::clamp_int(size_cells as int, 1, 32767);
    &&& w.seed == seed
    &&& w.tick == 0
    &&& w.ents == Seq::<EntityV>::empty()
    &&& w.next_id == 1
    &&& w.size == Fx::of_int(side)
    &&& w.races == Seq::new(10, |i: int| shipped(race_at(i)))
    &&& w.terrain.side == side
    &&& w.terrain.cells == Seq::new((side * side) as nat, |c: int| seq![0u16, 0, 1000, 0, 0])
    &&& w.terrain.overflow == Seq::new(10, |i: int| seq![0u64, 0, 0, 0, 0])
    &&& w.terrain_tuning.is_shipped()
    &&& w.ecology.is_shipped()
    &&& w.behavior.is_shipped()
    &&& w.propagation.is_shipped()
    &&& w.ground == Seq::<GroundItem>::empty()
    &&& w.decay.band == w.terrain_tuning.ground_decay
    &&& w.decay.bucket == w.decay.band.spec_burst_cap()
    &&& w.stats == no_stats()
}

impl World {
    /// A fresh world of `size_cells` cells per side, clamped to what a
    /// position can hold, with the shipped tables.
    pub fn new(seed: u64, size_cells: i32) -> (w: World)
        ensures
            is_genesis(w@, seed, size_cells),
            w@.wf(),
            w@.inside(),
    {
        let side: i32 = crate::tile::clamp_i32(size_cells, 1, 32_767);
        let mut terrain: Terrain = Terrain::new(side);
        terrain.seed_uniform(Element::Earth, GENESIS_EARTH);
        let terrain_tuning: TerrainTuning = TerrainTuning::default();
        let w = World {
            seed,
            tick: 0,
            entities: Vec::new(),
            next_id: 1,
            size: Fx::from_int(side),
            races: seeded_races(),
            terrain,
            ground_decay_gov: Governor::new(terrain_tuning.ground_decay),
            terrain_tuning,
            ecology: EcologyTuning::default(),
            behavior: BehaviorTuning::default(),
            propagation: PropagationTuning::default(),
            ground_items: Vec::new(),
            stats: Stats::default(),
        };
        proof {
            let v = w@;
            assert(v.ents =~= Seq::<EntityV>::empty());
            assert(v.races =~= Seq::new(10, |i: int| shipped(race_at(i))));
            assert forall|i: int| 0 <= i < 10 implies (#[trigger] v.races[i]).actions_valid() by {
                crate::race::law_shipped_rows_are_valid(race_at(i));
            }
            let want = Seq::new((side * side) as nat, |c: int| seq![0u16, 0, 1000, 0, 0]);
            assert forall|c: int| 0 <= c < v.terrain.cells.len() implies #[trigger] v.terrain.cells[c]
                =~= want[c] by {}
            assert(v.terrain.cells =~= want);
            let banks = Seq::new(10, |i: int| seq![0u64, 0, 0, 0, 0]);
            assert forall|c: int| 0 <= c < 10 implies #[trigger] v.terrain.overflow[c]
                =~= banks[c] by {}
            assert(v.terrain.overflow =~= banks);
            lemma_genesis_mass(v, side as int);
        }
        w
    }

    /// Swap the race table. A body alive keeps the lifespan it rolled.
    pub fn retune(&mut self, races: PerRace<RaceAttrs>)
        ensures
            final(self)@ == (WorldV { races: rows(races@), ..old(self)@ }),
    {
        self.races = races;
    }

    /// Swap the terrain table. The governor of the ground's decay goes over
    /// to the new band, and keeps what it has banked as far as the band lets
    /// it.
    pub fn retune_terrain(&mut self, terrain_tuning: TerrainTuning)
        ensures
            final(self)@ == (WorldV {
                terrain_tuning,
                decay: old(self)@.decay.rebanded(terrain_tuning.ground_decay),
                ..old(self)@
            }),
            final(self)@.decay.wf(),
    {
        self.ground_decay_gov.set_band(terrain_tuning.ground_decay);
        self.terrain_tuning = terrain_tuning;
    }

    pub fn retune_ecology(&mut self, ecology: EcologyTuning)
        ensures
            final(self)@ == (WorldV { ecology, ..old(self)@ }),
    {
        self.ecology = ecology;
    }

    pub fn retune_behavior(&mut self, behavior: BehaviorTuning)
        ensures
            final(self)@ == (WorldV { behavior, ..old(self)@ }),
    {
        self.behavior = behavior;
    }

    pub fn retune_propagation(&mut self, propagation: PropagationTuning)
        ensures
            final(self)@ == (WorldV { propagation, ..old(self)@ }),
    {
        self.propagation = propagation;
    }

    /// A starting population, `per_race` of each race, placed by hash.
    pub fn seed_population(&mut self, per_race: u32)
        requires
            old(self)@.wf(),
            old(self).next_id + 10 * per_race <= u32::MAX,
            old(self).stats.births + 10 * per_race <= u64::MAX,
        ensures
            final(self)@ == seeded(old(self)@, 10, per_race as int),
            final(self)@.wf(),
            old(self)@.inside() ==> final(self)@.inside(),
            final(self)@.next_id == old(self)@.next_id + 10 * per_race,
            final(self)@.ents.len() == old(self)@.ents.len() + 10 * per_race,
            mass(final(self)@) == mass(old(self)@),
    {
        let ghost before = self@;
        let mut r: usize = 0;
        while r < 10
            invariant
                r <= 10,
                self@ == seeded(before, r as int, per_race as int),
                self@.wf(),
                before.inside() ==> self@.inside(),
                mass(self@) == mass(before),
                self.next_id == before.next_id + r * per_race,
                self@.ents.len() == before.ents.len() + r * per_race,
                self.stats.births == before.stats.births + r * per_race,
                before.next_id + 10 * per_race <= u32::MAX,
                before.stats.births + 10 * per_race <= u64::MAX,
            decreases 10 - r,
        {
            let ghost start = self@;
            let race: Race = Race::from_index(r);
            let mut k: u32 = 0;
            proof {
                assert((r + 1) * per_race == r * per_race + per_race) by (nonlinear_arith);
                assert((r + 1) * per_race <= 10 * per_race) by (nonlinear_arith)
                    requires
                        r < 10,
                        0 <= per_race,
                ;
            }
            while k < per_race
                invariant
                    k <= per_race,
                    r < 10,
                    race == race_at(r as int),
                    self@ == seeded_race(start, r as int, k as int),
                    self@.wf(),
                    start.inside() ==> self@.inside(),
                    mass(self@) == mass(start),
                    self.next_id == start.next_id + k,
                    self@.ents.len() == start.ents.len() + k,
                    self.stats.births == start.stats.births + k,
                    start.next_id + per_race <= u32::MAX,
                    start.stats.births + per_race <= u64::MAX,
                    10 * per_race <= u32::MAX,
                decreases per_race - k,
            {
                let salt: u32 = r as u32 * 7919 + k;
                let x: Fx = self.scatter(salt, 0);
                let y: Fx = self.scatter(salt, 1);
                self.spawn(race, V2::new(x, y));
                k = k + 1;
            }
            r = r + 1;
        }
    }

    fn scatter(&self, salt: u32, axis: u32) -> (r: Fx)
        ensures
            r == scattered(self@, salt as int, axis as u64),
    {
        let f: i32 = self.size.floor_int();
        let n: u32 = if f > 1 {
            f as u32
        } else {
            1
        };
        let r: u32 = rand_below(self.seed, axis as u64, salt, Channel::SpawnPlacement, n);
        Fx::from_int(r as i32)
    }

    /// Add a fully grown body and return its id.
    pub fn spawn(&mut self, race: Race, at: V2) -> (id: u32)
        requires
            old(self)@.wf(),
            old(self).next_id < u32::MAX,
            old(self).stats.births < u64::MAX,
        ensures
            final(self)@ == spawned(old(self)@, race, at, 1000),
            final(self)@.wf(),
            old(self)@.inside() ==> final(self)@.inside(),
            mass(final(self)@) == mass(old(self)@),
            id == old(self).next_id,
    {
        self.spawn_sized(race, at, 1000)
    }

    /// Add a body of the given size, in per-mille of full size.
    pub fn spawn_sized(&mut self, race: Race, at: V2, size: u16) -> (id: u32)
        requires
            old(self)@.wf(),
            old(self).next_id < u32::MAX,
            old(self).stats.births < u64::MAX,
        ensures
            final(self)@ == spawned(old(self)@, race, at, size),
            final(self)@.wf(),
            old(self)@.inside() ==> final(self)@.inside(),
            mass(final(self)@) == mass(old(self)@),
            id == old(self).next_id,
    {
        let ghost before = self@;
        proof {
            law_birth_keeps_the_books(before, race, at, size);
            crate::race::law_race_positions(race, 0);
        }
        let id: u32 = self.next_id;
        self.next_id = id + 1;
        let pos: V2 = self.clamp_to_bounds(at);
        let mut e: Entity = Entity::spawn(
            id,
            race.element,
            pos,
            self.seed,
            self.tick,
            self.races.get(race),
        );
        e.size = size;
        self.entities.push(e);
        self.stats.births = self.stats.births + 1;
        proof {
            assert(self@.ents =~= spawned(before, race, at, size).ents);
            assert(self@ =~= spawned(before, race, at, size));
        }
        id
    }

    pub fn clamp_to_bounds(&self, p: V2) -> (r: V2)
        ensures
            r == clamped(self.size, p),
    {
        V2::new(p.x.clamp(Fx::zero(), self.size), p.y.clamp(Fx::zero(), self.size))
    }

    /// Where the body with this id is in `entities`, by binary search.
    pub fn find(&self, id: u32) -> (r: Option<usize>)
        requires
            ids_ascend(self@.ents, self.next_id),
        ensures
            match r {
                Some(i) => find_id(self@.ents, id) == Some(i as int) && i < self.entities@.len()
                    && self.entities@[i as int].id == id,
                None => find_id(self@.ents, id) is None,
            },
    {
        let ghost ents = self@.ents;
        let mut lo: usize = 0;
        let mut hi: usize = self.entities.len();
        while lo < hi
            invariant
                ents == self@.ents,
                ids_ascend(ents, self.next_id),
                lo <= hi <= ents.len(),
                forall|j: int| 0 <= j < lo ==> (#[trigger] ents[j]).id < id,
                forall|j: int| hi <= j < ents.len() ==> (#[trigger] ents[j]).id > id,
            decreases hi - lo,
        {
            let mid: usize = lo + (hi - lo) / 2;
            let here: u32 = self.entities[mid].id;
            assert(ents[mid as int].id == here);
            if here == id {
                proof {
                    lemma_id_pos(ents, id, mid as int);
                }
                return Some(mid);
            }
            if here < id {
                lo = mid + 1;
            } else {
                hi = mid;
            }
        }
        proof {
            lemma_id_pos(ents, id, ents.len() as int);
        }
        None
    }

    pub fn alive_count(&self) -> (r: usize)
        ensures
            r == living(self@.ents),
    {
        let ghost ents = self@.ents;
        let mut n: usize = 0;
        let mut i: usize = 0;
        while i < self.entities.len()
            invariant
                ents == self@.ents,
                i <= ents.len(),
                n <= i,
                n == living(ents.take(i as int)),
            decreases self.entities.len() - i,
        {
            assert(ents.take(i + 1).drop_last() =~= ents.take(i as int));
            if self.entities[i].alive {
                n = n + 1;
            }
            i = i + 1;
        }
        assert(ents.take(i as int) =~= ents);
        n
    }

    /// How many bodies of each element live.
    pub fn population(&self) -> (p: PerElement<u32>)
        requires
            self.entities@.len() <= u32::MAX,
        ensures
            forall|e: Element| #[trigger] p@[e.at()] == living_of(self@.ents, e),
    {
        let ghost ents = self@.ents;
        let mut p: PerElement<u32> = PerElement::filled(0u32);
        let mut i: usize = 0;
        while i < self.entities.len()
            invariant
                ents == self@.ents,
                ents.len() <= u32::MAX,
                i <= ents.len(),
                forall|e: Element|
                    #[trigger] p@[e.at()] == living_of(ents.take(i as int), e) && p@[e.at()] <= i,
            decreases self.entities.len() - i,
        {
            let ghost q = p@;
            assert(ents.take(i + 1).drop_last() =~= ents.take(i as int));
            if self.entities[i].alive {
                let el: Element = self.entities[i].element;
                assert(q[el.at()] <= i);
                p.set(el, *p.get(el) + 1);
            }
            proof {
                assert forall|e: Element| #[trigger] p@[e.at()] == living_of(ents.take(i + 1), e)
                    && p@[e.at()] <= i + 1 by {
                    assert(q[e.at()] == living_of(ents.take(i as int), e));
                }
            }
            i = i + 1;
        }
        assert(ents.take(i as int) =~= ents);
        p
    }
}

proof fn lemma_genesis_mass(v: WorldV, side: int)
    requires
        1 <= side <= 32767,
        v.ents.len() == 0,
        v.ground.len() == 0,
        v.terrain.cells == Seq::new((side * side) as nat, |c: int| seq![0u16, 0, 1000, 0, 0]),
        v.terrain.overflow == Seq::new(10, |i: int| seq![0u64, 0, 0, 0, 0]),
    ensures
        mass(v) <= u64::MAX,
{
    assert(side * side <= 32767 * 32767) by (nonlinear_arith)
        requires
            1 <= side <= 32767,
    ;
    let f = crate::terrain::cell_mass();
    let g = crate::terrain::bank_mass();
    lemma_sum_const(v.terrain.cells, f, 1000);
    lemma_sum_const(v.terrain.overflow, g, 0);
}

proof fn lemma_sum_const<A>(s: Seq<A>, f: spec_fn(A) -> int, k: int)
    requires
        forall|i: int| 0 <= i < s.len() ==> f(#[trigger] s[i]) == k,
    ensures
        sum_by(s, f) == k * s.len(),
    decreases s.len(),
{
    if s.len() > 0 {
        let p = s.drop_last();
        assert forall|i: int| 0 <= i < p.len() implies f(#[trigger] p[i]) == k by {
            assert(p[i] == s[i]);
        }
        lemma_sum_const(p, f, k);
        assert(f(s[s.len() - 1]) == k);
        assert(k * s.len() == k * (s.len() - 1) + k) by (nonlinear_arith);
    } else {
        assert(k * 0 == 0) by (nonlinear_arith);
    }
}

// ----------------------------------------------------------------------
// The state hash.
// ----------------------------------------------------------------------

/// The state after hashing the bodies in order.
pub open spec fn entities_digest(h: u64, s: Seq<EntityV>) -> u64
    decreases s.len(),
{
    if s.len() == 0 {
        h
    } else {
        entity_digest(entities_digest(h, s.drop_last()), s.last())
    }
}

/// The state after hashing the rows in order.
pub open spec fn rows_digest(h: u64, s: Seq<RaceAttrsV>) -> u64
    decreases s.len(),
{
    if s.len() == 0 {
        h
    } else {
        attrs_digest(rows_digest(h, s.drop_last()), s.last())
    }
}

/// The state after hashing the piles in order.
pub open spec fn ground_digest(h: u64, s: Seq<GroundItem>) -> u64
    decreases s.len(),
{
    if s.len() == 0 {
        h
    } else {
        s.last().digest(ground_digest(h, s.drop_last()))
    }
}

pub open spec fn stats_digest(h: u64, s: Stats) -> u64 {
    let h = fnv(h, le64(s.births));
    let h = fnv(h, le64(s.deaths));
    let h = fnv(h, le64(s.collisions));
    let h = fnv(h, le64(s.actions));
    let h = fnv(h, le64(s.feedings));
    let h = fnv(h, le64(s.starved));
    let h = fnv(h, le64(s.grazed));
    let h = fnv(h, le64(s.hunted));
    let h = fnv(h, le64(s.fled));
    let h = fnv(h, le64(s.propagated));
    fnv(h, le64(s.rooted_rejected))
}

/// The canonical hash of a world's state: everything that can affect a later
/// tick goes into it.
#[verifier::opaque]
pub open spec fn world_hash(w: WorldV) -> u64 {
    let h = fnv(FNV_OFFSET, le64(w.seed));
    let h = fnv(h, le64(w.tick));
    let h = fnv(h, le32(w.next_id));
    let h = fnv(h, le32(w.size.0 as u32));
    let h = fnv(h, le32(w.ents.len() as u32));
    let h = entities_digest(h, w.ents);
    let h = terrain_digest(h, w.terrain);
    let h = rows_digest(h, w.races);
    let h = w.terrain_tuning.digest(h);
    let h = w.ecology.digest(h);
    let h = w.behavior.digest(h);
    let h = w.propagation.digest(h);
    let h = governor_digest(h, w.decay);
    let h = fnv(h, le32(w.ground.len() as u32));
    let h = ground_digest(h, w.ground);
    stats_digest(h, w.stats)
}

impl Hashable for Stats {
    open spec fn digest(&self, h: u64) -> u64 {
        stats_digest(h, *self)
    }

    fn hash_into(&self, h: &mut Hasher) {
        h.u64(self.births).u64(self.deaths).u64(self.collisions).u64(self.actions).u64(
            self.feedings,
        ).u64(self.starved).u64(self.grazed).u64(self.hunted).u64(self.fled).u64(
            self.propagated,
        ).u64(self.rooted_rejected);
    }
}

impl World {
    fn hash_entities(&self, h: &mut Hasher)
        ensures
            final(h).0 == entities_digest(old(h).0, self@.ents),
    {
        let ghost ents = self@.ents;
        let ghost start = h.0;
        let mut i: usize = 0;
        while i < self.entities.len()
            invariant
                ents == self@.ents,
                i <= ents.len(),
                h.0 == entities_digest(start, ents.take(i as int)),
            decreases self.entities.len() - i,
        {
            assert(ents.take(i + 1).drop_last() =~= ents.take(i as int));
            assert(ents[i as int] == self.entities@[i as int]@);
            self.entities[i].hash_into(h);
            i = i + 1;
        }
        assert(ents.take(i as int) =~= ents);
    }

    fn hash_rows(&self, h: &mut Hasher)
        ensures
            final(h).0 == rows_digest(old(h).0, self@.races),
    {
        let ghost all = self@.races;
        let ghost start = h.0;
        let mut i: usize = 0;
        while i < 10
            invariant
                all == self@.races,
                i <= 10,
                h.0 == rows_digest(start, all.take(i as int)),
            decreases 10 - i,
        {
            assert(all.take(i + 1).drop_last() =~= all.take(i as int));
            assert(all[i as int] == self.races@[i as int]@);
            self.races.0[i].hash_into(h);
            i = i + 1;
        }
        assert(all.take(i as int) =~= all);
    }

    fn hash_ground(&self, h: &mut Hasher)
        ensures
            final(h).0 == ground_digest(old(h).0, self@.ground),
    {
        let ghost all = self@.ground;
        let ghost start = h.0;
        let mut i: usize = 0;
        while i < self.ground_items.len()
            invariant
                all == self.ground_items@,
                i <= all.len(),
                h.0 == ground_digest(start, all.take(i as int)),
            decreases self.ground_items.len() - i,
        {
            assert(all.take(i + 1).drop_last() =~= all.take(i as int));
            self.ground_items[i].hash_into(h);
            i = i + 1;
        }
        assert(all.take(i as int) =~= all);
    }

    /// The canonical state hash.
    pub fn state_hash(&self) -> (r: u64)
        ensures
            r == world_hash(self@),
    {
        reveal(world_hash);
        let mut h = Hasher::new();
        h.u64(self.seed).u64(self.tick).u32(self.next_id).i32(self.size.raw()).u32(
            #[verifier::truncate] (self.entities.len() as u32),
        );
        self.hash_entities(&mut h);
        self.terrain.hash_into(&mut h);
        self.hash_rows(&mut h);
        self.terrain_tuning.hash_into(&mut h);
        self.ecology.hash_into(&mut h);
        self.behavior.hash_into(&mut h);
        self.propagation.hash_into(&mut h);
        self.ground_decay_gov.hash_into(&mut h);
        h.u32(#[verifier::truncate] (self.ground_items.len() as u32));
        self.hash_ground(&mut h);
        self.stats.hash_into(&mut h);
        h.finish()
    }
}

} // verus!
