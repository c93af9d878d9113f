//! What an animal wants this tick: flee, hunt or graze, in that order.
//!
//! The drive is derived afresh every tick from hunger, from what is near and
//! from the terrain, and never stored.
//!
//! - **Flee** when the body's own cell holds more than `flee_threshold` of the
//!   element that eats it.
//! - **Hunt** when hunger has reached satiation and prey is within
//!   `sense_radius`: a plant of the body's own element, or an animal one step
//!   back on the ring, the pairs that feeding itself matches. The nearest
//!   wins, and of two equally near the one with the lower id.
//! - **Graze** otherwise.
//!
//! A decision comes in two forms. [`drive`] gives a heading to turn toward,
//! for bodies that move continuously; [`ai_decide_move`] gives a cell to step
//! to, for bodies that move cell by cell, and [`player_decide_move`] is its
//! counterpart for a body that a player directs.
use crate::ecology::EcologyTuning;
use crate::element::Element;
use crate::entity::{views, Entity, EntityV};
use crate::fx::{v2_zero, Fx, V2};
use crate::hash::{digest_i32s, digest_u16s, Hashable, Hasher};
use crate::race::{race_at, Kind, PerRace, Race};
use crate::rand::{draw_below, rand_below, Channel};
use crate::spatial::{law_a_query_finds_the_ring, lemma_ring_members, ring, SpatialIndex};
use crate::terrain::{cell_at, cell_index, cell_xy, Terrain, TerrainV};
use crate::tile::{
    chebyshev, chebyshev_dist, spec_step_toward, step_toward, Tile, NEIGHBOURS_4, NEIGHBOURS_8,
};
use vstd::prelude::*;

verus! {

#[derive(Clone, Copy, PartialEq, Eq, Debug, Structural)]
pub enum Drive {
    Graze,
    Hunt,
    Flee,
}

const FLEE_THRESHOLD_DEFAULT: u16 = 8_000;

const SENSE_RADIUS_DEFAULT: i32 = 8;

/// The rates and reaches that the drive reads. Plant rows are never read.
#[derive(Clone, Copy, PartialEq, Eq, Debug)]
pub struct BehaviorTuning {
    /// Stock of the element that eats a body, at its own cell, above which it
    /// flees.
    pub flee_threshold: PerRace<u16>,
    /// How far a body senses prey, in cells.
    pub sense_radius: PerRace<i32>,
    /// The part of the way to the desired heading that a body turns per tick:
    /// zero never turns, one turns at once.
    pub turn_rate: PerRace<Fx>,
}

impl BehaviorTuning {
    /// The shipped rates and reaches.
    pub open spec fn is_shipped(self) -> bool {
        &&& forall|i: int|
            0 <= i < 10 ==> #[trigger] self.flee_threshold@[i] == (if race_at(i).kind
                == Kind::Animal {
                8000u16
            } else {
                0u16
            })
        &&& forall|i: int|
            0 <= i < 10 ==> #[trigger] self.sense_radius@[i] == (if race_at(i).kind
                == Kind::Animal {
                8i32
            } else {
                0i32
            })
        &&& forall|i: int|
            0 <= i < 10 ==> #[trigger] self.turn_rate@[i] == (if race_at(i).kind == Kind::Animal {
                Fx::of_ratio(1, 4)
            } else {
                Fx(0)
            })
    }
}

impl Default for BehaviorTuning {
    fn default() -> (r: BehaviorTuning)
        ensures
            r.is_shipped(),
    {
        let mut flee_threshold: PerRace<u16> = PerRace::filled(0u16);
        let mut sense_radius: PerRace<i32> = PerRace::filled(0i32);
        let mut turn_rate: PerRace<Fx> = PerRace::filled(Fx::zero());
        let mut k: usize = 0;
        while k < 10
            invariant
                k <= 10,
                forall|i: int|
                    0 <= i < 10 ==> #[trigger] flee_threshold@[i] == (if i < k && race_at(i).kind
                        == Kind::Animal {
                        8000u16
                    } else {
                        0u16
                    }),
                forall|i: int|
                    0 <= i < 10 ==> #[trigger] sense_radius@[i] == (if i < k && race_at(i).kind
                        == Kind::Animal {
                        8i32
                    } else {
                        0i32
                    }),
                forall|i: int|
                    0 <= i < 10 ==> #[trigger] turn_rate@[i] == (if i < k && race_at(i).kind
                        == Kind::Animal {
                        Fx::of_ratio(1, 4)
                    } else {
                        Fx(0)
                    }),
            decreases 10 - k,
        {
            let r: Race = Race::from_index(k);
            if r.kind == Kind::Animal {
                flee_threshold.set(r, FLEE_THRESHOLD_DEFAULT);
                sense_radius.set(r, SENSE_RADIUS_DEFAULT);
                turn_rate.set(r, Fx::ratio(1, 4));
            }
            k = k + 1;
        }
        BehaviorTuning { flee_threshold, sense_radius, turn_rate }
    }
}

/// The raw values of ten fixed-point numbers.
fn raw_values(p: &PerRace<Fx>) -> (r: [i32; 10])
    ensures
        r@ == crate::ecology::raws(p@),
{
    let r: [i32; 10] = [
        p.0[0].0,
        p.0[1].0,
        p.0[2].0,
        p.0[3].0,
        p.0[4].0,
        p.0[5].0,
        p.0[6].0,
        p.0[7].0,
        p.0[8].0,
        p.0[9].0,
    ];
    assert(r@ =~= crate::ecology::raws(p@));
    r
}

impl Hashable for BehaviorTuning {
    open spec fn digest(&self, h: u64) -> u64 {
        let h = digest_u16s(h, self.flee_threshold@);
        let h = digest_i32s(h, self.sense_radius@);
        digest_i32s(h, crate::ecology::raws(self.turn_rate@))
    }

    fn hash_into(&self, h: &mut Hasher) {
        h.u16s(self.flee_threshold.0.as_slice());
        h.i32s(self.sense_radius.0.as_slice());
        h.i32s(raw_values(&self.turn_rate).as_slice());
    }
}

/// The cell a body stands in.
pub open spec fn tile_of(side: int, e: EntityV) -> Tile {
    Tile { x: cell_xy(side, e.pos).0 as i32, y: cell_xy(side, e.pos).1 as i32 }
}

/// The stock of `el` at a cell, coordinates clamped to the grid.
pub open spec fn stock_on(t: TerrainV, el: Element, at: Tile) -> u16 {
    t.stock(cell_index(t.side, at.x as int, at.y as int), el)
}

/// Whether `e` flees where it stands.
pub open spec fn in_danger(e: EntityV, t: TerrainV, tuning: BehaviorTuning) -> bool {
    t.stock(cell_at(t.side, e.pos), e.element.spec_eaten_by())
        > tuning.flee_threshold@[e.race().at()]
}

/// Whether `o` is prey of `e`: a plant of its own element, or an animal that
/// its element eats.
pub open spec fn is_prey_of(e: EntityV, o: EntityV) -> bool {
    ||| o.kind == Kind::Plant && o.element == e.element.spec_eats_plant()
    ||| o.kind == Kind::Animal && o.element == e.element.spec_eats_animal()
}

fn is_prey(e: &Entity, o: &Entity) -> (r: bool)
    ensures
        r == is_prey_of(e@, o@),
{
    (o.kind == Kind::Plant && o.element == e.element.eats_plant()) || (o.kind == Kind::Animal
        && o.element == e.element.eats_animal())
}

/// The `k`-th neighbour of `at`: N, E, S, W, then NE, SE, SW, NW.
pub open spec fn neighbour_8(at: Tile, k: int) -> Tile {
    at.spec_offset(NEIGHBOURS_8@[k].0, NEIGHBOURS_8@[k].1)
}

/// Which of the first `k + 1` neighbours of `at` holds the least of `el`, the
/// earliest of those that hold equally little.
pub open spec fn safest(t: TerrainV, el: Element, at: Tile, k: int) -> int
    decreases k,
{
    if k <= 0 {
        0
    } else {
        let b = safest(t, el, at, k - 1);
        if stock_on(t, el, neighbour_8(at, k)) < stock_on(t, el, neighbour_8(at, b)) {
            k
        } else {
            b
        }
    }
}

/// The prey nearest to body `i`, in cells, among the first `k` of `s` and
/// within `reach`; of two equally near the one with the lower id.
pub open spec fn nearest_by_cell(
    ents: Seq<EntityV>,
    side: int,
    s: Seq<u32>,
    i: int,
    reach: int,
    k: int,
) -> Option<int>
    decreases k,
{
    if k <= 0 {
        None
    } else {
        let best = nearest_by_cell(ents, side, s, i, reach, k - 1);
        let j = s[k - 1] as int;
        let d = chebyshev(tile_of(side, ents[i]), tile_of(side, ents[j]));
        if j == i || !ents[j].alive || !is_prey_of(ents[i], ents[j]) || d > reach {
            best
        } else {
            match best {
                None => Some(j),
                Some(b) => {
                    let bd = chebyshev(tile_of(side, ents[i]), tile_of(side, ents[b]));
                    if d < bd || (d == bd && ents[j].id < ents[b].id) {
                        Some(j)
                    } else {
                        best
                    }
                },
            }
        }
    }
}

/// The prey nearest to body `i` among the first `k` of `s` and within
/// `reach`, by straight-line distance; of two equally near the one with the
/// lower id.
pub open spec fn nearest_by_len(
    ents: Seq<EntityV>,
    s: Seq<u32>,
    i: int,
    reach: Fx,
    k: int,
) -> Option<int>
    decreases k,
{
    if k <= 0 {
        None
    } else {
        let best = nearest_by_len(ents, s, i, reach, k - 1);
        let j = s[k - 1] as int;
        let d = ents[j].pos.minus(ents[i].pos).spec_len();
        if j == i || !ents[j].alive || !is_prey_of(ents[i], ents[j]) || d.0 > reach.0 {
            best
        } else {
            match best {
                None => Some(j),
                Some(b) => {
                    let bd = ents[b].pos.minus(ents[i].pos).spec_len();
                    if d.0 < bd.0 || (d.0 == bd.0 && ents[j].id < ents[b].id) {
                        Some(j)
                    } else {
                        best
                    }
                },
            }
        }
    }
}

/// The cell-by-cell decision of body `i`.
pub open spec fn ai_decision(
    ents: Seq<EntityV>,
    t: TerrainV,
    ecology: EcologyTuning,
    tuning: BehaviorTuning,
    seed: u64,
    tick: u64,
    i: int,
    goal: Option<Tile>,
) -> (Drive, Option<Tile>) {
    let e = ents[i];
    let at = tile_of(t.side, e);
    let reach = tuning.sense_radius@[e.race().at()] as int;
    let near = ring(ents, t.side, at.x as int, at.y as int, reach);
    let prey = if e.hunger >= ecology.satiation@[e.element.at()] {
        nearest_by_cell(ents, t.side, near, i, reach, near.len() as int)
    } else {
        None
    };
    if in_danger(e, t, tuning) {
        (Drive::Flee, Some(neighbour_8(at, safest(t, e.element.spec_eaten_by(), at, 7))))
    } else {
        match prey {
            Some(j) => {
                let there = tile_of(t.side, ents[j]);
                (
                    Drive::Hunt,
                    if chebyshev(at, there) == 0 {
                        None
                    } else {
                        Some(spec_step_toward(at, there))
                    },
                )
            },
            None => (
                Drive::Graze,
                match goal {
                    Some(g) if g != at => Some(spec_step_toward(at, g)),
                    _ => {
                        let roll = draw_below(
                            seed,
                            tick,
                            e.id.wrapping_add(0x9A2E),
                            Channel::Wander,
                            9,
                        );
                        Some(if roll == 8 {
                            at
                        } else {
                            neighbour_8(at, roll)
                        })
                    },
                },
            ),
        }
    }
}

/// Decide one animal's step: away from danger to the neighbouring cell that
/// holds least of it, else toward the nearest prey when hungry, else toward
/// its goal, else to a random neighbouring cell or nowhere.
pub fn ai_decide_move(
    entities: &Vec<Entity>,
    terrain: &Terrain,
    index: &SpatialIndex,
    ecology: &EcologyTuning,
    tuning: &BehaviorTuning,
    seed: u64,
    tick: u64,
    i: usize,
    move_target: Option<Tile>,
) -> (r: (Drive, Option<Tile>))
    requires
        i < entities@.len(),
        entities@[i as int].alive,
        entities@[i as int].kind == Kind::Animal,
        terrain@.wf(),
        index.indexes(views(entities@), terrain.side as int),
    ensures
        r == ai_decision(
            views(entities@),
            terrain@,
            *ecology,
            *tuning,
            seed,
            tick,
            i as int,
            move_target,
        ),
{
    let ghost ents = views(entities@);
    let ghost side = terrain.side as int;
    let e: &Entity = &entities[i];
    let race: Race = e.race();
    let (x, y): (i32, i32) = terrain.cell_of(e.pos);
    let at: Tile = Tile::new(x, y);
    let danger_el: Element = e.element.eaten_by();
    if terrain.stock_at(e.pos, danger_el) > *tuning.flee_threshold.get(race) {
        let mut best: usize = 0;
        let n0: Tile = at.offset(NEIGHBOURS_8[0].0, NEIGHBOURS_8[0].1);
        let mut least: u16 = *terrain.cell(n0.x, n0.y).get(danger_el);
        let mut k: usize = 1;
        while k < 8
            invariant
                1 <= k <= 8,
                terrain@.wf(),
                best == safest(terrain@, danger_el, at, k - 1),
                best < 8,
                least == stock_on(terrain@, danger_el, neighbour_8(at, best as int)),
            decreases 8 - k,
        {
            let n: Tile = at.offset(NEIGHBOURS_8[k].0, NEIGHBOURS_8[k].1);
            let val: u16 = *terrain.cell(n.x, n.y).get(danger_el);
            if val < least {
                best = k;
                least = val;
            }
            k = k + 1;
        }
        return (Drive::Flee, Some(at.offset(NEIGHBOURS_8[best].0, NEIGHBOURS_8[best].1)));
    }
    if e.hunger >= *ecology.satiation.get(e.element) {
        let reach: i32 = *tuning.sense_radius.get(race);
        let near: Vec<u32> = index.query_ring(x, y, reach);
        proof {
            law_a_query_finds_the_ring(*index, ents, side, x as int, y as int, reach as int, near@);
            lemma_ring_members(ents, side, x as int, y as int, reach as int);
        }
        let mut nearest: Option<(usize, i32)> = None;
        let mut k: usize = 0;
        while k < near.len()
            invariant
                k <= near@.len(),
                ents == views(entities@),
                side == terrain.side,
                terrain@.wf(),
                i < entities@.len(),
                *e == entities@[i as int],
                at == tile_of(side, ents[i as int]),
                forall|m: int| 0 <= m < near@.len() ==> #[trigger] near@[m] < ents.len(),
                match nearest {
                    None => nearest_by_cell(
                        ents,
                        side,
                        near@,
                        i as int,
                        reach as int,
                        k as int,
                    ) is None,
                    Some((b, bd)) => {
                        &&& b < entities@.len()
                        &&& nearest_by_cell(ents, side, near@, i as int, reach as int, k as int)
                            == Some(b as int)
                        &&& bd == chebyshev(at, tile_of(side, ents[b as int]))
                    },
                },
            decreases near.len() - k,
        {
            let j: usize = near[k] as usize;
            let other: &Entity = &entities[j];
            assert(ents[j as int] == other@);
            if j != i && other.alive && is_prey(e, other) {
                let (ox, oy): (i32, i32) = terrain.cell_of(other.pos);
                let d: i32 = chebyshev_dist(at, Tile::new(ox, oy));
                if d <= reach {
                    let take: bool = match nearest {
                        None => true,
                        Some((b, bd)) => d < bd || (d == bd && other.id < entities[b].id),
                    };
                    if take {
                        nearest = Some((j, d));
                    }
                }
            }
            k = k + 1;
        }
        if let Some((j, d)) = nearest {
            let (tx, ty): (i32, i32) = terrain.cell_of(entities[j].pos);
            let target: Option<Tile> = if d == 0 {
                None
            } else {
                Some(step_toward(at, Tile::new(tx, ty)))
            };
            return (Drive::Hunt, target);
        }
    }
    if let Some(goal) = move_target {
        if goal != at {
            return (Drive::Graze, Some(step_toward(at, goal)));
        }
    }
    let roll: usize = rand_below(
        seed,
        tick,
        e.id.wrapping_add(0x9A2E),
        Channel::Wander,
        9,
    ) as usize;
    let target: Tile = if roll == 8 {
        at
    } else {
        at.offset(NEIGHBOURS_8[roll].0, NEIGHBOURS_8[roll].1)
    };
    (Drive::Graze, Some(target))
}

/// A player's decision: one step toward the committed goal, or none. Without
/// a goal the body stands still, which is then what the player decided.
pub fn player_decide_move(at: Tile, move_target: Option<Tile>) -> (r: Option<Tile>)
    ensures
        r == (match move_target {
            Some(goal) if goal != at => Some(spec_step_toward(at, goal)),
            _ => None,
        }),
{
    match move_target {
        Some(goal) => {
            if goal != at {
                Some(step_toward(at, goal))
            } else {
                None
            }
        },
        None => None,
    }
}

/// The `k`-th of the four nearest neighbours of `at`: north, east, south, west.
pub open spec fn neighbour_4(at: Tile, k: int) -> Tile {
    at.spec_offset(NEIGHBOURS_4@[k].0, NEIGHBOURS_4@[k].1)
}

/// Which of the first `k + 1` of the four neighbours of `at` holds the most of
/// `el`, the earliest of those that hold equally much.
pub open spec fn worst(t: TerrainV, el: Element, at: Tile, k: int) -> int
    decreases k,
{
    if k <= 0 {
        0
    } else {
        let b = worst(t, el, at, k - 1);
        if stock_on(t, el, neighbour_4(at, k)) > stock_on(t, el, neighbour_4(at, b)) {
            k
        } else {
            b
        }
    }
}

/// Unit vector away from the `k`-th of the four neighbours.
pub open spec fn away_from(k: int) -> V2 {
    V2 { x: Fx::of_int(-NEIGHBOURS_4@[k].0), y: Fx::of_int(-NEIGHBOURS_4@[k].1) }
}

/// The drive of body `i` and the heading it wants, if it wants one.
pub open spec fn drive_of(
    ents: Seq<EntityV>,
    t: TerrainV,
    ecology: EcologyTuning,
    tuning: BehaviorTuning,
    i: int,
) -> (Drive, Option<V2>) {
    let e = ents[i];
    let at = tile_of(t.side, e);
    let sense = tuning.sense_radius@[e.race().at()] as int;
    let reach = Fx::of_int(sense);
    let near = ring(
        ents,
        t.side,
        at.x as int,
        at.y as int,
        crate::spatial::spec_radius_cells(reach),
    );
    let prey = if e.hunger >= ecology.satiation@[e.element.at()] {
        nearest_by_len(ents, near, i, reach, near.len() as int)
    } else {
        None
    };
    if in_danger(e, t, tuning) {
        (Drive::Flee, Some(away_from(worst(t, e.element.spec_eaten_by(), at, 3))))
    } else {
        match prey {
            Some(j) => {
                let d = ents[j].pos.minus(e.pos);
                (
                    Drive::Hunt,
                    if d == v2_zero() {
                        None
                    } else {
                        Some(d.spec_normalized())
                    },
                )
            },
            None => (Drive::Graze, None),
        }
    }
}

/// The drive of one living animal and the heading it wants: away from the
/// worst of its four neighbouring cells when it flees, toward the nearest
/// prey when it hunts, none when it grazes.
pub fn drive(
    entities: &Vec<Entity>,
    terrain: &Terrain,
    index: &SpatialIndex,
    ecology: &EcologyTuning,
    tuning: &BehaviorTuning,
    i: usize,
) -> (r: (Drive, Option<V2>))
    requires
        i < entities@.len(),
        entities@[i as int].alive,
        entities@[i as int].kind == Kind::Animal,
        terrain@.wf(),
        index.indexes(views(entities@), terrain.side as int),
    ensures
        r == drive_of(views(entities@), terrain@, *ecology, *tuning, i as int),
{
    let ghost ents = views(entities@);
    let ghost side = terrain.side as int;
    let e: &Entity = &entities[i];
    let race: Race = e.race();
    let (x, y): (i32, i32) = terrain.cell_of(e.pos);
    let at: Tile = Tile::new(x, y);
    let danger_el: Element = e.element.eaten_by();
    if terrain.stock_at(e.pos, danger_el) > *tuning.flee_threshold.get(race) {
        let mut best: usize = 0;
        let n0: Tile = at.offset(NEIGHBOURS_4[0].0, NEIGHBOURS_4[0].1);
        let mut most: u16 = *terrain.cell(n0.x, n0.y).get(danger_el);
        let mut k: usize = 1;
        while k < 4
            invariant
                1 <= k <= 4,
                terrain@.wf(),
                best == worst(terrain@, danger_el, at, k - 1),
                best < 4,
                most == stock_on(terrain@, danger_el, neighbour_4(at, best as int)),
            decreases 4 - k,
        {
            let n: Tile = at.offset(NEIGHBOURS_4[k].0, NEIGHBOURS_4[k].1);
            let val: u16 = *terrain.cell(n.x, n.y).get(danger_el);
            if val > most {
                best = k;
                most = val;
            }
            k = k + 1;
        }
        assert(-1 <= NEIGHBOURS_4@[best as int].0 <= 1 && -1 <= NEIGHBOURS_4@[best as int].1 <= 1);
        let away: V2 = V2::new(
            Fx::from_int(-NEIGHBOURS_4[best].0),
            Fx::from_int(-NEIGHBOURS_4[best].1),
        );
        return (Drive::Flee, Some(away));
    }
    if e.hunger >= *ecology.satiation.get(e.element) {
        let reach: Fx = Fx::from_int(*tuning.sense_radius.get(race));
        let cells: i32 = SpatialIndex::radius_cells(reach);
        let near: Vec<u32> = index.query_ring(x, y, cells);
        proof {
            law_a_query_finds_the_ring(*index, ents, side, x as int, y as int, cells as int, near@);
            lemma_ring_members(ents, side, x as int, y as int, cells as int);
        }
        let mut nearest: Option<(usize, Fx)> = None;
        let mut k: usize = 0;
        while k < near.len()
            invariant
                k <= near@.len(),
                ents == views(entities@),
                i < entities@.len(),
                *e == entities@[i as int],
                forall|m: int| 0 <= m < near@.len() ==> #[trigger] near@[m] < ents.len(),
                match nearest {
                    None => nearest_by_len(ents, near@, i as int, reach, k as int) is None,
                    Some((b, bd)) => {
                        &&& b < entities@.len()
                        &&& nearest_by_len(ents, near@, i as int, reach, k as int) == Some(
                            b as int,
                        )
                        &&& bd == ents[b as int].pos.minus(ents[i as int].pos).spec_len()
                    },
                },
            decreases near.len() - k,
        {
            let j: usize = near[k] as usize;
            let other: &Entity = &entities[j];
            assert(ents[j as int] == other@);
            if j != i && other.alive && is_prey(e, other) {
                let d: Fx = (other.pos - e.pos).len();
                if d.0 <= reach.0 {
                    let take: bool = match nearest {
                        None => true,
                        Some((b, bd)) => d.0 < bd.0 || (d.0 == bd.0 && other.id < entities[b].id),
                    };
                    if take {
                        nearest = Some((j, d));
                    }
                }
            }
            k = k + 1;
        }
        if let Some((j, _d)) = nearest {
            let d: V2 = entities[j].pos - e.pos;
            let target: Option<V2> = if d == V2::zero() {
                None
            } else {
                Some(d.normalized())
            };
            return (Drive::Hunt, target);
        }
    }
    (Drive::Graze, None)
}

/// The heading after one tick of turning toward `desired`.
pub open spec fn steered(heading: V2, desired: V2, rate: Fx) -> V2 {
    if rate.0 == 0 {
        heading
    } else {
        let blend = heading.plus(desired.minus(heading).spec_scale(rate));
        if blend == v2_zero() {
            heading
        } else {
            blend.spec_normalized()
        }
    }
}

/// Turn `heading` part of the way toward `desired`, as a unit vector. A rate
/// of zero leaves it as it is, and so does a blend that cancels out.
pub fn steer(heading: V2, desired: V2, rate: Fx) -> (r: V2)
    ensures
        r == steered(heading, desired, rate),
{
    if rate.is_zero() {
        return heading;
    }
    let blend: V2 = heading + (desired - heading).scale(rate);
    if blend == V2::zero() {
        heading
    } else {
        blend.normalized()
    }
}

/// Fleeing comes before hunting and hunting before grazing; a body flees
/// exactly when its own cell is dangerous.
pub proof fn law_drive_priority(
    ents: Seq<EntityV>,
    t: TerrainV,
    ecology: EcologyTuning,
    tuning: BehaviorTuning,
    seed: u64,
    tick: u64,
    i: int,
    goal: Option<Tile>,
)
    ensures
        drive_of(ents, t, ecology, tuning, i).0 == Drive::Flee <==> in_danger(ents[i], t, tuning),
        ai_decision(ents, t, ecology, tuning, seed, tick, i, goal).0 == Drive::Flee <==> in_danger(
            ents[i],
            t,
            tuning,
        ),
        ents[i].hunger < ecology.satiation@[ents[i].element.at()] ==> drive_of(
            ents,
            t,
            ecology,
            tuning,
            i,
        ).0 != Drive::Hunt,
{
}

} // verus!
