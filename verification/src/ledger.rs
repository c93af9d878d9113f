//! The books by element.
//!
//! The world's total never changes. The totals of the single elements do, and
//! only in two ways: a recipe turns what it draws into what it puts out, and
//! a meal turns prey into predator. Everything else moves material about
//! without changing what it is.
use crate::aging::{
    aged, aged_one, aging_phase, buried, dropped, lemma_aged, lemma_scattered_stock,
    lemma_stock_sum, older, scattered_stock, starves, stock_sum,
};
use crate::collisions::{collisions_phase, law_collisions};
use crate::commands::{applied, commanded, commands_phase, lemma_commanded};
use crate::element::{element_at, Element};
use crate::entity::{EntityV, Item};
use crate::feeding::{
    born_upto, cradle, fed_count, feeding_phase, gorge, gorged, killed_upto, law_meals,
    lemma_gorge, lemma_gorged, lemma_killed_upto, lemma_nourished, lemma_parents, meals,
    nourished_upto, parents, Meals,
};
use crate::flora::{flora_phase, law_flora, offspring, refused, rooted, terrain_due};
use crate::fx::{min_int, Fx, V2};
use crate::ground::{
    eroded, existed, lemma_existed, lemma_weathered, reap_phase, terrain_phase, weathered,
};
use crate::input::{stamped, CmdKind, Command};
use crate::movement::{law_movement, movement_phase};
use crate::race::{action_for, lemma_action_for, ActionRecipe, ActionSlot, Kind, Race, RecipeSlot};
use crate::recipes::{
    batches, drained, drawable_of, fired, item_broken, item_made, lemma_batches,
    lemma_keeps_form_wf, lemma_requested, lemma_stock_of, lemma_stored, lemma_sum_first,
    lemma_withdrawn, performed, stock_of, stored, with_body, withdrawn, Pile,
};
use crate::sums::{
    lemma_sum_append, lemma_sum_bounds, lemma_sum_eq, lemma_sum_push, lemma_sum_remove,
    lemma_sum_update, sum_by,
};
use crate::terrain::{
    bank_mass, cell_at, cell_xy, deposit_applied, deposited, diffused, law_deposit_is_conserved,
    law_diffusion_is_conserved, layer, layer_total, lemma_cell_index, lemma_deposited_wf,
    lemma_mass_by_layers, lemma_terrain_mass_parts, sat_u64, terrain_mass, TerrainV,
};
use crate::tick::{ids_fit, lemma_early, lemma_lived, lived, stepped};
use crate::world::{
    body_mass, body_masses, carried_mass, find_id, item_mass, lemma_body_mass_parts, lemma_find_id,
    lemma_mass_parts, lemma_population_bound, mass, pile_mass, shaped, spawned, GroundItem, Stats,
    WorldV,
};
use vstd::prelude::*;

verus! {

/// The part of `n` units of `e` that is of element `x`: all or nothing.
pub open spec fn part(x: Element, e: Element, n: int) -> int {
    if e == x {
        n
    } else {
        0
    }
}

/// What one race has banked of one element.
pub open spec fn bank_layer(e: int) -> spec_fn(Seq<u64>) -> int {
    |c: Seq<u64>| c[e] as int
}

/// All of one element in the cells or banked.
pub open spec fn soil(t: TerrainV, x: Element) -> int {
    layer_total(t, x.at()) + sum_by(t.overflow, bank_layer(x.at()))
}

pub open spec fn item_of(x: Element) -> spec_fn(Item) -> int {
    |i: Item| part(x, i.element, i.quantity as int)
}

pub open spec fn pile_of(x: Element) -> spec_fn(GroundItem) -> int {
    |g: GroundItem| part(x, g.element, g.quantity as int)
}

/// All of one element that a body is made of, carries or holds.
pub open spec fn held(e: EntityV, x: Element) -> int {
    if e.alive {
        part(x, e.element, e.material as int) + e.carried[x.at()] + sum_by(e.items, item_of(x))
    } else {
        0
    }
}

pub open spec fn held_of(x: Element) -> spec_fn(EntityV) -> int {
    |e: EntityV| held(e, x)
}

/// All of one element in the world.
pub open spec fn total_of(w: WorldV, x: Element) -> int {
    soil(w.terrain, x) + sum_by(w.ents, held_of(x)) + sum_by(w.ground, pile_of(x))
}

/// The sum of `f` over the five elements.
pub open spec fn over_elements(f: spec_fn(Element) -> int) -> int {
    f(Element::Wood) + f(Element::Fire) + f(Element::Earth) + f(Element::Metal) + f(Element::Water)
}

proof fn lemma_banks_by_layers(s: Seq<Seq<u64>>)
    ensures
        sum_by(s, bank_mass()) == sum_by(s, bank_layer(0)) + sum_by(s, bank_layer(1)) + sum_by(
            s,
            bank_layer(2),
        ) + sum_by(s, bank_layer(3)) + sum_by(s, bank_layer(4)),
    decreases s.len(),
{
    if s.len() > 0 {
        lemma_banks_by_layers(s.drop_last());
    }
}

proof fn lemma_items_by_element(s: Seq<Item>)
    ensures
        sum_by(s, item_mass()) == over_elements(|x: Element| sum_by(s, item_of(x))),
    decreases s.len(),
{
    if s.len() > 0 {
        lemma_items_by_element(s.drop_last());
    }
}

proof fn lemma_piles_by_element(s: Seq<GroundItem>)
    ensures
        sum_by(s, pile_mass()) == over_elements(|x: Element| sum_by(s, pile_of(x))),
    decreases s.len(),
{
    if s.len() > 0 {
        lemma_piles_by_element(s.drop_last());
    }
}

proof fn lemma_bodies_by_element(s: Seq<EntityV>)
    ensures
        sum_by(s, body_masses()) == over_elements(|x: Element| sum_by(s, held_of(x))),
    decreases s.len(),
{
    if s.len() > 0 {
        lemma_bodies_by_element(s.drop_last());
        lemma_items_by_element(s.last().items);
    }
}

/// The books of the five elements are the whole book.
pub proof fn law_elements_make_the_mass(w: WorldV)
    ensures
        mass(w) == over_elements(|x: Element| total_of(w, x)),
{
    lemma_mass_by_layers(w.terrain.cells);
    lemma_banks_by_layers(w.terrain.overflow);
    lemma_bodies_by_element(w.ents);
    lemma_piles_by_element(w.ground);
}

// ----------------------------------------------------------------------
// The ground.
// ----------------------------------------------------------------------

proof fn lemma_stock_layer(t: TerrainV, c: int, e: Element, v: u16, x: Element)
    requires
        t.wf(),
        0 <= c < t.cells.len(),
    ensures
        soil(t.with_stock(c, e, v), x) == soil(t, x) + part(x, e, v - t.stock(c, e)),
{
    let cell = t.cells[c].update(e.at(), v);
    assert(t.cells[c].len() == 5);
    lemma_sum_update(t.cells, c, cell, layer(x.at()));
}

/// A deposit adds what is deposited to the books of its element, and to no
/// other.
pub proof fn law_deposit_by_element(
    t: TerrainV,
    r: Race,
    e: Element,
    amount: u64,
    pos: V2,
    x: Element,
)
    requires
        t.wf(),
        terrain_mass(t) + amount <= u64::MAX,
    ensures
        soil(deposited(t, r, e, amount, pos), x) == soil(t, x) + part(x, e, amount as int),
{
    let c = cell_at(t.side, pos);
    lemma_cell_index(t.side, cell_xy(t.side, pos).0, cell_xy(t.side, pos).1);
    let applied = deposit_applied(t, e, amount, pos);
    lemma_stock_layer(t, c, e, (t.stock(c, e) + applied) as u16, x);
    lemma_terrain_mass_parts(t);
    if amount > applied {
        crate::race::law_race_positions(r, 0);
        let bank = t.overflow[r.at()];
        assert(bank.len() == 5);
        assert(bank_mass()(bank) <= sum_by(t.overflow, bank_mass()));
        assert(bank[e.at()] <= bank_mass()(bank));
        let v = sat_u64(bank[e.at()] + (amount - applied));
        lemma_sum_update(t.overflow, r.at(), bank.update(e.at(), v), bank_layer(x.at()));
    }
}

// ----------------------------------------------------------------------
// Recipes.
// ----------------------------------------------------------------------

proof fn lemma_body_total(w: WorldV, i: int, e: EntityV, x: Element)
    requires
        0 <= i < w.ents.len(),
    ensures
        total_of(with_body(w, i, e), x) == total_of(w, x) - held(w.ents[i], x) + held(e, x),
{
    lemma_sum_update(w.ents, i, e, held_of(x));
}

/// Draining takes the amount from the books of what can be drawn.
proof fn lemma_drained_by<P: Pile>(
    s: Seq<P>,
    e: Element,
    pos: V2,
    reach: Fx,
    amount: int,
    f: spec_fn(P) -> int,
    hit: bool,
)
    requires
        0 <= amount <= sum_by(s, drawable_of::<P>(e, pos, reach)),
        forall|p: P|
            p.drawable(e, pos, reach) ==> #[trigger] f(p) == (if hit {
                p.spec_quantity() as int
            } else {
                0
            }),
        forall|p: P, q: u64|
            p.drawable(e, pos, reach) ==> #[trigger] f(p.holding(q)) == (if hit {
                q as int
            } else {
                0
            }),
    ensures
        sum_by(drained(s, e, pos, reach, amount), f) == sum_by(s, f) - (if hit {
            amount
        } else {
            0
        }),
    decreases s.len(),
{
    let d = drawable_of::<P>(e, pos, reach);
    if s.len() > 0 {
        let p = s[0];
        let rest = s.skip(1);
        lemma_sum_first(s, f);
        lemma_sum_first(s, d);
        assert forall|i: int| 0 <= i < rest.len() implies d(#[trigger] rest[i]) >= 0 by {}
        lemma_sum_bounds(rest, d);
        if amount == 0 || !p.drawable(e, pos, reach) {
            lemma_drained_by(rest, e, pos, reach, amount, f, hit);
            let t = drained(rest, e, pos, reach, amount);
            lemma_sum_first(seq![p] + t, f);
            assert((seq![p] + t).skip(1) =~= t);
        } else if p.spec_quantity() <= amount {
            lemma_drained_by(rest, e, pos, reach, amount - p.spec_quantity(), f, hit);
        } else {
            let h = p.holding((p.spec_quantity() - amount) as u64);
            lemma_sum_first(seq![h] + rest, f);
            assert((seq![h] + rest).skip(1) =~= rest);
        }
    }
}

/// What is in a slot when a recipe on `e` uses it: a body is made of its own
/// element, whatever the recipe names.
pub open spec fn found(b: EntityV, slot: RecipeSlot, e: Element) -> Element {
    if slot == RecipeSlot::Body {
        b.element
    } else {
        e
    }
}

proof fn lemma_withdrawn_by(
    w: WorldV,
    i: int,
    slot: RecipeSlot,
    e: Element,
    reach: Fx,
    amount: int,
    x: Element,
)
    requires
        w.wf(),
        0 <= i < w.ents.len(),
        w.ents[i].alive,
        0 <= amount <= stock_of(w, i, slot, e, reach),
    ensures
        total_of(withdrawn(w, i, slot, e, reach, amount), x) == total_of(w, x) - part(
            x,
            found(w.ents[i], slot, e),
            amount,
        ),
{
    reveal(withdrawn);
    let b = w.ents[i];
    let u = withdrawn(w, i, slot, e, reach, amount);
    assert(shaped(b));
    match slot {
        RecipeSlot::Terrain => {
            lemma_cell_index(
                w.terrain.side,
                cell_xy(w.terrain.side, b.pos).0,
                cell_xy(w.terrain.side, b.pos).1,
            );
            let c = cell_at(w.terrain.side, b.pos);
            lemma_stock_layer(w.terrain, c, e, (w.terrain.stock(c, e) - amount) as u16, x);
        },
        RecipeSlot::Carried => {
            lemma_body_total(w, i, u.ents[i], x);
        },
        RecipeSlot::Item => {
            lemma_drained_by::<Item>(b.items, e, b.pos, reach, amount, item_of(x), e == x);
            lemma_body_total(w, i, u.ents[i], x);
        },
        RecipeSlot::Ground => {
            lemma_drained_by::<GroundItem>(w.ground, e, b.pos, reach, amount, pile_of(x), e == x);
        },
        RecipeSlot::Body => {
            lemma_body_total(w, i, u.ents[i], x);
        },
    }
}

proof fn lemma_stored_by(w: WorldV, i: int, slot: RecipeSlot, e: Element, amount: u64, x: Element)
    requires
        w.wf(),
        0 <= i < w.ents.len(),
        w.ents[i].alive,
        mass(w) + amount <= u64::MAX,
    ensures
        total_of(stored(w, i, slot, e, amount), x) == total_of(w, x) + part(
            x,
            found(w.ents[i], slot, e),
            amount as int,
        ),
{
    reveal(stored);
    let b = w.ents[i];
    let u = stored(w, i, slot, e, amount);
    assert(shaped(b));
    lemma_mass_parts(w);
    lemma_body_mass_parts(b);
    assert(body_mass(b) <= mass(w));
    if amount > 0 {
        match slot {
            RecipeSlot::Terrain => {
                law_deposit_by_element(w.terrain, b.race(), e, amount, b.pos, x);
            },
            RecipeSlot::Carried => {
                lemma_body_total(w, i, u.ents[i], x);
            },
            RecipeSlot::Item => {
                lemma_sum_push(b.items, Item { element: e, quantity: amount }, item_of(x));
                lemma_body_total(w, i, u.ents[i], x);
            },
            RecipeSlot::Ground => {
                lemma_sum_push(w.ground, u.ground.last(), pile_of(x));
            },
            RecipeSlot::Body => {
                lemma_body_total(w, i, u.ents[i], x);
            },
        }
    }
}

/// How `n` batches of a recipe on `e`, performed by `b`, change the books of
/// `x`: what is drawn leaves, what is put out comes, and the rest of what was
/// drawn comes back as `e`.
pub open spec fn batch_shift(
    b: EntityV,
    recipe: ActionRecipe,
    e: Element,
    n: int,
    x: Element,
) -> int {
    let consumed = n * recipe.ratio_in;
    let produced = n * recipe.ratio_out;
    part(x, found(b, recipe.output, recipe.transform.spec_apply(e)), produced) + part(
        x,
        e,
        consumed - produced,
    ) - part(x, found(b, recipe.input, e), consumed)
}

#[verifier::rlimit(30)]
proof fn lemma_performed_by(
    w: WorldV,
    i: int,
    recipe: ActionRecipe,
    e: Element,
    n: int,
    x: Element,
)
    requires
        w.wf(),
        0 <= i < w.ents.len(),
        w.ents[i].alive,
        0 <= n * recipe.ratio_out <= n * recipe.ratio_in,
        n * recipe.ratio_in <= stock_of(w, i, recipe.input, e, recipe.reach),
    ensures
        total_of(performed(w, i, recipe, e, n), x) == total_of(w, x) + batch_shift(
            w.ents[i],
            recipe,
            e,
            n,
            x,
        ),
{
    let b = w.ents[i];
    let consumed = n * recipe.ratio_in;
    let produced = n * recipe.ratio_out;
    lemma_stock_of(w, i, recipe.input, e, recipe.reach);
    lemma_withdrawn(w, i, recipe.input, e, recipe.reach, consumed);
    lemma_withdrawn_by(w, i, recipe.input, e, recipe.reach, consumed, x);
    let u = withdrawn(w, i, recipe.input, e, recipe.reach, consumed);
    lemma_keeps_form_wf(w, u);
    assert(u.ents[i].alive && u.ents[i].race() == b.race());
    let out = recipe.transform.spec_apply(e);
    lemma_stored(u, i, recipe.output, out, produced as u64);
    lemma_stored_by(u, i, recipe.output, out, produced as u64, x);
    let v = stored(u, i, recipe.output, out, produced as u64);
    lemma_keeps_form_wf(u, v);
    lemma_mass_parts(v);
    law_deposit_by_element(v.terrain, b.race(), e, (consumed - produced) as u64, b.pos, x);
    let y = WorldV {
        terrain: deposited(v.terrain, b.race(), e, (consumed - produced) as u64, b.pos),
        ..v
    };
    let z = y.ents[i];
    let z2 = EntityV {
        action_ready_at: z.action_ready_at.update(
            recipe.slot.at(),
            (w.tick + recipe.cooldown_ticks) as u64,
        ),
        ..z
    };
    lemma_body_total(y, i, z2, x);
}

/// How a body's firing of its recipe for `slot` on `e` changes the books of
/// `x`.
pub open spec fn fire_shift(
    w: WorldV,
    bodies: Seq<EntityV>,
    id: u32,
    slot: ActionSlot,
    e: Element,
    x: Element,
) -> int {
    match find_id(w.ents, id) {
        None => 0,
        Some(i) => {
            let b = w.ents[i];
            match action_for(w.races[b.race().at()].actions, slot) {
                None => 0,
                Some(recipe) => if !b.alive || w.tick < b.action_ready_at[slot.at()] {
                    0
                } else {
                    batch_shift(b, recipe, e, batches(w, bodies, i, recipe, e), x)
                },
            }
        },
    }
}

/// A recipe changes the books by its batches, and by nothing else.
pub proof fn law_firing_by_element(
    w: WorldV,
    bodies: Seq<EntityV>,
    id: u32,
    slot: ActionSlot,
    e: Element,
    x: Element,
)
    requires
        w.wf(),
    ensures
        total_of(fired(w, bodies, id, slot, e), x) == total_of(w, x) + fire_shift(
            w,
            bodies,
            id,
            slot,
            e,
            x,
        ),
{
    lemma_find_id(w.ents, id);
    match find_id(w.ents, id) {
        None => {},
        Some(i) => {
            let b = w.ents[i];
            crate::race::law_race_positions(b.race(), 0);
            let actions = w.races[b.race().at()].actions;
            lemma_action_for(actions, slot);
            assert(w.races[b.race().at()].actions_valid());
            match action_for(actions, slot) {
                None => {},
                Some(recipe) => {
                    if b.alive && w.tick >= b.action_ready_at[slot.at()] {
                        lemma_stock_of(w, i, recipe.input, e, recipe.reach);
                        lemma_requested(w, bodies, i, recipe);
                        lemma_batches(w, bodies, i, recipe, e);
                        let n = batches(w, bodies, i, recipe, e);
                        lemma_performed_by(w, i, recipe, e, n, x);
                        if n == 0 {
                            assert(n * recipe.ratio_in == 0 && n * recipe.ratio_out == 0)
                                by (nonlinear_arith)
                                requires
                                    n == 0,
                            ;
                        }
                    }
                },
            }
        },
    }
}

/// Making an item changes nothing in the books of any element.
pub proof fn law_making_an_item_by_element(
    w: WorldV,
    id: u32,
    e: Element,
    quantity: u64,
    x: Element,
)
    requires
        w.wf(),
    ensures
        total_of(item_made(w, id, e, quantity), x) == total_of(w, x),
{
    let u = item_made(w, id, e, quantity);
    lemma_find_id(w.ents, id);
    if let Some(i) = find_id(w.ents, id) {
        let b = w.ents[i];
        assert(shaped(b));
        lemma_sum_push(b.items, Item { element: e, quantity }, item_of(x));
        lemma_body_total(w, i, u.ents[i], x);
    }
}

/// Breaking an item changes nothing in the books of any element.
pub proof fn law_breaking_an_item_by_element(w: WorldV, id: u32, index: u32, x: Element)
    requires
        w.wf(),
    ensures
        total_of(item_broken(w, id, index), x) == total_of(w, x),
{
    lemma_find_id(w.ents, id);
    if let Some(i) = find_id(w.ents, id) {
        let b = w.ents[i];
        assert(shaped(b));
        if b.alive && index < b.items.len() {
            let it = b.items[index as int];
            let b2 = EntityV { items: b.items.remove(index as int), ..b };
            lemma_sum_remove(b.items, index as int, item_of(x));
            lemma_sum_remove(b.items, index as int, item_mass());
            lemma_sum_bounds(b2.items, item_mass());
            lemma_body_total(w, i, b2, x);
            lemma_mass_parts(w);
            lemma_two_parts(w, i);
            law_deposit_by_element(w.terrain, b.race(), it.element, it.quantity, b.pos, x);
        }
    }
}

/// The ground and one body together have at most what there is.
proof fn lemma_two_parts(w: WorldV, i: int)
    requires
        w.wf(),
        0 <= i < w.ents.len(),
    ensures
        terrain_mass(w.terrain) + body_mass(w.ents[i]) <= mass(w),
{
    lemma_mass_parts(w);
}

// ----------------------------------------------------------------------
// The phases.
// ----------------------------------------------------------------------

/// Two bodies that have the same on the books.
spec fn same_book(e: EntityV, o: EntityV) -> bool {
    &&& o.alive == e.alive
    &&& o.element == e.element
    &&& o.material == e.material
    &&& o.carried == e.carried
    &&& o.items == e.items
}

proof fn lemma_still_total(w: WorldV, u: WorldV, x: Element)
    requires
        u.terrain == w.terrain,
        u.ground == w.ground,
        u.ents.len() == w.ents.len(),
        forall|j: int| 0 <= j < w.ents.len() ==> same_book(w.ents[j], #[trigger] u.ents[j]),
    ensures
        total_of(u, x) == total_of(w, x),
{
    assert forall|j: int| 0 <= j < u.ents.len() implies held_of(x)(#[trigger] u.ents[j]) == held_of(
        x,
    )(w.ents[j]) by {
        assert(same_book(w.ents[j], u.ents[j]));
    }
    lemma_sum_eq(u.ents, w.ents, held_of(x), held_of(x));
}

/// A birth changes nothing in the books of any element.
pub proof fn law_birth_by_element(w: WorldV, race: Race, at: V2, size: u16, x: Element)
    ensures
        total_of(spawned(w, race, at, size), x) == total_of(w, x),
{
    let e = spawned(w, race, at, size).ents.last();
    lemma_sum_push(w.ents, e, held_of(x));
    assert(sum_by(e.items, item_of(x)) == 0);
}

/// How one command changes the books of `x`: only recipes do.
pub open spec fn command_shift(w: WorldV, bodies: Seq<EntityV>, c: Command, x: Element) -> int {
    match c.kind {
        CmdKind::Mine { element } => fire_shift(w, bodies, c.entity, ActionSlot::Mine, element, x),
        CmdKind::Smelt { element } => fire_shift(w, bodies, c.entity, ActionSlot::Smelt, element, x),
        CmdKind::Pickup { element } => fire_shift(
            w,
            bodies,
            c.entity,
            ActionSlot::Pickup,
            element,
            x,
        ),
        _ => 0,
    }
}

/// A command that fires no recipe leaves the books of every element alone.
pub proof fn law_command_by_element(w: WorldV, bodies: Seq<EntityV>, c: Command, x: Element)
    requires
        w.wf(),
    ensures
        total_of(applied(w, bodies, c), x) == total_of(w, x) + command_shift(w, bodies, c, x),
{
    lemma_find_id(w.ents, c.entity);
    match c.kind {
        CmdKind::Spawn { element, kind, at } => {
            law_birth_by_element(w, Race { element, kind }, at, 1000, x);
        },
        CmdKind::SetHeading { dir } => {
            if let Some(i) = find_id(w.ents, c.entity) {
                let e = EntityV { heading: dir.spec_normalized(), ..w.ents[i] };
                lemma_body_total(w, i, e, x);
            }
        },
        CmdKind::Kill => {
            if let Some(i) = find_id(w.ents, c.entity) {
                lemma_body_total(w, i, EntityV { hp: 0, ..w.ents[i] }, x);
            }
        },
        CmdKind::Mine { element } => {
            law_firing_by_element(w, bodies, c.entity, ActionSlot::Mine, element, x);
        },
        CmdKind::Smelt { element } => {
            law_firing_by_element(w, bodies, c.entity, ActionSlot::Smelt, element, x);
        },
        CmdKind::Pickup { element } => {
            law_firing_by_element(w, bodies, c.entity, ActionSlot::Pickup, element, x);
        },
        CmdKind::MakeItem { element, quantity } => {
            law_making_an_item_by_element(w, c.entity, element, quantity, x);
        },
        CmdKind::BreakItem { index } => {
            law_breaking_an_item_by_element(w, c.entity, index, x);
        },
    }
}

/// How the first `k` of the commands `cs` change the books of `x`.
pub open spec fn commands_shift(
    w: WorldV,
    bodies: Seq<EntityV>,
    cs: Seq<Command>,
    k: int,
    x: Element,
) -> int
    decreases k,
{
    if k <= 0 {
        0
    } else {
        commands_shift(w, bodies, cs, k - 1, x) + command_shift(
            commanded(w, bodies, cs, k - 1),
            bodies,
            cs[k - 1],
            x,
        )
    }
}

proof fn lemma_commanded_by(
    w: WorldV,
    bodies: Seq<EntityV>,
    cs: Seq<Command>,
    k: int,
    x: Element,
)
    requires
        w.wf(),
        0 <= k <= cs.len(),
        w.next_id + cs.len() <= u32::MAX,
    ensures
        total_of(commanded(w, bodies, cs, k), x) == total_of(w, x) + commands_shift(
            w,
            bodies,
            cs,
            k,
            x,
        ),
    decreases k,
{
    if k > 0 {
        lemma_commanded_by(w, bodies, cs, k - 1, x);
        lemma_commanded(w, bodies, cs, k - 1);
        law_command_by_element(commanded(w, bodies, cs, k - 1), bodies, cs[k - 1], x);
    }
}

/// The first `n` stocks, as far as they are of one element.
spec fn stock_part(carried: Seq<u64>, n: int, x: Element) -> int {
    if x.at() < n {
        carried[x.at()] as int
    } else {
        0
    }
}

proof fn lemma_scattered_by(
    t: TerrainV,
    r: Race,
    pos: V2,
    carried: Seq<u64>,
    n: int,
    x: Element,
)
    requires
        t.wf(),
        carried.len() == 5,
        0 <= n <= 5,
        terrain_mass(t) + stock_sum(carried, n) <= u64::MAX,
    ensures
        soil(scattered_stock(t, r, pos, carried, n), x) == soil(t, x) + stock_part(carried, n, x),
    decreases n,
{
    if n > 0 {
        lemma_scattered_by(t, r, pos, carried, n - 1, x);
        lemma_scattered_stock(t, r, pos, carried, n - 1);
        let u = scattered_stock(t, r, pos, carried, n - 1);
        law_deposit_by_element(u, r, element_at(n - 1), carried[n - 1], pos, x);
    }
}

/// Burial puts everything back under the element that it was.
pub proof fn law_burial_by_element(
    w: WorldV,
    r: Race,
    pos: V2,
    material: u64,
    carried: Seq<u64>,
    items: Seq<Item>,
    x: Element,
)
    requires
        w.terrain.wf(),
        forall|i: int| 0 <= i < w.ents.len() ==> shaped(#[trigger] w.ents[i]),
        carried.len() == 5,
        mass(w) + material + carried_mass(carried) + sum_by(items, item_mass()) <= u64::MAX,
    ensures
        total_of(buried(w, r, pos, material, carried, items), x) == total_of(w, x) + part(
            x,
            r.element,
            material as int,
        ) + carried[x.at()] + sum_by(items, item_of(x)),
{
    let t = deposited(w.terrain, r, r.element, material, pos);
    lemma_mass_parts(w);
    lemma_stock_sum(carried);
    lemma_sum_bounds(items, item_mass());
    law_deposit_is_conserved(w.terrain, r, r.element, material, pos);
    lemma_deposited_wf(w.terrain, r, r.element, material, pos);
    law_deposit_by_element(w.terrain, r, r.element, material, pos, x);
    lemma_scattered_by(t, r, pos, carried, 5, x);
    let d = dropped(items, pos);
    assert forall|i: int| 0 <= i < d.len() implies pile_of(x)(#[trigger] d[i]) == item_of(x)(
        items[i],
    ) by {}
    lemma_sum_eq(d, items, pile_of(x), item_of(x));
    lemma_sum_append(w.ground, d, pile_of(x));
}

/// A body that dies and is buried leaves the books of every element as they
/// were, however it looked when it died.
proof fn lemma_death_by(w: WorldV, v: WorldV, i: int, x: Element)
    requires
        w.wf(),
        0 <= i < w.ents.len(),
        w.ents[i].alive,
        !v.ents[i].alive,
        v.ents == w.ents.update(i, v.ents[i]),
        shaped(v.ents[i]),
        v.terrain == w.terrain,
        v.ground == w.ground,
    ensures
        ({
            let e = w.ents[i];
            total_of(buried(v, e.race(), e.pos, e.material, e.carried, e.items), x) == total_of(w, x)
        }),
{
    let e = w.ents[i];
    let d = v.ents[i];
    assert(shaped(e));
    lemma_sum_update(w.ents, i, d, body_masses());
    lemma_sum_update(w.ents, i, d, held_of(x));
    assert forall|j: int| 0 <= j < v.ents.len() implies shaped(#[trigger] v.ents[j]) by {
        if j != i {
            assert(v.ents[j] == w.ents[j]);
        }
    }
    law_burial_by_element(v, e.race(), e.pos, e.material, e.carried, e.items, x);
}

/// Aging and dying leave the books of every element alone.
pub proof fn law_aging_by_element(w: WorldV, i: int, x: Element)
    requires
        w.wf(),
        0 <= i < w.ents.len(),
    ensures
        total_of(aged_one(w, i), x) == total_of(w, x),
{
    let e = w.ents[i];
    if e.alive {
        let o = older(e, w);
        if o.age >= o.lifespan || o.hp <= 0 {
            assert(shaped(e));
            let v = WorldV {
                ents: w.ents.update(i, EntityV { alive: false, items: Seq::empty(), ..o }),
                stats: if starves(e, w.ecology) {
                    Stats { starved: (w.stats.starved + 1) as u64, ..w.stats }
                } else {
                    w.stats
                },
                ..w
            };
            assert(v.ents[i] == (EntityV { alive: false, items: Seq::empty(), ..o }));
            lemma_death_by(w, v, i, x);
        } else {
            lemma_body_total(w, i, o, x);
        }
    }
}

proof fn lemma_aged_by(w: WorldV, n: int, x: Element)
    requires
        w.wf(),
        0 <= n <= w.ents.len(),
    ensures
        total_of(aged(w, n), x) == total_of(w, x),
    decreases n,
{
    if n > 0 {
        lemma_aged_by(w, n - 1, x);
        lemma_aged(w, n - 1);
        law_aging_by_element(aged(w, n - 1), n - 1, x);
    }
}

/// How the first `k` meals change the books of `x`: what the prey is made of
/// turns into what the predator is made of.
pub open spec fn meals_shift(
    ents: Seq<EntityV>,
    pairs: Seq<(int, int)>,
    k: int,
    x: Element,
) -> int
    decreases k,
{
    if k <= 0 {
        0
    } else {
        let s = gorged(ents, pairs, k - 1);
        let (p, q) = pairs[k - 1];
        let eaten = s[q].material as int;
        meals_shift(ents, pairs, k - 1, x) + part(x, s[p].element, eaten) - part(
            x,
            s[q].element,
            eaten,
        )
    }
}

proof fn lemma_gorged_by(w: WorldV, m: Meals, k: int, x: Element)
    requires
        w.wf(),
        m.wf(w),
        0 <= k <= m.pairs.len(),
    ensures
        sum_by(gorged(w.ents, m.pairs, k), held_of(x)) == sum_by(w.ents, held_of(x)) + meals_shift(
            w.ents,
            m.pairs,
            k,
            x,
        ),
    decreases k,
{
    if k > 0 {
        lemma_gorged_by(w, m, k - 1, x);
        lemma_gorged(w, m, k - 1);
        let s = gorged(w.ents, m.pairs, k - 1);
        let (p, q) = m.pairs[k - 1];
        lemma_gorge(w, s, p, q);
        assert(s[p].alive == w.ents[p].alive && s[q].alive == w.ents[q].alive);
        reveal(gorge);
        let a = EntityV { material: sat_u64(s[p].material + s[q].material), ..s[p] };
        let t = s.update(p, a);
        let b = EntityV { material: 0, ..t[q] };
        assert(gorge(s, p, q) == t.update(q, b));
        assert(a.material == s[p].material + s[q].material) by {
            assert(gorge(s, p, q)[p] == a);
        }
        lemma_sum_update(s, p, a, held_of(x));
        lemma_sum_update(t, q, b, held_of(x));
    }
}

proof fn lemma_killed_by(w: WorldV, eaten: Seq<bool>, n: int, x: Element)
    requires
        w.wf(),
        0 <= n <= w.ents.len(),
        eaten.len() == w.ents.len(),
        forall|i: int| 0 <= i < w.ents.len() && #[trigger] eaten[i] ==> w.ents[i].alive,
    ensures
        total_of(killed_upto(w, eaten, n), x) == total_of(w, x),
    decreases n,
{
    if n > 0 {
        lemma_killed_by(w, eaten, n - 1, x);
        lemma_killed_upto(w, eaten, n - 1);
        let u = killed_upto(w, eaten, n - 1);
        if eaten[n - 1] {
            let e = u.ents[n - 1];
            assert(e == w.ents[n - 1]);
            assert(shaped(e));
            let v = with_body(
                u,
                n - 1,
                EntityV { alive: false, hp: 0, items: Seq::empty(), ..e },
            );
            assert(!v.ents[n - 1].alive);
            lemma_death_by(u, v, n - 1, x);
        }
    }
}

proof fn lemma_born_by(w: WorldV, births: Seq<(Race, V2, u32)>, k: int, x: Element)
    ensures
        total_of(born_upto(w, births, k), x) == total_of(w, x),
    decreases k,
{
    if k > 0 {
        lemma_born_by(w, births, k - 1, x);
        let (race, pos, id) = births[k - 1];
        law_birth_by_element(born_upto(w, births, k - 1), race, cradle(w, pos, id), 1000, x);
    }
}

/// Feeding turns prey into predator, meal by meal, and changes the books in
/// no other way.
pub proof fn law_feeding_by_element(w: WorldV, x: Element)
    requires
        w.wf(),
        w.next_id + w.ents.len() <= u32::MAX,
    ensures
        ({
            let pairs = meals(w, w.ents.len() as int).pairs;
            total_of(feeding_phase(w), x) == total_of(w, x) + meals_shift(
                w.ents,
                pairs,
                pairs.len() as int,
                x,
            )
        }),
{
    let n = w.ents.len() as int;
    lemma_population_bound(w.ents, w.next_id);
    law_meals(w, n);
    let m = meals(w, n);
    let g = gorged(w.ents, m.pairs, m.pairs.len() as int);
    lemma_gorged(w, m, m.pairs.len() as int);
    lemma_gorged_by(w, m, m.pairs.len() as int, x);
    lemma_nourished(w, m);
    let u = WorldV {
        ents: nourished_upto(g, m.fed, w.ecology, n),
        stats: Stats { feedings: (w.stats.feedings + fed_count(m.fed, n)) as u64, ..w.stats },
        ..w
    };
    assert forall|i: int| 0 <= i < u.ents.len() implies held_of(x)(#[trigger] u.ents[i]) == held_of(
        x,
    )(g[i]) by {}
    lemma_sum_eq(u.ents, g, held_of(x), held_of(x));
    lemma_parents(g, m.fed, w.ecology, n);
    assert forall|i: int| 0 <= i < u.ents.len() && #[trigger] m.eaten[i] implies u.ents[i].alive by {
        assert(w.ents[i].alive);
        assert(u.ents[i].alive == w.ents[i].alive);
    }
    lemma_killed_by(u, m.eaten, n, x);
    let births = parents(g, m.fed, w.ecology, n);
    lemma_born_by(killed_upto(u, m.eaten, n), births, births.len() as int, x);
}

proof fn lemma_rooted_by(w: WorldV, kids: Seq<(Race, V2)>, k: int, x: Element)
    ensures
        total_of(rooted(w, kids, k), x) == total_of(w, x),
    decreases k,
{
    if k > 0 {
        lemma_rooted_by(w, kids, k - 1, x);
        let (race, pos) = kids[k - 1];
        law_birth_by_element(
            rooted(w, kids, k - 1),
            race,
            pos,
            w.propagation.offspring_size@[race.element.at()],
            x,
        );
    }
}

/// Plants take root without a change in the books of any element.
pub proof fn law_flora_by_element(w: WorldV, x: Element)
    ensures
        total_of(flora_phase(w), x) == total_of(w, x),
{
    if terrain_due(w.tick) {
        let n = w.ents.len() as int;
        let kids = offspring(w, n);
        let u = WorldV {
            stats: Stats {
                rooted_rejected: (w.stats.rooted_rejected + refused(w, n)) as u64,
                ..w.stats
            },
            ..w
        };
        lemma_rooted_by(u, kids, kids.len() as int, x);
    }
}

/// How the `Exist` recipes of the first `n` bodies change the books of `x`.
pub open spec fn existence_shift(w: WorldV, bodies: Seq<EntityV>, n: int, x: Element) -> int
    decreases n,
{
    if n <= 0 {
        0
    } else {
        let u = existed(w, bodies, n - 1);
        let e = u.ents[n - 1];
        existence_shift(w, bodies, n - 1, x) + (if e.alive {
            fire_shift(u, bodies, e.id, ActionSlot::Exist, e.element.spec_habitat(), x)
        } else {
            0
        })
    }
}

proof fn lemma_existed_by(w: WorldV, bodies: Seq<EntityV>, n: int, x: Element)
    requires
        w.wf(),
        0 <= n <= w.ents.len(),
    ensures
        total_of(existed(w, bodies, n), x) == total_of(w, x) + existence_shift(w, bodies, n, x),
    decreases n,
{
    if n > 0 {
        lemma_existed_by(w, bodies, n - 1, x);
        lemma_existed(w, bodies, n - 1);
        let u = existed(w, bodies, n - 1);
        let e = u.ents[n - 1];
        law_firing_by_element(u, bodies, e.id, ActionSlot::Exist, e.element.spec_habitat(), x);
    }
}

/// Decay puts every pile back under the element that it was.
pub proof fn law_erosion_by_element(w: WorldV, i: int, remaining: int, x: Element)
    requires
        w.wf(),
        0 <= i,
    ensures
        total_of(eroded(w, i, remaining), x) == total_of(w, x),
    decreases w.ground.len() - i,
{
    if i < w.ground.len() && remaining > 0 {
        let g = w.ground[i];
        let take = min_int(g.quantity as int, remaining);
        let r = Race { element: g.element, kind: Kind::Animal };
        let t = deposited(w.terrain, r, g.element, take as u64, g.pos);
        lemma_mass_parts(w);
        lemma_sum_bounds(w.ground, pile_mass());
        assert(pile_mass()(g) <= sum_by(w.ground, pile_mass()));
        law_deposit_is_conserved(w.terrain, r, g.element, take as u64, g.pos);
        lemma_deposited_wf(w.terrain, r, g.element, take as u64, g.pos);
        law_deposit_by_element(w.terrain, r, g.element, take as u64, g.pos, x);
        if g.quantity == take {
            let moved = w.ground.update(i, w.ground.last());
            lemma_sum_update(w.ground, i, w.ground.last(), pile_mass());
            lemma_sum_update(w.ground, i, w.ground.last(), pile_of(x));
            let rest = moved.drop_last();
            assert(moved.last() == w.ground.last());
            let u = WorldV { terrain: t, ground: rest, ..w };
            assert(mass(u) == mass(w));
            assert(total_of(u, x) == total_of(w, x));
            law_erosion_by_element(u, i, remaining - take, x);
        } else {
            let h = GroundItem { quantity: (g.quantity - take) as u64, ..g };
            lemma_sum_update(w.ground, i, h, pile_mass());
            lemma_sum_update(w.ground, i, h, pile_of(x));
            let u = WorldV { terrain: t, ground: w.ground.update(i, h), ..w };
            assert(mass(u) == mass(w));
            assert(total_of(u, x) == total_of(w, x));
            law_erosion_by_element(u, i + 1, remaining - take, x);
        }
    }
}

/// The terrain phase changes the books by the `Exist` recipes alone: wear,
/// hunger, diffusion and decay leave every element what it was.
pub proof fn law_terrain_by_element(w: WorldV, x: Element)
    requires
        w.wf(),
    ensures
        total_of(terrain_phase(w), x) == total_of(w, x) + (if terrain_due(w.tick) {
            existence_shift(w, w.ents, w.ents.len() as int, x)
        } else {
            0
        }),
{
    if terrain_due(w.tick) {
        let n = w.ents.len() as int;
        lemma_existed(w, w.ents, n);
        lemma_existed_by(w, w.ents, n, x);
        let a = existed(w, w.ents, n);
        lemma_weathered(a);
        let b = weathered(a);
        assert forall|i: int| 0 <= i < a.ents.len() implies same_book(
            a.ents[i],
            #[trigger] b.ents[i],
        ) by {}
        lemma_still_total(a, b, x);
        law_diffusion_is_conserved(b.terrain, b.terrain_tuning, x.at());
        let c = WorldV { terrain: diffused(b.terrain, b.terrain_tuning), ..b };
        assert(mass(c) == mass(b));
        assert(total_of(c, x) == total_of(b, x));
        let total = sum_by(c.ground, pile_mass());
        lemma_mass_parts(c);
        if total != 0 {
            crate::governor::law_settle_keeps_wf(c.decay, seq![total as u64]);
            reveal_with_fuel(crate::governor::settled_all, 2);
            assert(seq![total as u64].drop_last() =~= Seq::<u64>::empty());
            let u = WorldV { decay: c.decay.settled(total as u64), ..c };
            assert(u.decay.wf());
            law_erosion_by_element(u, 0, c.decay.payable(total as u64), x);
        }
    }
}

proof fn lemma_alive_by(s: Seq<EntityV>, x: Element)
    ensures
        sum_by(s.filter(|e: EntityV| e.alive), held_of(x)) == sum_by(s, held_of(x)),
    decreases s.len(),
{
    reveal(Seq::filter);
    if s.len() > 0 {
        lemma_alive_by(s.drop_last(), x);
        let t = s.drop_last().filter(|e: EntityV| e.alive);
        lemma_sum_push(t, s.last(), held_of(x));
    }
}

/// Removing the dead changes nothing in the books of any element.
pub proof fn law_reaping_by_element(w: WorldV, x: Element)
    ensures
        total_of(reap_phase(w), x) == total_of(w, x),
{
    lemma_alive_by(w.ents, x);
}

// ----------------------------------------------------------------------
// The tick.
// ----------------------------------------------------------------------

/// The world when meals are looked for.
pub open spec fn gathered(w: WorldV, log: Seq<Command>) -> WorldV {
    collisions_phase(movement_phase(aging_phase(commands_phase(w, log))))
}

/// How one tick changes the books of `x`: by the commanded recipes, the meals
/// and, on a terrain tick, the `Exist` recipes.
pub open spec fn tick_shift(w: WorldV, log: Seq<Command>, x: Element) -> int {
    let cs = stamped(log, w.tick);
    let d = gathered(w, log);
    let pairs = meals(d, d.ents.len() as int).pairs;
    let f = flora_phase(lived(w, log));
    commands_shift(w, w.ents, cs, cs.len() as int, x) + meals_shift(
        d.ents,
        pairs,
        pairs.len() as int,
        x,
    ) + (if terrain_due(w.tick) {
        existence_shift(f, f.ents, f.ents.len() as int, x)
    } else {
        0
    })
}

/// Only recipes and meals change what material is. Over a tick, the books of
/// each element change by the batches that recipes performed and by the prey
/// that was eaten, and by nothing else.
pub proof fn law_only_recipes_and_meals_transmute(w: WorldV, log: Seq<Command>, x: Element)
    requires
        w.wf(),
        ids_fit(w, log),
    ensures
        total_of(stepped(w, log), x) == total_of(w, x) + tick_shift(w, log, x),
{
    reveal(stepped);
    lemma_early(w, log);
    lemma_lived(w, log);
    let cs = stamped(log, w.tick);
    lemma_commanded_by(w, w.ents, cs, cs.len() as int, x);
    let a = commands_phase(w, log);
    lemma_aged_by(a, a.ents.len() as int, x);
    let b = aging_phase(a);
    law_movement(b);
    let c = movement_phase(b);
    assert forall|i: int| 0 <= i < b.ents.len() implies same_book(b.ents[i], #[trigger] c.ents[i]) by {}
    lemma_still_total(b, c, x);
    law_collisions(c);
    let d = collisions_phase(c);
    assert forall|i: int| 0 <= i < c.ents.len() implies same_book(c.ents[i], #[trigger] d.ents[i]) by {}
    lemma_still_total(c, d, x);
    law_feeding_by_element(d, x);
    let e = lived(w, log);
    law_flora(e);
    law_flora_by_element(e, x);
    let f = flora_phase(e);
    law_terrain_by_element(f, x);
    law_reaping_by_element(terrain_phase(f), x);
    let h = reap_phase(terrain_phase(f));
    assert(total_of(stepped(w, log), x) == total_of(h, x));
}

} // verus!
