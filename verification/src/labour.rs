//! What a body's work moves, and where to.
//!
//! A recipe takes whole batches: as many as its rate asks for and its source
//! holds. What it makes goes where the recipe says, what it wastes goes back
//! into the ground underfoot, and the body rests before it does so again.
use crate::commands::applied;
use crate::element::Element;
use crate::entity::EntityV;
use crate::fx::{min_int, Fx, V2};
use crate::hunting::{lemma_under, row_of, under};
use crate::input::{CmdKind, Command};
use crate::parting::gap;
use crate::race::{
    action_for, lemma_action_for, ActionRecipe, ActionSlot, ElementTransform, Race, RateLaw,
    RecipeSlot,
};
use crate::recipes::{
    batches, fired, is_near, item_broken, item_made, lemma_batches, lemma_requested, lemma_stock_of,
    performed, stock_of, stored, withdrawn,
};
use crate::seeding::{in_cell, law_a_crowd_is_a_count};
use crate::soil::law_a_deposit_lands_where_it_falls;
use crate::spatial::crowd;
use crate::terrain::{deposited, lemma_deposited_wf, TerrainV};
use crate::world::{
    body_mass, find_id, in_square, lemma_body_mass_parts, lemma_find_id, lemma_mass_parts, mass,
    shaped, WorldV,
};
use vstd::prelude::*;

verus! {

// ----------------------------------------------------------------------
// Words.
// ----------------------------------------------------------------------

/// What body `i` has in one of its simple pools of the element at place `x`:
/// the cell it stands in, its load, or itself, which is of one element only.
pub open spec fn pool(w: WorldV, i: int, slot: RecipeSlot, x: int) -> int {
    let b = w.ents[i];
    match slot {
        RecipeSlot::Terrain => w.terrain.cells[under(w.terrain.side, b.pos)][x] as int,
        RecipeSlot::Carried => b.carried[x] as int,
        RecipeSlot::Body => b.material as int,
        _ => 0,
    }
}

/// A pool that is one number per element.
pub open spec fn is_simple(slot: RecipeSlot) -> bool {
    slot == RecipeSlot::Terrain || slot == RecipeSlot::Carried || slot == RecipeSlot::Body
}

/// Two names of one pool.
pub open spec fn is_pool(slot: RecipeSlot, x: int, slot2: RecipeSlot, x2: int) -> bool {
    slot == slot2 && (slot == RecipeSlot::Body || x == x2)
}

/// `n` where a condition holds, else nothing.
pub open spec fn only(c: bool, n: int) -> int {
    if c {
        n
    } else {
        0
    }
}

/// How much one firing asks for: a flat number, or a base and so much for every
/// other of the race in the cell and for the size of the body.
pub open spec fn appetite(w: WorldV, bodies: Seq<EntityV>, i: int, rate: RateLaw) -> int {
    let b = w.ents[i];
    let c = under(w.terrain.side, b.pos);
    let there = bodies.filter(in_cell(w.terrain.side, b.element, b.kind, c)).len();
    match rate {
        RateLaw::Flat(n) => n as int,
        RateLaw::NeighborScaled { base, per_neighbor, per_size } => base + per_neighbor * (
        if there > 1 {
            there - 1
        } else {
            0
        }) + per_size * b.size / 1000,
    }
}

/// The recipe that a body has for a slot is the first of its race's that is for
/// it.
pub open spec fn has_recipe(w: WorldV, i: int, slot: ActionSlot, k: int) -> bool {
    let actions = w.races[row_of(w.ents[i])].actions;
    &&& 0 <= k < actions.len()
    &&& actions[k].slot == slot
    &&& forall|j: int| 0 <= j < k ==> (#[trigger] actions[j]).slot != slot
}

proof fn lemma_first_recipe(s: Seq<ActionRecipe>, slot: ActionSlot, k: int)
    requires
        0 <= k < s.len(),
        s[k].slot == slot,
        forall|j: int| 0 <= j < k ==> (#[trigger] s[j]).slot != slot,
    ensures
        action_for(s, slot) == Some(s[k]),
    decreases s.len(),
{
    if k > 0 {
        assert(s[0].slot != slot);
        let t = s.skip(1);
        assert forall|j: int| 0 <= j < k - 1 implies (#[trigger] t[j]).slot != slot by {
            assert(t[j] == s[j + 1]);
        }
        lemma_first_recipe(t, slot, k - 1);
    }
}

proof fn lemma_id(w: WorldV, i: int)
    requires
        w.wf(),
        0 <= i < w.ents.len(),
    ensures
        find_id(w.ents, w.ents[i].id) == Some(i),
{
    assert forall|j: int| 0 <= j < i implies (#[trigger] w.ents[j]).id != w.ents[i].id by {
        assert(w.ents[j].id < w.ents[i].id);
    }
    crate::world::lemma_id_pos(w.ents, w.ents[i].id, i);
}

// ----------------------------------------------------------------------
// Steps of a recipe.
// ----------------------------------------------------------------------

/// Everything but the pools of body `i` is the same.
spec fn pools_only(w: WorldV, u: WorldV, i: int) -> bool {
    &&& u.terrain.wf()
    &&& u.terrain.side == w.terrain.side
    &&& u.ents.len() == w.ents.len()
    &&& u.ground == w.ground
    &&& u.tick == w.tick
    &&& forall|j: int| 0 <= j < w.ents.len() && j != i ==> #[trigger] u.ents[j] == w.ents[j]
    &&& u.ents[i] == (EntityV {
        material: u.ents[i].material,
        carried: u.ents[i].carried,
        ..w.ents[i]
    })
    &&& u.ents[i].carried.len() == w.ents[i].carried.len()
    &&& forall|d: int|
        0 <= d < w.terrain.cells.len() && d != under(w.terrain.side, w.ents[i].pos)
            ==> #[trigger] u.terrain.cells[d] == w.terrain.cells[d]
}

proof fn lemma_pool_drawn(
    w: WorldV,
    i: int,
    slot: RecipeSlot,
    e: Element,
    reach: Fx,
    amount: int,
)
    requires
        w.terrain.wf(),
        0 <= i < w.ents.len(),
        w.ents[i].pos.x.0 >= 0,
        w.ents[i].pos.y.0 >= 0,
        w.ents[i].carried.len() == 5,
        is_simple(slot),
        0 <= amount <= pool(w, i, slot, e.at()),
    ensures
        ({
            let u = withdrawn(w, i, slot, e, reach, amount);
            &&& pools_only(w, u, i)
            &&& forall|s: RecipeSlot, x: int|
                is_simple(s) && 0 <= x < 5 ==> #[trigger] pool(u, i, s, x) == pool(w, i, s, x)
                    - only(is_pool(slot, e.at(), s, x), amount)
        }),
{
    reveal(withdrawn);
    let b = w.ents[i];
    lemma_under(w.terrain.side, b.pos);
    crate::terrain::lemma_cell_index(
        w.terrain.side,
        crate::terrain::cell_xy(w.terrain.side, b.pos).0,
        crate::terrain::cell_xy(w.terrain.side, b.pos).1,
    );
    let c = under(w.terrain.side, b.pos);
    assert(w.terrain.cells[c].len() == 5);
    let u = withdrawn(w, i, slot, e, reach, amount);
    assert forall|d: int| 0 <= d < u.terrain.cells.len() implies (
    #[trigger] u.terrain.cells[d]).len() == 5 by {
        assert(w.terrain.cells[d].len() == 5);
    }
}

proof fn lemma_pool_put(w: WorldV, i: int, slot: RecipeSlot, e: Element, amount: u64)
    requires
        w.terrain.wf(),
        0 <= i < w.ents.len(),
        w.ents[i].pos.x.0 >= 0,
        w.ents[i].pos.y.0 >= 0,
        w.ents[i].carried.len() == 5,
        is_simple(slot),
        pool(w, i, slot, e.at()) + amount <= (if slot == RecipeSlot::Terrain {
            65535
        } else {
            u64::MAX as int
        }),
    ensures
        ({
            let u = stored(w, i, slot, e, amount);
            &&& pools_only(w, u, i)
            &&& forall|s: RecipeSlot, x: int|
                is_simple(s) && 0 <= x < 5 ==> #[trigger] pool(u, i, s, x) == pool(w, i, s, x)
                    + only(is_pool(slot, e.at(), s, x), amount as int)
        }),
{
    reveal(stored);
    let b = w.ents[i];
    lemma_under(w.terrain.side, b.pos);
    law_a_deposit_lands_where_it_falls(w.terrain, b.race(), e, amount, b.pos);
    lemma_deposited_wf(w.terrain, b.race(), e, amount, b.pos);
    let c = under(w.terrain.side, b.pos);
    let t = deposited(w.terrain, b.race(), e, amount, b.pos);
    assert(t.cells[c].len() == 5 && w.terrain.cells[c].len() == 5);
    lemma_other_cells(w.terrain, b.race(), e, amount, b.pos);
}

proof fn lemma_other_cells(t: TerrainV, r: Race, e: Element, amount: u64, at: V2)
    requires
        t.wf(),
        at.x.0 >= 0,
        at.y.0 >= 0,
    ensures
        forall|d: int|
            0 <= d < t.cells.len() && d != under(t.side, at) ==> #[trigger] deposited(
                t,
                r,
                e,
                amount,
                at,
            ).cells[d] == t.cells[d],
{
    let u = deposited(t, r, e, amount, at);
    law_a_deposit_lands_where_it_falls(t, r, e, amount, at);
    lemma_deposited_wf(t, r, e, amount, at);
    assert forall|d: int| 0 <= d < t.cells.len() && d != under(t.side, at) implies #[trigger] u.cells[d]
        == t.cells[d] by {
        assert(u.cells[d].len() == 5 && t.cells[d].len() == 5);
        assert forall|k: int| 0 <= k < 5 implies u.cells[d][k] == t.cells[d][k] by {}
        assert(u.cells[d] =~= t.cells[d]);
    }
}

// ----------------------------------------------------------------------
// A recipe as a whole.
// ----------------------------------------------------------------------

proof fn lemma_appetite(w: WorldV, bodies: Seq<EntityV>, i: int, rate: RateLaw)
    requires
        w.terrain.wf(),
        0 <= i < w.ents.len(),
        w.ents[i].pos.x.0 >= 0,
        w.ents[i].pos.y.0 >= 0,
        forall|m: int|
            0 <= m < bodies.len() ==> (#[trigger] bodies[m]).pos.x.0 >= 0 && bodies[m].pos.y.0 >= 0,
    ensures
        rate.spec_requested(
            crowd(
                bodies,
                w.terrain.side,
                w.ents[i].race(),
                crate::terrain::cell_at(w.terrain.side, w.ents[i].pos),
            ),
            w.ents[i].size as int,
        ) == appetite(w, bodies, i, rate),
{
    let b = w.ents[i];
    lemma_under(w.terrain.side, b.pos);
    law_a_crowd_is_a_count(bodies, w.terrain.side, b.race(), under(w.terrain.side, b.pos));
}

/// What a recipe does when it fires: it draws whole batches from its source, as
/// many as it asks for and the source holds, and puts what they yield where the
/// recipe says, turned into the next element of the ring if it says so; what is
/// wasted goes into the cell underfoot as what it was. Then the body rests.
/// Without a whole batch nothing happens.
pub open spec fn worked(
    w: WorldV,
    u: WorldV,
    i: int,
    recipe: ActionRecipe,
    e: Element,
    n: int,
) -> bool {
    let k = e.at();
    let out = if recipe.transform == ElementTransform::Generates {
        (k + 1) % 5
    } else {
        k
    };
    let (drawn, made) = (n * recipe.ratio_in, n * recipe.ratio_out);
    &&& n == 0 ==> u == w
    &&& forall|s: RecipeSlot, x: int|
        is_simple(s) && 0 <= x < 5 ==> #[trigger] pool(u, i, s, x) == pool(w, i, s, x) - only(
            is_pool(recipe.input, k, s, x),
            drawn,
        ) + only(is_pool(recipe.output, out, s, x), made) + only(
            is_pool(RecipeSlot::Terrain, k, s, x),
            drawn - made,
        )
    &&& n > 0 ==> u.ents[i].action_ready_at == w.ents[i].action_ready_at.update(
        recipe.slot.at(),
        (w.tick + recipe.cooldown_ticks) as u64,
    )
    &&& u.ents[i].pos == w.ents[i].pos
    &&& u.ents[i].items == w.ents[i].items
    &&& u.ents[i].hp == w.ents[i].hp
    &&& u.ents[i].hunger == w.ents[i].hunger
    &&& u.ents.len() == w.ents.len()
    &&& u.ground == w.ground
    &&& forall|j: int| 0 <= j < w.ents.len() && j != i ==> #[trigger] u.ents[j] == w.ents[j]
    &&& forall|d: int|
        0 <= d < w.terrain.cells.len() && d != under(w.terrain.side, w.ents[i].pos)
            ==> #[trigger] u.terrain.cells[d] == w.terrain.cells[d]
}

/// A living body with a recipe for a slot works by it, unless it still rests.
pub proof fn law_work_goes_by_the_recipe(
    w: WorldV,
    bodies: Seq<EntityV>,
    i: int,
    slot: ActionSlot,
    e: Element,
    k: int,
)
    requires
        w.wf(),
        w.inside(),
        w.tick + 65535 <= u64::MAX,
        forall|m: int|
            0 <= m < bodies.len() ==> (#[trigger] bodies[m]).pos.x.0 >= 0 && bodies[m].pos.y.0 >= 0,
        0 <= i < w.ents.len(),
        w.ents[i].alive,
        has_recipe(w, i, slot, k),
        is_simple(w.races[row_of(w.ents[i])].actions[k].input),
        is_simple(w.races[row_of(w.ents[i])].actions[k].output),
        forall|x: int|
            0 <= x < 5 ==> #[trigger] pool(w, i, RecipeSlot::Terrain, x) + min_int(
                appetite(w, bodies, i, w.races[row_of(w.ents[i])].actions[k].rate),
                pool(w, i, w.races[row_of(w.ents[i])].actions[k].input, e.at()),
            ) <= 65535,
    ensures
        ({
            let recipe = w.races[row_of(w.ents[i])].actions[k];
            let u = fired(w, bodies, w.ents[i].id, slot, e);
            let n = min_int(
                appetite(w, bodies, i, recipe.rate),
                pool(w, i, recipe.input, e.at()),
            ) / recipe.ratio_in as int;
            &&& w.tick < w.ents[i].action_ready_at[slot.at()] ==> u == w
            &&& w.tick >= w.ents[i].action_ready_at[slot.at()] ==> worked(w, u, i, recipe, e, n)
        }),
{
    let b = w.ents[i];
    let actions = w.races[row_of(b)].actions;
    let recipe = actions[k];
    crate::race::law_race_positions(b.race(), 0);
    assert(row_of(b) == b.race().at());
    lemma_id(w, i);
    lemma_first_recipe(actions, slot, k);
    assert(in_square(w.size, b.pos));
    assert(shaped(b));
    assert(w.races[row_of(b)].actions_valid());
    assert(recipe.is_valid());
    lemma_under(w.terrain.side, b.pos);
    lemma_appetite(w, bodies, i, recipe.rate);
    assert(stock_of(w, i, recipe.input, e, recipe.reach) == pool(w, i, recipe.input, e.at()));
    lemma_stock_of(w, i, recipe.input, e, recipe.reach);
    lemma_requested(w, bodies, i, recipe);
    lemma_batches(w, bodies, i, recipe, e);
    let n = batches(w, bodies, i, recipe, e);
    if w.tick >= b.action_ready_at[slot.at()] {
        if n == 0 {
            assert(n * recipe.ratio_in == 0 && n * recipe.ratio_out == 0) by (nonlinear_arith)
                requires
                    n == 0,
            ;
        } else {
            let (m, q) = (
                min_int(appetite(w, bodies, i, recipe.rate), pool(w, i, recipe.input, e.at())),
                recipe.ratio_in as int,
            );
            vstd::arithmetic::div_mod::lemma_fundamental_div_mod(m, q);
            assert(q * n == n * q) by (nonlinear_arith);
            assert forall|x: int| 0 <= x < 5 implies #[trigger] pool(w, i, RecipeSlot::Terrain, x)
                + n * recipe.ratio_in <= 65535 by {
                assert(n * recipe.ratio_in <= m);
            }
            lemma_worked(w, i, recipe, e, n);
        }
    }
}

#[verifier::rlimit(60)]
proof fn lemma_worked(w: WorldV, i: int, recipe: ActionRecipe, e: Element, n: int)
    requires
        w.wf(),
        w.inside(),
        w.tick + 65535 <= u64::MAX,
        0 <= i < w.ents.len(),
        w.ents[i].alive,
        is_simple(recipe.input),
        is_simple(recipe.output),
        n > 0,
        0 <= n * recipe.ratio_out <= n * recipe.ratio_in,
        n * recipe.ratio_in <= pool(w, i, recipe.input, e.at()),
        forall|x: int|
            0 <= x < 5 ==> #[trigger] pool(w, i, RecipeSlot::Terrain, x) + n * recipe.ratio_in
                <= 65535,
    ensures
        worked(w, performed(w, i, recipe, e, n), i, recipe, e, n),
{
    let b = w.ents[i];
    assert(in_square(w.size, b.pos));
    assert(shaped(b));
    let (drawn, made) = (n * recipe.ratio_in, n * recipe.ratio_out);
    let out = recipe.transform.spec_apply(e);
    lemma_mass_parts(w);
    lemma_body_mass_parts(b);
    assert(body_mass(b) <= mass(w));
    let u = withdrawn(w, i, recipe.input, e, recipe.reach, drawn);
    lemma_pool_drawn(w, i, recipe.input, e, recipe.reach, drawn);
    assert(pool(w, i, recipe.output, out.at()) >= pool(u, i, recipe.output, out.at()));
    assert(pool(w, i, RecipeSlot::Terrain, out.at()) + drawn <= 65535);
    assert(pool(w, i, RecipeSlot::Terrain, e.at()) + drawn <= 65535);
    assert(pool(u, i, recipe.output, out.at()) + made <= (if recipe.output == RecipeSlot::Terrain {
        65535
    } else {
        u64::MAX as int
    })) by {
        lemma_room(w, i, recipe, e, n, u);
    }
    let v = stored(u, i, recipe.output, out, made as u64);
    lemma_pool_put(u, i, recipe.output, out, made as u64);
    let rest = (drawn - made) as u64;
    assert(pool(v, i, RecipeSlot::Terrain, e.at()) + rest <= 65535);
    let c = under(w.terrain.side, b.pos);
    law_a_deposit_lands_where_it_falls(v.terrain, b.race(), e, rest, b.pos);
    lemma_deposited_wf(v.terrain, b.race(), e, rest, b.pos);
    lemma_other_cells(v.terrain, b.race(), e, rest, b.pos);
    let x = WorldV { terrain: deposited(v.terrain, b.race(), e, rest, b.pos), ..v };
    let y = performed(w, i, recipe, e, n);
    assert(y.terrain == x.terrain);
    assert(y.ents[i].carried == v.ents[i].carried && y.ents[i].material == v.ents[i].material);
    assert(y.ents[i].pos == b.pos);
    assert forall|s: RecipeSlot, z: int| is_simple(s) && 0 <= z < 5 implies #[trigger] pool(
        y,
        i,
        s,
        z,
    ) == pool(v, i, s, z) + only(is_pool(RecipeSlot::Terrain, e.at(), s, z), rest as int) by {
        assert(x.terrain.cells[c][e.at()] == v.terrain.cells[c][e.at()] + rest);
        if z != e.at() {
            assert(x.terrain.cells[c][z] == v.terrain.cells[c][z]);
        }
    }
    assert(y.ents[i].action_ready_at == b.action_ready_at.update(
        recipe.slot.at(),
        (w.tick + recipe.cooldown_ticks) as u64,
    ));
}

proof fn lemma_room(
    w: WorldV,
    i: int,
    recipe: ActionRecipe,
    e: Element,
    n: int,
    u: WorldV,
)
    requires
        w.wf(),
        0 <= i < w.ents.len(),
        w.ents[i].alive,
        w.ents[i].pos.x.0 >= 0,
        w.ents[i].pos.y.0 >= 0,
        is_simple(recipe.input),
        is_simple(recipe.output),
        u == withdrawn(w, i, recipe.input, e, recipe.reach, n * recipe.ratio_in),
        0 <= n * recipe.ratio_out <= n * recipe.ratio_in <= pool(w, i, recipe.input, e.at()),
        pool(w, i, RecipeSlot::Terrain, recipe.transform.spec_apply(e).at()) + n * recipe.ratio_in
            <= 65535,
    ensures
        pool(u, i, recipe.output, recipe.transform.spec_apply(e).at()) + n * recipe.ratio_out <= (
        if recipe.output == RecipeSlot::Terrain {
            65535
        } else {
            u64::MAX as int
        }),
{
    let b = w.ents[i];
    assert(shaped(b));
    let drawn = n * recipe.ratio_in;
    let out = recipe.transform.spec_apply(e);
    lemma_under(w.terrain.side, b.pos);
    assert(stock_of(w, i, recipe.input, e, recipe.reach) == pool(w, i, recipe.input, e.at()));
    crate::recipes::lemma_withdrawn(w, i, recipe.input, e, recipe.reach, drawn);
    crate::recipes::lemma_keeps_form_wf(w, u);
    lemma_pool_drawn(w, i, recipe.input, e, recipe.reach, drawn);
    assert(u.ents[i].alive && u.ents[i].pos == b.pos);
    lemma_stock_of(u, i, recipe.output, out, recipe.reach);
    lemma_under(u.terrain.side, u.ents[i].pos);
    assert(stock_of(u, i, recipe.output, out, recipe.reach) == pool(u, i, recipe.output, out.at()));
}

/// A body that is dead, or whose race has no recipe for a slot, does nothing by
/// it; nor does an id that nobody has.
pub proof fn law_no_recipe_no_work(
    w: WorldV,
    bodies: Seq<EntityV>,
    id: u32,
    slot: ActionSlot,
    e: Element,
)
    requires
        w.wf(),
        forall|i: int|
            0 <= i < w.ents.len() && (#[trigger] w.ents[i]).id == id && w.ents[i].alive ==> (forall|
                k: int,
            |
                0 <= k < w.races[row_of(w.ents[i])].actions.len() ==> (
                #[trigger] w.races[row_of(w.ents[i])].actions[k]).slot != slot),
    ensures
        fired(w, bodies, id, slot, e) == w,
{
    lemma_find_id(w.ents, id);
    if let Some(i) = find_id(w.ents, id) {
        let b = w.ents[i];
        assert(row_of(b) == b.race().at());
        lemma_action_for(w.races[b.race().at()].actions, slot);
    }
}

/// Each command of work fires the recipe it is named after, on the element it
/// names.
pub proof fn law_a_work_command_fires_its_recipe(
    w: WorldV,
    bodies: Seq<EntityV>,
    tick: u64,
    id: u32,
    element: Element,
)
    ensures
        applied(w, bodies, Command { tick, entity: id, kind: CmdKind::Mine { element } }) == fired(
            w,
            bodies,
            id,
            ActionSlot::Mine,
            element,
        ),
        applied(w, bodies, Command { tick, entity: id, kind: CmdKind::Smelt { element } }) == fired(
            w,
            bodies,
            id,
            ActionSlot::Smelt,
            element,
        ),
        applied(w, bodies, Command { tick, entity: id, kind: CmdKind::Pickup { element } })
            == fired(w, bodies, id, ActionSlot::Pickup, element),
{
}

// ----------------------------------------------------------------------
// Items.
// ----------------------------------------------------------------------

/// A body makes an item of what it carries, exactly when it carries enough: the
/// load goes down by as much as the new item, the last of all, holds. Otherwise
/// nothing happens.
pub proof fn law_an_item_is_made_of_the_load(w: WorldV, i: int, e: Element, quantity: u64)
    requires
        w.wf(),
        0 <= i < w.ents.len(),
    ensures
        ({
            let b = w.ents[i];
            let u = item_made(w, b.id, e, quantity);
            let o = u.ents[i];
            let can = b.alive && 0 < quantity <= b.carried[e.at()];
            &&& !can ==> u == w
            &&& can ==> {
                &&& o.carried[e.at()] == b.carried[e.at()] - quantity
                &&& forall|x: int|
                    0 <= x < 5 && x != e.at() ==> #[trigger] o.carried[x] == b.carried[x]
                &&& o.items.len() == b.items.len() + 1
                &&& o.items.drop_last() == b.items
                &&& o.items.last().element == e
                &&& o.items.last().quantity == quantity
                &&& o == (EntityV { carried: o.carried, items: o.items, ..b })
            }
            &&& u.terrain == w.terrain
            &&& u.ground == w.ground
            &&& u.ents.len() == w.ents.len()
            &&& forall|j: int| 0 <= j < w.ents.len() && j != i ==> #[trigger] u.ents[j] == w.ents[j]
        }),
{
    lemma_id(w, i);
    let b = w.ents[i];
    assert(shaped(b));
    let u = item_made(w, b.id, e, quantity);
    let o = u.ents[i];
    if b.alive && 0 < quantity <= b.carried[e.at()] {
        assert(o.items.drop_last() =~= b.items);
    }
}

/// A body breaks the item of its that a number names, if there is one: the item
/// is gone, the others keep their order, and all that it held falls into the
/// cell underfoot.
pub proof fn law_a_broken_item_falls_underfoot(w: WorldV, i: int, index: u32)
    requires
        w.wf(),
        w.inside(),
        0 <= i < w.ents.len(),
    ensures
        ({
            let b = w.ents[i];
            let u = item_broken(w, b.id, index);
            let o = u.ents[i];
            let k = index as int;
            let c = under(w.terrain.side, b.pos);
            let can = b.alive && k < b.items.len();
            &&& !can ==> u == w
            &&& can ==> {
                let it = b.items[k];
                let x = it.element.at();
                &&& o.items.len() == b.items.len() - 1
                &&& o.items.take(k) == b.items.take(k)
                &&& o.items.skip(k) == b.items.skip(k + 1)
                &&& u.terrain.cells[c][x] == min_int(w.terrain.cells[c][x] + it.quantity, 65535)
                &&& forall|d: int|
                    0 <= d < w.terrain.cells.len() && d != c ==> #[trigger] u.terrain.cells[d]
                        == w.terrain.cells[d]
                &&& o == (EntityV { items: o.items, ..b })
            }
            &&& u.ground == w.ground
            &&& u.ents.len() == w.ents.len()
            &&& forall|j: int| 0 <= j < w.ents.len() && j != i ==> #[trigger] u.ents[j] == w.ents[j]
        }),
{
    lemma_id(w, i);
    let b = w.ents[i];
    assert(in_square(w.size, b.pos));
    let u = item_broken(w, b.id, index);
    let o = u.ents[i];
    let k = index as int;
    if b.alive && k < b.items.len() {
        let it = b.items[k];
        law_a_deposit_lands_where_it_falls(w.terrain, b.race(), it.element, it.quantity, b.pos);
        lemma_other_cells(w.terrain, b.race(), it.element, it.quantity, b.pos);
        assert(o.items == b.items.remove(k));
        assert(o.items.take(k) =~= b.items.take(k));
        assert(o.items.skip(k) =~= b.items.skip(k + 1));
    }
}

/// What lies on the ground is in reach when it is no farther off than that,
/// and is not when it is farther by more than rounding can hide.
pub proof fn law_reach_is_by_distance(a: V2, b: V2, reach: Fx)
    requires
        a.x.0 >= 0,
        a.y.0 >= 0,
        b.x.0 >= 0,
        b.y.0 >= 0,
        reach.0 >= 0,
        reach.0 * reach.0 < 65536 * i32::MAX,
    ensures
        gap(a, b) <= reach.0 * reach.0 ==> is_near(a, b, reach),
        gap(a, b) >= reach.0 * reach.0 + 131072 ==> !is_near(a, b, reach),
{
    let d = a.minus(b);
    let (dx, dy) = (a.x.0 - b.x.0, a.y.0 - b.y.0);
    assert(d.x.0 == dx && d.y.0 == dy);
    let (x, y, z) = (dx * dx, dy * dy, reach.0 * reach.0);
    assert(x >= 0 && y >= 0 && z >= 0) by (nonlinear_arith)
        requires
            x == dx * dx,
            y == dy * dy,
            z == reach.0 * reach.0,
    ;
    assert(gap(a, b) == x + y) by (nonlinear_arith)
        requires
            gap(a, b) == (b.x.0 - a.x.0) * (b.x.0 - a.x.0) + (b.y.0 - a.y.0) * (b.y.0 - a.y.0),
            x == (a.x.0 - b.x.0) * (a.x.0 - b.x.0),
            y == (a.y.0 - b.y.0) * (a.y.0 - b.y.0),
    ;
    assert(d.x.times(d.x).0 == crate::fx::sat32(x / 65536));
    assert(d.y.times(d.y).0 == crate::fx::sat32(y / 65536));
    assert(reach.times(reach).0 == z / 65536);
}

} // verus!
