//! Moving material: recipes, items and piles on the ground.
//!
//! Every command-triggered action and the one automatic action go through
//! [`World::apply_action_recipe`]. Nothing here creates or destroys material:
//! what a recipe draws it either puts where it belongs or returns to the
//! ground as tailings.
use crate::element::Element;
use crate::entity::{EntityV, Item};
use crate::fx::{max_int, min_int, Fx, V2};
use crate::race::{action_for, lemma_action_for, ActionRecipe, ActionSlot, Race, RecipeSlot};
use crate::spatial::{crowd, lemma_crowd_bound, Occupancy};
use crate::sums::{lemma_sum_append, lemma_sum_bounds, lemma_sum_push, lemma_sum_remove, lemma_sum_update, sum_by};
use crate::terrain::{
    cell_at, cell_mass, cell_xy, deposit_at, deposited, law_deposit_is_conserved, lemma_cell_index,
    lemma_deposited_wf, lemma_terrain_mass_parts, sat_u64, terrain_mass, TerrainV,
};
use crate::world::{
    body_mass, find_id, item_mass, lemma_body_mass_parts, lemma_find_id, lemma_mass_parts, mass,
    pile_mass, shaped, GroundItem, World, WorldV,
};
use vstd::prelude::*;

verus! {

/// Two positions are within `reach`.
pub open spec fn is_near(a: V2, b: V2, reach: Fx) -> bool {
    a.minus(b).spec_len_sq().0 <= reach.times(reach).0
}

pub fn near(a: V2, b: V2, reach: Fx) -> (r: bool)
    ensures
        r == is_near(a, b, reach),
{
    (a - b).len_sq().0 <= (reach * reach).0
}

/// A pile of one element: an item that a body holds, or one on the ground.
pub trait Pile: Copy {
    spec fn spec_quantity(self) -> u64;

    spec fn holding(self, q: u64) -> Self;

    /// Whether a recipe that draws `e` at `pos` can draw from this pile.
    spec fn drawable(self, e: Element, pos: V2, reach: Fx) -> bool;

    /// A pile with another quantity holds that, and is otherwise as it was.
    proof fn holding_holds(self, q: u64)
        ensures
            self.holding(q).spec_quantity() == q,
            forall|e: Element, pos: V2, reach: Fx|
                self.holding(q).drawable(e, pos, reach) == self.drawable(e, pos, reach),
    ;

    fn quantity(&self) -> (r: u64)
        ensures
            r == self.spec_quantity(),
    ;

    fn with_quantity(&self, q: u64) -> (r: Self)
        ensures
            r == self.holding(q),
    ;

    fn can_draw(&self, e: Element, pos: V2, reach: Fx) -> (r: bool)
        ensures
            r == self.drawable(e, pos, reach),
    ;
}

impl Pile for Item {
    open spec fn spec_quantity(self) -> u64 {
        self.quantity
    }

    open spec fn holding(self, q: u64) -> Item {
        Item { quantity: q, ..self }
    }

    open spec fn drawable(self, e: Element, pos: V2, reach: Fx) -> bool {
        self.element == e
    }

    proof fn holding_holds(self, q: u64) {
    }

    fn quantity(&self) -> (r: u64) {
        self.quantity
    }

    fn with_quantity(&self, q: u64) -> (r: Item) {
        Item { element: self.element, quantity: q }
    }

    fn can_draw(&self, e: Element, pos: V2, reach: Fx) -> (r: bool) {
        self.element == e
    }
}

impl Pile for GroundItem {
    open spec fn spec_quantity(self) -> u64 {
        self.quantity
    }

    open spec fn holding(self, q: u64) -> GroundItem {
        GroundItem { quantity: q, ..self }
    }

    open spec fn drawable(self, e: Element, pos: V2, reach: Fx) -> bool {
        self.element == e && is_near(self.pos, pos, reach)
    }

    proof fn holding_holds(self, q: u64) {
    }

    fn quantity(&self) -> (r: u64) {
        self.quantity
    }

    fn with_quantity(&self, q: u64) -> (r: GroundItem) {
        GroundItem { element: self.element, quantity: q, pos: self.pos }
    }

    fn can_draw(&self, e: Element, pos: V2, reach: Fx) -> (r: bool) {
        self.element == e && near(self.pos, pos, reach)
    }
}

/// What a pile holds.
pub open spec fn quantity_of<P: Pile>() -> spec_fn(P) -> int {
    |p: P| p.spec_quantity() as int
}

/// What can be drawn from a pile.
pub open spec fn drawable_of<P: Pile>(e: Element, pos: V2, reach: Fx) -> spec_fn(P) -> int {
    |p: P|
        if p.drawable(e, pos, reach) {
            p.spec_quantity() as int
        } else {
            0
        }
}

/// The piles once `amount` has been drawn: from the first that can be drawn
/// from on, each emptied pile removed.
pub open spec fn drained<P: Pile>(s: Seq<P>, e: Element, pos: V2, reach: Fx, amount: int) -> Seq<P>
    decreases s.len(),
{
    if s.len() == 0 {
        s
    } else {
        let p = s[0];
        if amount == 0 || !p.drawable(e, pos, reach) {
            seq![p] + drained(s.skip(1), e, pos, reach, amount)
        } else if p.spec_quantity() <= amount {
            drained(s.skip(1), e, pos, reach, amount - p.spec_quantity())
        } else {
            seq![p.holding((p.spec_quantity() - amount) as u64)] + s.skip(1)
        }
    }
}

pub proof fn lemma_sum_first<A>(s: Seq<A>, f: spec_fn(A) -> int)
    requires
        s.len() > 0,
    ensures
        sum_by(s, f) == f(s[0]) + sum_by(s.skip(1), f),
{
    let h = seq![s[0]];
    assert(s =~= h + s.skip(1));
    lemma_sum_append(h, s.skip(1), f);
    assert(h.drop_last() =~= Seq::<A>::empty());
    assert(sum_by(h, f) == f(s[0])) by {
        reveal_with_fuel(sum_by, 2);
    }
}

/// Draining takes exactly `amount`, as long as that much can be drawn.
pub proof fn law_draining_takes_the_amount<P: Pile>(
    s: Seq<P>,
    e: Element,
    pos: V2,
    reach: Fx,
    amount: int,
)
    requires
        0 <= amount <= sum_by(s, drawable_of::<P>(e, pos, reach)),
    ensures
        sum_by(drained(s, e, pos, reach, amount), quantity_of::<P>()) == sum_by(
            s,
            quantity_of::<P>(),
        ) - amount,
    decreases s.len(),
{
    let q = quantity_of::<P>();
    let d = drawable_of::<P>(e, pos, reach);
    if s.len() > 0 {
        let p = s[0];
        let rest = s.skip(1);
        lemma_sum_first(s, q);
        lemma_sum_first(s, d);
        assert forall|i: int| 0 <= i < rest.len() implies d(#[trigger] rest[i]) >= 0 by {}
        lemma_sum_bounds(rest, d);
        if amount == 0 || !p.drawable(e, pos, reach) {
            law_draining_takes_the_amount(rest, e, pos, reach, amount);
            let t = drained(rest, e, pos, reach, amount);
            lemma_sum_first(seq![p] + t, q);
            assert((seq![p] + t).skip(1) =~= t);
        } else if p.spec_quantity() <= amount {
            law_draining_takes_the_amount(rest, e, pos, reach, amount - p.spec_quantity());
        } else {
            let h = p.holding((p.spec_quantity() - amount) as u64);
            p.holding_holds((p.spec_quantity() - amount) as u64);
            lemma_sum_first(seq![h] + rest, q);
            assert((seq![h] + rest).skip(1) =~= rest);
        }
    }
}

/// The piles that can be drawn from.
pub open spec fn within<P: Pile>(e: Element, pos: V2, reach: Fx) -> spec_fn(P) -> bool {
    |p: P| p.drawable(e, pos, reach)
}

/// The piles that cannot be drawn from.
pub open spec fn beyond<P: Pile>(e: Element, pos: V2, reach: Fx) -> spec_fn(P) -> bool {
    |p: P| !p.drawable(e, pos, reach)
}

/// `t` is what is left of the piles `s` once `amount` has been drawn from
/// them: the first `k` are gone, the next may have been drawn in part, and all
/// behind it are as they were.
pub open spec fn drawn_from<P: Pile>(s: Seq<P>, t: Seq<P>, amount: int, k: int) -> bool {
    let gone = sum_by(s.take(k), quantity_of::<P>());
    &&& 0 <= k <= s.len()
    &&& ({
        ||| t == s.skip(k) && gone == amount
        ||| {
            &&& k < s.len()
            &&& gone < amount < gone + s[k].spec_quantity()
            &&& t == seq![s[k].holding((s[k].spec_quantity() - (amount - gone)) as u64)] + s.skip(
                k + 1,
            )
        }
    })
}

proof fn lemma_filter_first<A>(s: Seq<A>, f: spec_fn(A) -> bool)
    requires
        s.len() > 0,
    ensures
        s.filter(f) == (if f(s[0]) {
            seq![s[0]] + s.skip(1).filter(f)
        } else {
            s.skip(1).filter(f)
        }),
{
    let h = seq![s[0]];
    assert(s =~= h + s.skip(1));
    Seq::filter_distributes_over_add(h, s.skip(1), f);
    assert(h.filter(f) == (if f(s[0]) {
        h
    } else {
        Seq::<A>::empty()
    })) by {
        reveal(Seq::filter);
        assert(h.drop_last() =~= Seq::<A>::empty());
        assert(Seq::<A>::empty().filter(f) =~= Seq::<A>::empty());
        assert(Seq::<A>::empty().push(s[0]) =~= h);
    }
    assert(Seq::<A>::empty() + s.skip(1).filter(f) =~= s.skip(1).filter(f));
}

/// Draining leaves every pile that cannot be drawn from as it is and where it
/// is among its like. Of those that can, it takes the first ones whole, at most
/// one in part, and none behind that one.
pub proof fn law_draining_goes_in_order<P: Pile>(
    s: Seq<P>,
    e: Element,
    pos: V2,
    reach: Fx,
    amount: int,
)
    requires
        0 <= amount <= sum_by(s, drawable_of::<P>(e, pos, reach)),
    ensures
        drained(s, e, pos, reach, amount).filter(beyond(e, pos, reach)) == s.filter(
            beyond(e, pos, reach),
        ),
        exists|k: int|
            drawn_from(
                s.filter(within(e, pos, reach)),
                drained(s, e, pos, reach, amount).filter(within(e, pos, reach)),
                amount,
                k,
            ),
{
    let k = lemma_drained_in_order(s, e, pos, reach, amount);
}

proof fn lemma_drained_in_order<P: Pile>(
    s: Seq<P>,
    e: Element,
    pos: V2,
    reach: Fx,
    amount: int,
) -> (k: int)
    requires
        0 <= amount <= sum_by(s, drawable_of::<P>(e, pos, reach)),
    ensures
        drained(s, e, pos, reach, amount).filter(beyond(e, pos, reach)) == s.filter(
            beyond(e, pos, reach),
        ),
        drawn_from(
            s.filter(within(e, pos, reach)),
            drained(s, e, pos, reach, amount).filter(within(e, pos, reach)),
            amount,
            k,
        ),
    decreases s.len(),
{
    let q = quantity_of::<P>();
    let d = drawable_of::<P>(e, pos, reach);
    let i = within::<P>(e, pos, reach);
    let o = beyond::<P>(e, pos, reach);
    let t = drained(s, e, pos, reach, amount);
    let si = s.filter(i);
    if amount == 0 || s.len() == 0 {
        lemma_drained_nothing(s, e, pos, reach);
        assert(si.skip(0) =~= si);
        assert(si.take(0) =~= Seq::<P>::empty());
        0
    } else {
        let p = s[0];
        let rest = s.skip(1);
        lemma_sum_first(s, d);
        assert forall|j: int| 0 <= j < rest.len() implies d(#[trigger] rest[j]) >= 0 by {}
        lemma_sum_bounds(rest, d);
        lemma_filter_first(s, i);
        lemma_filter_first(s, o);
        let ri = rest.filter(i);
        if !p.drawable(e, pos, reach) {
            let u = drained(rest, e, pos, reach, amount);
            let k = lemma_drained_in_order(rest, e, pos, reach, amount);
            assert(t == seq![p] + u);
            assert(t.skip(1) =~= u);
            lemma_filter_first(t, i);
            lemma_filter_first(t, o);
            k
        } else if p.spec_quantity() <= amount {
            let left = amount - p.spec_quantity();
            let k = lemma_drained_in_order(rest, e, pos, reach, left);
            assert(si.skip(1) =~= ri);
            assert(si.take(k + 1).skip(1) =~= ri.take(k));
            lemma_sum_first(si.take(k + 1), q);
            assert(si.skip(k + 1) =~= ri.skip(k));
            if k < ri.len() {
                assert(si[k + 1] == ri[k]);
                assert(si.skip(k + 2) =~= ri.skip(k + 1));
            }
            k + 1
        } else {
            let h = p.holding((p.spec_quantity() - amount) as u64);
            p.holding_holds((p.spec_quantity() - amount) as u64);
            assert(t == seq![h] + rest);
            assert(t.skip(1) =~= rest);
            lemma_filter_first(t, i);
            lemma_filter_first(t, o);
            assert(si.take(0) =~= Seq::<P>::empty());
            assert(si.skip(1) =~= ri);
            0
        }
    }
}

/// Draining takes the amount from what can be drawn, and nothing from what
/// another draw would take, be it of another element or from elsewhere.
pub proof fn law_draining_lowers_the_stock<P: Pile>(
    s: Seq<P>,
    e: Element,
    pos: V2,
    reach: Fx,
    amount: int,
)
    requires
        0 <= amount <= sum_by(s, drawable_of::<P>(e, pos, reach)),
    ensures
        sum_by(drained(s, e, pos, reach, amount), drawable_of::<P>(e, pos, reach)) == sum_by(
            s,
            drawable_of::<P>(e, pos, reach),
        ) - amount,
        forall|e2: Element, pos2: V2, reach2: Fx|
            (forall|p: P|
                p.drawable(e, pos, reach) ==> !#[trigger] p.drawable(e2, pos2, reach2))
                ==> #[trigger] sum_by(
                drained(s, e, pos, reach, amount),
                drawable_of::<P>(e2, pos2, reach2),
            ) == sum_by(s, drawable_of::<P>(e2, pos2, reach2)),
    decreases s.len(),
{
    let d = drawable_of::<P>(e, pos, reach);
    let t = drained(s, e, pos, reach, amount);
    if s.len() > 0 {
        let p = s[0];
        let rest = s.skip(1);
        lemma_sum_first(s, d);
        assert forall|j: int| 0 <= j < rest.len() implies d(#[trigger] rest[j]) >= 0 by {}
        lemma_sum_bounds(rest, d);
        let h = p.holding((p.spec_quantity() - amount) as u64);
        p.holding_holds((p.spec_quantity() - amount) as u64);
        let kept = amount == 0 || !p.drawable(e, pos, reach);
        let whole = !kept && p.spec_quantity() <= amount;
        if kept {
            law_draining_lowers_the_stock(rest, e, pos, reach, amount);
            let u = drained(rest, e, pos, reach, amount);
            assert(t == seq![p] + u);
            assert(t.skip(1) =~= u);
            lemma_sum_first(t, d);
        } else if whole {
            law_draining_lowers_the_stock(rest, e, pos, reach, amount - p.spec_quantity());
        } else {
            assert(t == seq![h] + rest);
            assert(t.skip(1) =~= rest);
            lemma_sum_first(t, d);
        }
        assert forall|e2: Element, pos2: V2, reach2: Fx|
            (forall|p: P|
                p.drawable(e, pos, reach) ==> !#[trigger] p.drawable(
                    e2,
                    pos2,
                    reach2,
                )) implies #[trigger] sum_by(t, drawable_of::<P>(e2, pos2, reach2)) == sum_by(
            s,
            drawable_of::<P>(e2, pos2, reach2),
        ) by {
            let f = drawable_of::<P>(e2, pos2, reach2);
            lemma_sum_first(s, f);
            if kept {
                lemma_sum_first(t, f);
                assert(t.skip(1) =~= drained(rest, e, pos, reach, amount));
            } else if !whole {
                lemma_sum_first(t, f);
                assert(t.skip(1) =~= rest);
            }
        }
    }
}

/// How much of `e` can be drawn from the piles.
fn pile_stock<P: Pile>(v: &Vec<P>, e: Element, pos: V2, reach: Fx) -> (r: u64)
    requires
        sum_by(v@, drawable_of::<P>(e, pos, reach)) <= u64::MAX,
    ensures
        r == sum_by(v@, drawable_of::<P>(e, pos, reach)),
{
    let ghost d = drawable_of::<P>(e, pos, reach);
    let mut sum: u64 = 0;
    let mut i: usize = 0;
    while i < v.len()
        invariant
            i <= v@.len(),
            d == drawable_of::<P>(e, pos, reach),
            sum_by(v@, d) <= u64::MAX,
            sum == sum_by(v@.take(i as int), d),
        decreases v.len() - i,
    {
        proof {
            assert(v@.take(i + 1).drop_last() =~= v@.take(i as int));
            assert forall|j: int| 0 <= j < v@.len() implies d(#[trigger] v@[j]) >= 0 by {}
            crate::sums::lemma_sum_prefix(v@, i + 1, d);
        }
        if v[i].can_draw(e, pos, reach) {
            sum = sum + v[i].quantity();
        }
        i = i + 1;
    }
    assert(v@.take(i as int) =~= v@);
    sum
}

/// Draw `amount` of `e` from the piles.
fn drain_piles<P: Pile>(v: &Vec<P>, e: Element, pos: V2, reach: Fx, amount: u64) -> (out: Vec<P>)
    ensures
        out@ == drained(v@, e, pos, reach, amount as int),
{
    let mut out: Vec<P> = Vec::new();
    let mut remaining: u64 = amount;
    let mut i: usize = 0;
    assert(v@.skip(0) =~= v@);
    assert(Seq::<P>::empty() + drained(v@, e, pos, reach, amount as int) =~= drained(
        v@,
        e,
        pos,
        reach,
        amount as int,
    ));
    while i < v.len()
        invariant
            i <= v@.len(),
            out@ + drained(v@.skip(i as int), e, pos, reach, remaining as int) == drained(
                v@,
                e,
                pos,
                reach,
                amount as int,
            ),
        decreases v.len() - i,
    {
        let p: P = v[i];
        let ghost before = out@;
        let ghost rest = v@.skip(i as int);
        let ghost left = remaining as int;
        assert(rest[0] == p);
        assert(rest.skip(1) =~= v@.skip(i + 1));
        if remaining == 0 || !p.can_draw(e, pos, reach) {
            out.push(p);
            assert(before + (seq![p] + drained(rest.skip(1), e, pos, reach, left)) =~= out@
                + drained(v@.skip(i + 1), e, pos, reach, remaining as int));
        } else if p.quantity() <= remaining {
            remaining = remaining - p.quantity();
        } else {
            let h: P = p.with_quantity(p.quantity() - remaining);
            out.push(h);
            remaining = 0;
            proof {
                lemma_drained_nothing(rest.skip(1), e, pos, reach);
                assert(before + (seq![h] + rest.skip(1)) =~= out@ + rest.skip(1));
            }
        }
        i = i + 1;
    }
    assert(v@.skip(i as int) =~= Seq::<P>::empty());
    assert(out@ + Seq::<P>::empty() =~= out@);
    out
}

proof fn lemma_drained_nothing<P: Pile>(s: Seq<P>, e: Element, pos: V2, reach: Fx)
    ensures
        drained(s, e, pos, reach, 0) == s,
    decreases s.len(),
{
    if s.len() > 0 {
        lemma_drained_nothing(s.skip(1), e, pos, reach);
        assert(seq![s[0]] + s.skip(1) =~= s);
    }
}

// ----------------------------------------------------------------------
// What a recipe draws from and puts into.
// ----------------------------------------------------------------------

/// How much of `e` body `i` can draw from a slot.
pub open spec fn stock_of(w: WorldV, i: int, slot: RecipeSlot, e: Element, reach: Fx) -> int {
    let b = w.ents[i];
    match slot {
        RecipeSlot::Terrain => w.terrain.stock(cell_at(w.terrain.side, b.pos), e) as int,
        RecipeSlot::Carried => b.carried[e.at()] as int,
        RecipeSlot::Item => sum_by(b.items, drawable_of::<Item>(e, b.pos, reach)),
        RecipeSlot::Ground => sum_by(w.ground, drawable_of::<GroundItem>(e, b.pos, reach)),
        RecipeSlot::Body => b.material as int,
    }
}

pub open spec fn with_body(w: WorldV, i: int, e: EntityV) -> WorldV {
    WorldV { ents: w.ents.update(i, e), ..w }
}

/// The world after body `i` has drawn `amount` of `e` from a slot.
#[verifier::opaque]
pub open spec fn withdrawn(
    w: WorldV,
    i: int,
    slot: RecipeSlot,
    e: Element,
    reach: Fx,
    amount: int,
) -> WorldV {
    let b = w.ents[i];
    match slot {
        RecipeSlot::Terrain => {
            let c = cell_at(w.terrain.side, b.pos);
            let left = max_int(w.terrain.stock(c, e) - amount, 0) as u16;
            WorldV { terrain: w.terrain.with_stock(c, e, left), ..w }
        },
        RecipeSlot::Carried => with_body(
            w,
            i,
            EntityV {
                carried: b.carried.update(
                    e.at(),
                    max_int(b.carried[e.at()] - amount, 0) as u64,
                ),
                ..b
            },
        ),
        RecipeSlot::Item => with_body(
            w,
            i,
            EntityV { items: drained(b.items, e, b.pos, reach, amount), ..b },
        ),
        RecipeSlot::Ground => WorldV { ground: drained(w.ground, e, b.pos, reach, amount), ..w },
        RecipeSlot::Body => with_body(
            w,
            i,
            EntityV { material: max_int(b.material - amount, 0) as u64, ..b },
        ),
    }
}

/// The world after body `i` has put `amount` of `e` into a slot.
#[verifier::opaque]
pub open spec fn stored(w: WorldV, i: int, slot: RecipeSlot, e: Element, amount: u64) -> WorldV {
    let b = w.ents[i];
    if amount == 0 {
        w
    } else {
        match slot {
            RecipeSlot::Terrain => WorldV {
                terrain: deposited(w.terrain, b.race(), e, amount, b.pos),
                ..w
            },
            RecipeSlot::Carried => with_body(
                w,
                i,
                EntityV {
                    carried: b.carried.update(e.at(), sat_u64(b.carried[e.at()] + amount)),
                    ..b
                },
            ),
            RecipeSlot::Item => with_body(
                w,
                i,
                EntityV { items: b.items.push(Item { element: e, quantity: amount }), ..b },
            ),
            RecipeSlot::Ground => WorldV {
                ground: w.ground.push(GroundItem { element: e, quantity: amount, pos: b.pos }),
                ..w
            },
            RecipeSlot::Body => with_body(
                w,
                i,
                EntityV { material: sat_u64(b.material + amount), ..b },
            ),
        }
    }
}

/// The part of the invariant that is not about the books, and that the bodies
/// are the same ones.
pub open spec fn keeps_form(w: WorldV, u: WorldV) -> bool {
    &&& u.terrain.wf()
    &&& u.terrain.side == w.terrain.side
    &&& u.ents.len() == w.ents.len()
    &&& u.races == w.races
    &&& u.next_id == w.next_id
    &&& u.size == w.size
    &&& u.seed == w.seed
    &&& u.tick == w.tick
    &&& u.decay == w.decay
    &&& u.stats == w.stats
    &&& forall|j: int|
        0 <= j < w.ents.len() ==> shaped(#[trigger] u.ents[j]) && u.ents[j].id == w.ents[j].id
            && u.ents[j].alive == w.ents[j].alive && u.ents[j].age == w.ents[j].age
            && u.ents[j].pos == w.ents[j].pos && u.ents[j].race() == w.ents[j].race()
}

pub proof fn lemma_keeps_form_trans(w: WorldV, u: WorldV, v: WorldV)
    requires
        keeps_form(w, u),
        keeps_form(u, v),
    ensures
        keeps_form(w, v),
{
    assert forall|j: int| 0 <= j < w.ents.len() implies shaped(#[trigger] v.ents[j]) && v.ents[j].id
        == w.ents[j].id && v.ents[j].alive == w.ents[j].alive && v.ents[j].age == w.ents[j].age
        && v.ents[j].pos == w.ents[j].pos && v.ents[j].race() == w.ents[j].race() by {
        assert(u.ents[j].id == w.ents[j].id);
    }
}

pub proof fn lemma_keeps_form_wf(w: WorldV, u: WorldV)
    requires
        w.wf(),
        keeps_form(w, u),
        mass(u) <= u64::MAX,
    ensures
        u.wf(),
        w.inside() ==> u.inside(),
{
    assert forall|i: int, j: int| 0 <= i < j < u.ents.len() implies (#[trigger] u.ents[i]).id < (
    #[trigger] u.ents[j]).id by {
        assert(u.ents[i].id == w.ents[i].id && u.ents[j].id == w.ents[j].id);
    }
    assert forall|i: int| 0 <= i < u.ents.len() implies (#[trigger] u.ents[i]).id < u.next_id by {
        assert(u.ents[i].id == w.ents[i].id);
    }
    assert forall|i: int| 0 <= i < u.ents.len() && (#[trigger] u.ents[i]).alive implies u.ents[i].age
        < u64::MAX by {
        assert(w.ents[i].alive);
    }
    if w.inside() {
        assert forall|i: int| 0 <= i < u.ents.len() implies crate::world::in_square(
            u.size,
            (#[trigger] u.ents[i]).pos,
        ) by {
            assert(u.ents[i].pos == w.ents[i].pos);
        }
    }
}

/// Replacing the body at `i` by one with the same identity keeps the form.
pub proof fn lemma_with_body_form(w: WorldV, i: int, e: EntityV)
    requires
        w.wf(),
        0 <= i < w.ents.len(),
        shaped(e),
        e.id == w.ents[i].id,
        e.alive == w.ents[i].alive,
        e.age == w.ents[i].age,
        e.pos == w.ents[i].pos,
        e.race() == w.ents[i].race(),
    ensures
        keeps_form(w, with_body(w, i, e)),
        mass(with_body(w, i, e)) == mass(w) - body_mass(w.ents[i]) + body_mass(e),
{
    crate::world::lemma_mass_body(w, i, e);
    let u = with_body(w, i, e);
    assert forall|j: int| 0 <= j < w.ents.len() implies shaped(#[trigger] u.ents[j]) && u.ents[j].id
        == w.ents[j].id && u.ents[j].alive == w.ents[j].alive && u.ents[j].age == w.ents[j].age
        && u.ents[j].pos == w.ents[j].pos && u.ents[j].race() == w.ents[j].race() by {
        if j != i {
            assert(u.ents[j] == w.ents[j]);
            assert(shaped(w.ents[j]));
        }
    }
}

pub proof fn lemma_same_bodies_form(w: WorldV, u: WorldV)
    requires
        w.wf(),
        u.terrain.wf(),
        u.terrain.side == w.terrain.side,
        u.ents == w.ents,
        u.races == w.races,
        u.next_id == w.next_id,
        u.size == w.size,
        u.seed == w.seed,
        u.tick == w.tick,
        u.decay == w.decay,
        u.stats == w.stats,
    ensures
        keeps_form(w, u),
{
    assert forall|j: int| 0 <= j < w.ents.len() implies shaped(#[trigger] u.ents[j]) && u.ents[j].id
        == w.ents[j].id && u.ents[j].alive == w.ents[j].alive && u.ents[j].age == w.ents[j].age
        && u.ents[j].pos == w.ents[j].pos && u.ents[j].race() == w.ents[j].race() by {
        assert(shaped(w.ents[j]));
    }
}

proof fn lemma_with_stock_wf(t: TerrainV, c: int, e: Element, v: u16)
    requires
        t.wf(),
        0 <= c < t.cells.len(),
    ensures
        t.with_stock(c, e, v).wf(),
        terrain_mass(t.with_stock(c, e, v)) == terrain_mass(t) - t.stock(c, e) + v,
{
    let cell = t.cells[c].update(e.at(), v);
    lemma_sum_update(t.cells, c, cell, cell_mass());
    let u = t.with_stock(c, e, v);
    assert forall|i: int| 0 <= i < u.cells.len() implies (#[trigger] u.cells[i]).len() == 5 by {
        assert(t.cells[i].len() == 5);
        assert(t.cells[c].len() == 5);
    }
}

/// Drawing takes the amount off the books and keeps the rest of the
/// invariant, as long as there is that much to draw.
pub proof fn lemma_withdrawn(
    w: WorldV,
    i: int,
    slot: RecipeSlot,
    e: Element,
    reach: Fx,
    amount: int,
)
    requires
        w.wf(),
        0 <= i < w.ents.len(),
        w.ents[i].alive,
        0 <= amount <= stock_of(w, i, slot, e, reach),
    ensures
        keeps_form(w, withdrawn(w, i, slot, e, reach, amount)),
        mass(withdrawn(w, i, slot, e, reach, amount)) == mass(w) - amount,
{
    reveal(withdrawn);
    let b = w.ents[i];
    let u = withdrawn(w, i, slot, e, reach, amount);
    assert(shaped(b));
    lemma_cell_index(
        w.terrain.side,
        cell_xy(w.terrain.side, b.pos).0,
        cell_xy(w.terrain.side, b.pos).1,
    );
    match slot {
        RecipeSlot::Terrain => {
            let c = cell_at(w.terrain.side, b.pos);
            lemma_with_stock_wf(w.terrain, c, e, (w.terrain.stock(c, e) - amount) as u16);
            lemma_same_bodies_form(w, u);
        },
        RecipeSlot::Carried => {
            lemma_with_body_form(w, i, u.ents[i]);
        },
        RecipeSlot::Item => {
            law_draining_takes_the_amount::<Item>(b.items, e, b.pos, reach, amount);
            assert(quantity_of::<Item>() =~= item_mass());
            lemma_with_body_form(w, i, u.ents[i]);
        },
        RecipeSlot::Ground => {
            law_draining_takes_the_amount::<GroundItem>(w.ground, e, b.pos, reach, amount);
            assert(quantity_of::<GroundItem>() =~= pile_mass());
            lemma_same_bodies_form(w, u);
        },
        RecipeSlot::Body => {
            lemma_with_body_form(w, i, u.ents[i]);
        },
    }
}

/// Two slots of a body are the same stock: the body itself whatever element is
/// named, and every other slot for one element.
pub open spec fn same_stock(slot: RecipeSlot, e: Element, slot2: RecipeSlot, e2: Element) -> bool {
    slot2 == slot && (slot == RecipeSlot::Body || e2 == e)
}

/// A withdrawal lowers the stock it draws on by the amount. It leaves every
/// other stock of that body alone, and everything that is no such stock: the
/// other bodies, the other cells, the banks.
pub proof fn law_a_withdrawal_is_from_one_stock(
    w: WorldV,
    i: int,
    slot: RecipeSlot,
    e: Element,
    reach: Fx,
    amount: int,
)
    requires
        w.terrain.wf(),
        0 <= i < w.ents.len(),
        shaped(w.ents[i]),
        0 <= amount <= stock_of(w, i, slot, e, reach),
    ensures
        ({
            let u = withdrawn(w, i, slot, e, reach, amount);
            let c = cell_at(w.terrain.side, w.ents[i].pos);
            &&& stock_of(u, i, slot, e, reach) == stock_of(w, i, slot, e, reach) - amount
            &&& forall|slot2: RecipeSlot, e2: Element, reach2: Fx|
                !same_stock(slot, e, slot2, e2) ==> #[trigger] stock_of(u, i, slot2, e2, reach2)
                    == stock_of(w, i, slot2, e2, reach2)
            &&& u == (WorldV { ents: u.ents, terrain: u.terrain, ground: u.ground, ..w })
            &&& u.ents.len() == w.ents.len()
            &&& forall|j: int| 0 <= j < w.ents.len() && j != i ==> #[trigger] u.ents[j] == w.ents[j]
            &&& u.ents[i] == (EntityV {
                carried: u.ents[i].carried,
                items: u.ents[i].items,
                material: u.ents[i].material,
                ..w.ents[i]
            })
            &&& u.terrain == (TerrainV { cells: u.terrain.cells, ..w.terrain })
            &&& u.terrain.cells.len() == w.terrain.cells.len()
            &&& forall|j: int|
                0 <= j < w.terrain.cells.len() && j != c ==> #[trigger] u.terrain.cells[j]
                    == w.terrain.cells[j]
            &&& slot != RecipeSlot::Terrain ==> u.terrain == w.terrain
            &&& slot == RecipeSlot::Item ==> u.ents[i].items == drained(
                w.ents[i].items,
                e,
                w.ents[i].pos,
                reach,
                amount,
            )
            &&& slot != RecipeSlot::Item ==> u.ents[i].items == w.ents[i].items
            &&& slot == RecipeSlot::Ground ==> u.ground == drained(
                w.ground,
                e,
                w.ents[i].pos,
                reach,
                amount,
            )
            &&& slot != RecipeSlot::Ground ==> u.ground == w.ground
        }),
{
    reveal(withdrawn);
    let b = w.ents[i];
    let u = withdrawn(w, i, slot, e, reach, amount);
    lemma_cell_index(
        w.terrain.side,
        cell_xy(w.terrain.side, b.pos).0,
        cell_xy(w.terrain.side, b.pos).1,
    );
    let c = cell_at(w.terrain.side, b.pos);
    assert(w.terrain.cells[c].len() == 5);
    match slot {
        RecipeSlot::Terrain => {},
        RecipeSlot::Carried => {},
        RecipeSlot::Item => {
            law_draining_lowers_the_stock::<Item>(b.items, e, b.pos, reach, amount);
        },
        RecipeSlot::Ground => {
            law_draining_lowers_the_stock::<GroundItem>(w.ground, e, b.pos, reach, amount);
        },
        RecipeSlot::Body => {},
    }
}

/// Putting adds the amount to the books and keeps the rest of the invariant.
pub proof fn lemma_stored(w: WorldV, i: int, slot: RecipeSlot, e: Element, amount: u64)
    requires
        w.wf(),
        0 <= i < w.ents.len(),
        w.ents[i].alive,
        mass(w) + amount <= u64::MAX,
    ensures
        keeps_form(w, stored(w, i, slot, e, amount)),
        mass(stored(w, i, slot, e, amount)) == mass(w) + amount,
{
    reveal(stored);
    let b = w.ents[i];
    let u = stored(w, i, slot, e, amount);
    assert(shaped(b));
    lemma_mass_parts(w);
    lemma_body_mass_parts(b);
    assert(body_mass(b) <= mass(w));
    if amount == 0 {
        lemma_same_bodies_form(w, u);
    } else {
        match slot {
            RecipeSlot::Terrain => {
                law_deposit_is_conserved(w.terrain, b.race(), e, amount, b.pos);
                lemma_deposited_wf(w.terrain, b.race(), e, amount, b.pos);
                lemma_same_bodies_form(w, u);
            },
            RecipeSlot::Carried => {
                lemma_with_body_form(w, i, u.ents[i]);
            },
            RecipeSlot::Item => {
                lemma_sum_push(b.items, Item { element: e, quantity: amount }, item_mass());
                lemma_with_body_form(w, i, u.ents[i]);
            },
            RecipeSlot::Ground => {
                lemma_sum_push(w.ground, u.ground.last(), pile_mass());
                lemma_same_bodies_form(w, u);
            },
            RecipeSlot::Body => {
                lemma_with_body_form(w, i, u.ents[i]);
            },
        }
    }
}

/// The world after body `i` has performed `n` whole batches of a recipe on
/// element `e`.
pub open spec fn performed(w: WorldV, i: int, recipe: ActionRecipe, e: Element, n: int) -> WorldV {
    let b = w.ents[i];
    let consumed = n * recipe.ratio_in;
    let produced = n * recipe.ratio_out;
    let u = withdrawn(w, i, recipe.input, e, recipe.reach, consumed);
    let v = stored(u, i, recipe.output, recipe.transform.spec_apply(e), produced as u64);
    let x = WorldV {
        terrain: deposited(v.terrain, b.race(), e, (consumed - produced) as u64, b.pos),
        ..v
    };
    let z = x.ents[i];
    with_body(
        x,
        i,
        EntityV {
            action_ready_at: z.action_ready_at.update(
                recipe.slot.at(),
                (w.tick + recipe.cooldown_ticks) as u64,
            ),
            ..z
        },
    )
}

/// How many whole batches of a recipe body `i` performs on element `e`: as
/// many as its rate and the stock allow.
pub open spec fn batches(
    w: WorldV,
    bodies: Seq<EntityV>,
    i: int,
    recipe: ActionRecipe,
    e: Element,
) -> int {
    let b = w.ents[i];
    let crowded = crowd(bodies, w.terrain.side, b.race(), cell_at(w.terrain.side, b.pos));
    let requested = recipe.rate.spec_requested(crowded, b.size as int);
    min_int(requested, stock_of(w, i, recipe.input, e, recipe.reach)) / recipe.ratio_in as int
}

/// The world after the body with the given id has fired its recipe for
/// `slot` on element `e`. `bodies` is the population that crowding is counted
/// in. Nothing happens for an unknown or dead body, without a recipe, during
/// its cooldown, or when not one whole batch can be had.
pub open spec fn fired(
    w: WorldV,
    bodies: Seq<EntityV>,
    id: u32,
    slot: ActionSlot,
    e: Element,
) -> WorldV {
    match find_id(w.ents, id) {
        None => w,
        Some(i) => {
            let b = w.ents[i];
            match action_for(w.races[b.race().at()].actions, slot) {
                None => w,
                Some(recipe) => if !b.alive || w.tick < b.action_ready_at[slot.at()] || batches(
                    w,
                    bodies,
                    i,
                    recipe,
                    e,
                ) == 0 {
                    w
                } else {
                    performed(w, i, recipe, e, batches(w, bodies, i, recipe, e))
                },
            }
        },
    }
}

/// Facts about the batches a valid recipe performs.
pub proof fn lemma_batches(w: WorldV, bodies: Seq<EntityV>, i: int, recipe: ActionRecipe, e: Element)
    requires
        w.wf(),
        0 <= i < w.ents.len(),
        recipe.is_valid(),
        0 <= stock_of(w, i, recipe.input, e, recipe.reach),
        0 <= recipe.rate.spec_requested(
            crowd(bodies, w.terrain.side, w.ents[i].race(), cell_at(w.terrain.side, w.ents[i].pos)),
            w.ents[i].size as int,
        ),
    ensures
        ({
            let n = batches(w, bodies, i, recipe, e);
            &&& 0 <= n
            &&& 0 <= n * recipe.ratio_out <= n * recipe.ratio_in
            &&& n * recipe.ratio_in <= stock_of(w, i, recipe.input, e, recipe.reach)
        }),
{
    let crowded = crowd(
        bodies,
        w.terrain.side,
        w.ents[i].race(),
        cell_at(w.terrain.side, w.ents[i].pos),
    );
    let have = stock_of(w, i, recipe.input, e, recipe.reach);
    let m = min_int(recipe.rate.spec_requested(crowded, w.ents[i].size as int), have);
    let n = batches(w, bodies, i, recipe, e);
    let (p, q) = (recipe.ratio_in as int, recipe.ratio_out as int);
    vstd::arithmetic::div_mod::lemma_fundamental_div_mod(m, p);
    vstd::arithmetic::div_mod::lemma_div_pos_is_pos(m, p);
    assert(p * n == n * p) by (nonlinear_arith);
    assert(0 <= n * q <= n * p) by (nonlinear_arith)
        requires
            0 <= n,
            0 <= q <= p,
    ;
}

pub proof fn lemma_stock_of(w: WorldV, i: int, slot: RecipeSlot, e: Element, reach: Fx)
    requires
        w.wf(),
        0 <= i < w.ents.len(),
        w.ents[i].alive,
    ensures
        0 <= stock_of(w, i, slot, e, reach) <= mass(w),
{
    let b = w.ents[i];
    assert(shaped(b));
    lemma_mass_parts(w);
    lemma_body_mass_parts(b);
    lemma_cell_index(
        w.terrain.side,
        cell_xy(w.terrain.side, b.pos).0,
        cell_xy(w.terrain.side, b.pos).1,
    );
    lemma_terrain_mass_parts(w.terrain);
    let c = cell_at(w.terrain.side, b.pos);
    assert(cell_mass()(w.terrain.cells[c]) <= sum_by(w.terrain.cells, cell_mass()));
    lemma_drawable_bound::<Item>(b.items, e, b.pos, reach);
    lemma_drawable_bound::<GroundItem>(w.ground, e, b.pos, reach);
    assert(quantity_of::<Item>() =~= item_mass());
    assert(quantity_of::<GroundItem>() =~= pile_mass());
}

proof fn lemma_drawable_bound<P: Pile>(s: Seq<P>, e: Element, pos: V2, reach: Fx)
    ensures
        0 <= sum_by(s, drawable_of::<P>(e, pos, reach)) <= sum_by(s, quantity_of::<P>()),
    decreases s.len(),
{
    if s.len() > 0 {
        lemma_drawable_bound(s.drop_last(), e, pos, reach);
    }
}

proof fn lemma_performed(w: WorldV, i: int, recipe: ActionRecipe, e: Element, n: int)
    requires
        w.wf(),
        0 <= i < w.ents.len(),
        w.ents[i].alive,
        0 <= n * recipe.ratio_out <= n * recipe.ratio_in,
        n * recipe.ratio_in <= stock_of(w, i, recipe.input, e, recipe.reach),
    ensures
        keeps_form(w, performed(w, i, recipe, e, n)),
        mass(performed(w, i, recipe, e, n)) == mass(w),
{
    let b = w.ents[i];
    let consumed = n * recipe.ratio_in;
    let produced = n * recipe.ratio_out;
    lemma_stock_of(w, i, recipe.input, e, recipe.reach);
    lemma_withdrawn(w, i, recipe.input, e, recipe.reach, consumed);
    let u = withdrawn(w, i, recipe.input, e, recipe.reach, consumed);
    lemma_keeps_form_wf(w, u);
    assert(u.ents[i].alive);
    let out = recipe.transform.spec_apply(e);
    lemma_stored(u, i, recipe.output, out, produced as u64);
    let v = stored(u, i, recipe.output, out, produced as u64);
    lemma_keeps_form_trans(w, u, v);
    lemma_keeps_form_wf(w, v);
    lemma_mass_parts(v);
    law_deposit_is_conserved(v.terrain, b.race(), e, (consumed - produced) as u64, b.pos);
    lemma_deposited_wf(v.terrain, b.race(), e, (consumed - produced) as u64, b.pos);
    let x = WorldV {
        terrain: deposited(v.terrain, b.race(), e, (consumed - produced) as u64, b.pos),
        ..v
    };
    lemma_same_bodies_form(v, x);
    lemma_keeps_form_trans(w, v, x);
    lemma_keeps_form_wf(w, x);
    let z = x.ents[i];
    assert(shaped(z));
    let z2 = EntityV {
        action_ready_at: z.action_ready_at.update(
            recipe.slot.at(),
            (w.tick + recipe.cooldown_ticks) as u64,
        ),
        ..z
    };
    lemma_with_body_form(x, i, z2);
    lemma_keeps_form_trans(w, x, with_body(x, i, z2));
}

/// Firing a recipe conserves material and keeps the invariant.
pub proof fn law_firing_conserves(
    w: WorldV,
    bodies: Seq<EntityV>,
    id: u32,
    slot: ActionSlot,
    e: Element,
)
    requires
        w.wf(),
    ensures
        mass(fired(w, bodies, id, slot, e)) == mass(w),
        fired(w, bodies, id, slot, e).wf(),
        keeps_form(w, fired(w, bodies, id, slot, e)),
        w.inside() ==> fired(w, bodies, id, slot, e).inside(),
{
    let u = fired(w, bodies, id, slot, e);
    lemma_find_id(w.ents, id);
    lemma_same_bodies_form(w, w);
    match find_id(w.ents, id) {
        None => {},
        Some(i) => {
            let b = w.ents[i];
            crate::race::law_race_positions(b.race(), 0);
            let actions = w.races[b.race().at()].actions;
            lemma_action_for(actions, slot);
            assert(w.races[b.race().at()].actions_valid());
            match action_for(actions, slot) {
                None => {},
                Some(recipe) => {
                    if b.alive && w.tick >= b.action_ready_at[slot.at()] {
                        lemma_stock_of(w, i, recipe.input, e, recipe.reach);
                        lemma_requested(w, bodies, i, recipe);
                        lemma_batches(w, bodies, i, recipe, e);
                        lemma_performed(w, i, recipe, e, batches(w, bodies, i, recipe, e));
                    }
                },
            }
        },
    }
    lemma_keeps_form_wf(w, u);
}

pub proof fn lemma_requested(w: WorldV, bodies: Seq<EntityV>, i: int, recipe: ActionRecipe)
    ensures
        0 <= recipe.rate.spec_requested(
            crowd(bodies, w.terrain.side, w.ents[i].race(), cell_at(w.terrain.side, w.ents[i].pos)),
            w.ents[i].size as int,
        ),
{
    let c = crowd(
        bodies,
        w.terrain.side,
        w.ents[i].race(),
        cell_at(w.terrain.side, w.ents[i].pos),
    );
    lemma_crowd_bound(bodies, w.terrain.side, w.ents[i].race(), cell_at(w.terrain.side, w.ents[i].pos));
    match recipe.rate {
        crate::race::RateLaw::Flat(n) => {},
        crate::race::RateLaw::NeighborScaled { base, per_neighbor, per_size } => {
            let k = if c > 0 {
                c - 1
            } else {
                0
            };
            assert(0 <= per_neighbor * k) by (nonlinear_arith)
                requires
                    0 <= k,
                    0 <= per_neighbor,
            ;
            assert(0 <= per_size * w.ents[i].size) by (nonlinear_arith)
                requires
                    0 <= per_size,
                    0 <= w.ents[i].size,
            ;
        },
    }
}

impl World {
    /// How much of `element` body `i` can draw from `slot`. Of a living body in
    /// a world whose books are in order it can always be counted.
    pub fn recipe_stock(&self, i: usize, slot: RecipeSlot, element: Element, reach: Fx) -> (r: u64)
        requires
            self@.terrain.wf(),
            i < self.entities@.len(),
            (self@.wf() && self.entities@[i as int].alive) || stock_of(
                self@,
                i as int,
                slot,
                element,
                reach,
            ) <= u64::MAX,
        ensures
            r == stock_of(self@, i as int, slot, element, reach),
    {
        proof {
            if self@.wf() && self.entities@[i as int].alive {
                lemma_stock_of(self@, i as int, slot, element, reach);
            }
        }
        let pos: V2 = self.entities[i].pos;
        match slot {
            RecipeSlot::Terrain => self.terrain.stock_at(pos, element) as u64,
            RecipeSlot::Carried => *self.entities[i].carried.get(element),
            RecipeSlot::Item => pile_stock(&self.entities[i].items, element, pos, reach),
            RecipeSlot::Ground => pile_stock(&self.ground_items, element, pos, reach),
            RecipeSlot::Body => self.entities[i].material,
        }
    }

    /// Draw `amount` of `element` from `slot`.
    pub fn recipe_withdraw(
        &mut self,
        i: usize,
        slot: RecipeSlot,
        element: Element,
        reach: Fx,
        amount: u64,
    )
        requires
            old(self)@.terrain.wf(),
            i < old(self).entities@.len(),
        ensures
            final(self)@ == withdrawn(
                old(self)@,
                i as int,
                slot,
                element,
                reach,
                amount as int,
            ),
    {
        proof {
            reveal(withdrawn);
        }
        let ghost before = self@;
        let ghost want = withdrawn(before, i as int, slot, element, reach, amount as int);
        let pos: V2 = self.entities[i].pos;
        match slot {
            RecipeSlot::Terrain => {
                let amt: u16 = if amount < 65_535 {
                    amount as u16
                } else {
                    65_535
                };
                let stock: u16 = self.terrain.stock_at(pos, element);
                self.terrain.set_stock_at(pos, element, stock.saturating_sub(amt));
            },
            RecipeSlot::Carried => {
                let held: u64 = *self.entities[i].carried.get(element);
                let mut carried = self.entities[i].carried;
                carried.set(element, held.saturating_sub(amount));
                self.entities[i].carried = carried;
                assert(self@.ents =~= want.ents);
            },
            RecipeSlot::Item => {
                let items: Vec<Item> = drain_piles(
                    &self.entities[i].items,
                    element,
                    pos,
                    reach,
                    amount,
                );
                self.entities[i].items = items;
                assert(self@.ents =~= want.ents);
            },
            RecipeSlot::Ground => {
                self.ground_items = drain_piles(&self.ground_items, element, pos, reach, amount);
            },
            RecipeSlot::Body => {
                let held: u64 = self.entities[i].material;
                self.entities[i].material = held.saturating_sub(amount);
                assert(self@.ents =~= want.ents);
            },
        }
        assert(self@ =~= want);
    }

    /// Put `amount` of `element` into `slot`.
    pub fn recipe_deposit(&mut self, i: usize, slot: RecipeSlot, element: Element, amount: u64)
        requires
            old(self)@.terrain.wf(),
            i < old(self).entities@.len(),
        ensures
            final(self)@ == stored(old(self)@, i as int, slot, element, amount),
    {
        proof {
            reveal(stored);
        }
        if amount == 0 {
            return ;
        }
        let ghost before = self@;
        let ghost want = stored(before, i as int, slot, element, amount);
        let pos: V2 = self.entities[i].pos;
        match slot {
            RecipeSlot::Terrain => {
                let race: Race = self.entities[i].race();
                deposit_at(&mut self.terrain, race, element, amount, pos);
            },
            RecipeSlot::Carried => {
                let held: u64 = *self.entities[i].carried.get(element);
                let mut carried = self.entities[i].carried;
                carried.set(element, held.saturating_add(amount));
                self.entities[i].carried = carried;
                assert(self@.ents =~= want.ents);
            },
            RecipeSlot::Item => {
                self.entities[i].items.push(Item { element, quantity: amount });
                assert(self@.ents =~= want.ents);
            },
            RecipeSlot::Ground => {
                self.ground_items.push(GroundItem { element, quantity: amount, pos });
            },
            RecipeSlot::Body => {
                let held: u64 = self.entities[i].material;
                self.entities[i].material = held.saturating_add(amount);
                assert(self@.ents =~= want.ents);
            },
        }
        assert(self@ =~= want);
    }

    /// Perform `n` whole batches of a recipe.
    fn perform(&mut self, i: usize, recipe: ActionRecipe, element: Element, n: u64)
        requires
            old(self)@.wf(),
            old(self).tick + 65535 <= u64::MAX,
            i < old(self).entities@.len(),
            old(self).entities@[i as int].alive,
            0 <= n * recipe.ratio_out <= n * recipe.ratio_in,
            n * recipe.ratio_in <= stock_of(
                old(self)@,
                i as int,
                recipe.input,
                element,
                recipe.reach,
            ),
        ensures
            final(self)@ == performed(old(self)@, i as int, recipe, element, n as int),
    {
        let ghost before = self@;
        assert(before.ents[i as int] == self.entities@[i as int]@);
        proof {
            lemma_stock_of(before, i as int, recipe.input, element, recipe.reach);
            lemma_withdrawn(
                before,
                i as int,
                recipe.input,
                element,
                recipe.reach,
                n * recipe.ratio_in,
            );
        }
        let race: Race = self.entities[i].race();
        let pos: V2 = self.entities[i].pos;
        let tick: u64 = self.tick;
        let consumed: u64 = n * recipe.ratio_in as u64;
        let produced: u64 = n * recipe.ratio_out as u64;
        let out: Element = recipe.transform.apply(element);
        self.recipe_withdraw(i, recipe.input, element, recipe.reach, consumed);
        let ghost u = self@;
        proof {
            lemma_keeps_form_wf(before, u);
            assert(u.ents[i as int].alive);
            lemma_stored(u, i as int, recipe.output, out, produced);
        }
        self.recipe_deposit(i, recipe.output, out, produced);
        let ghost v = self@;
        deposit_at(&mut self.terrain, race, element, consumed - produced, pos);
        let ghost x = self@;
        proof {
            let t = deposited(v.terrain, race, element, (consumed - produced) as u64, pos);
            assert(x == (WorldV { terrain: t, ..v }));
            assert(x.ents[i as int] == self.entities@[i as int]@);
        }
        self.set_ready(i, recipe.slot, tick + recipe.cooldown_ticks as u64);
    }

    /// Note from which tick body `i` may act again.
    fn set_ready(&mut self, i: usize, slot: ActionSlot, tick: u64)
        requires
            i < old(self).entities@.len(),
        ensures
            final(self)@ == with_body(
                old(self)@,
                i as int,
                EntityV {
                    action_ready_at: old(self)@.ents[i as int].action_ready_at.update(
                        slot.at(),
                        tick,
                    ),
                    ..old(self)@.ents[i as int]
                },
            ),
    {
        let ghost before = self@;
        assert(before.ents[i as int] == self.entities@[i as int]@);
        self.entities[i].action_ready_at[slot.index()] = tick;
        proof {
            let b = before.ents[i as int];
            let e = EntityV { action_ready_at: b.action_ready_at.update(slot.at(), tick), ..b };
            assert(self.entities@[i as int]@ == e);
            assert(self@.ents =~= before.ents.update(i as int, e));
        }
    }

    /// Fire the recipe that the body's race has for `slot` on `element`. Whole
    /// batches only; what a batch does not turn into output returns to the
    /// ground where the body stands, as the input element.
    pub fn apply_action_recipe(&mut self, id: u32, slot: ActionSlot, element: Element, occ: &Occupancy)
        requires
            old(self)@.wf(),
            old(self).tick + 65535 <= u64::MAX,
            occ.wf(),
            occ.side@ == old(self).terrain.side,
        ensures
            final(self)@ == fired(old(self)@, occ.bodies@, id, slot, element),
            final(self)@.wf(),
            mass(final(self)@) == mass(old(self)@),
            old(self)@.inside() ==> final(self)@.inside(),
            keeps_form(old(self)@, final(self)@),
    {
        let ghost before = self@;
        proof {
            law_firing_conserves(before, occ.bodies@, id, slot, element);
        }
        let i: usize = match self.find(id) {
            Some(i) => i,
            None => {
                return ;
            },
        };
        assert(before.ents[i as int] == self.entities@[i as int]@);
        let race: Race = self.entities[i].race();
        proof {
            crate::race::law_race_positions(race, 0);
            assert(before.races[race.at()] == self.races@[race.at()]@);
            lemma_action_for(before.races[race.at()].actions, slot);
            assert(before.races[race.at()].actions_valid());
        }
        let recipe: ActionRecipe = match self.races.get(race).action(slot) {
            Some(r) => *r,
            None => {
                return ;
            },
        };
        if !self.entities[i].alive {
            return ;
        }
        let tick: u64 = self.tick;
        if tick < self.entities[i].action_ready_at[slot.index()] {
            return ;
        }
        let pos: V2 = self.entities[i].pos;
        let cell: u32 = self.terrain.index_at(pos) as u32;
        let neighbors: u32 = occ.count(race, cell);
        let size: u16 = self.entities[i].size;
        let requested: u64 = recipe.rate.requested(neighbors, size);
        let have: u64 = self.recipe_stock(i, recipe.input, element, recipe.reach);
        let limit: u64 = if requested < have {
            requested
        } else {
            have
        };
        let n: u64 = limit / recipe.ratio_in as u64;
        if n == 0 {
            return ;
        }
        proof {
            lemma_stock_of(before, i as int, recipe.input, element, recipe.reach);
            lemma_requested(before, occ.bodies@, i as int, recipe);
            lemma_batches(before, occ.bodies@, i as int, recipe, element);
            assert(n == batches(before, occ.bodies@, i as int, recipe, element));
        }
        self.perform(i, recipe, element, n);
    }

    /// Bundle `quantity` of what the body carries into a new item. Nothing
    /// happens for an unknown or dead body, for nothing, or for more than it
    /// carries.
    pub fn make_item(&mut self, id: u32, element: Element, quantity: u64)
        requires
            old(self)@.wf(),
        ensures
            final(self)@ == item_made(old(self)@, id, element, quantity),
            final(self)@.wf(),
            mass(final(self)@) == mass(old(self)@),
            old(self)@.inside() ==> final(self)@.inside(),
            keeps_form(old(self)@, final(self)@),
    {
        let ghost before = self@;
        proof {
            law_making_an_item_conserves(before, id, element, quantity);
        }
        let i: usize = match self.find(id) {
            Some(i) => i,
            None => {
                return ;
            },
        };
        assert(before.ents[i as int] == self.entities@[i as int]@);
        let held: u64 = *self.entities[i].carried.get(element);
        if !self.entities[i].alive || quantity == 0 || held < quantity {
            return ;
        }
        let mut carried = self.entities[i].carried;
        carried.set(element, held - quantity);
        self.entities[i].carried = carried;
        self.entities[i].items.push(Item { element, quantity });
        proof {
            let want = item_made(before, id, element, quantity);
            assert(self@.ents =~= want.ents);
            assert(self@ =~= want);
        }
    }

    /// Take the item at `index` apart and return what it holds to the ground
    /// where the body stands. Nothing happens for an unknown or dead body or
    /// an index out of range.
    pub fn break_item(&mut self, id: u32, index: u32)
        requires
            old(self)@.wf(),
        ensures
            final(self)@ == item_broken(old(self)@, id, index),
            final(self)@.wf(),
            mass(final(self)@) == mass(old(self)@),
            old(self)@.inside() ==> final(self)@.inside(),
            keeps_form(old(self)@, final(self)@),
    {
        let ghost before = self@;
        proof {
            law_breaking_an_item_conserves(before, id, index);
        }
        let i: usize = match self.find(id) {
            Some(i) => i,
            None => {
                return ;
            },
        };
        assert(before.ents[i as int] == self.entities@[i as int]@);
        if !self.entities[i].alive || index as usize >= self.entities[i].items.len() {
            return ;
        }
        let item: Item = self.entities[i].items.remove(index as usize);
        let race: Race = self.entities[i].race();
        let pos: V2 = self.entities[i].pos;
        deposit_at(&mut self.terrain, race, item.element, item.quantity, pos);
        proof {
            let want = item_broken(before, id, index);
            assert(self@.ents =~= want.ents);
            assert(self@ =~= want);
        }
    }
}

/// The world after the body with this id has made an item.
pub open spec fn item_made(w: WorldV, id: u32, e: Element, quantity: u64) -> WorldV {
    match find_id(w.ents, id) {
        None => w,
        Some(i) => {
            let b = w.ents[i];
            if !b.alive || quantity == 0 || b.carried[e.at()] < quantity {
                w
            } else {
                with_body(
                    w,
                    i,
                    EntityV {
                        carried: b.carried.update(e.at(), (b.carried[e.at()] - quantity) as u64),
                        items: b.items.push(Item { element: e, quantity }),
                        ..b
                    },
                )
            }
        },
    }
}

/// The world after the body with this id has broken an item.
pub open spec fn item_broken(w: WorldV, id: u32, index: u32) -> WorldV {
    match find_id(w.ents, id) {
        None => w,
        Some(i) => {
            let b = w.ents[i];
            if !b.alive || index >= b.items.len() {
                w
            } else {
                let it = b.items[index as int];
                WorldV {
                    ents: w.ents.update(i, EntityV { items: b.items.remove(index as int), ..b }),
                    terrain: deposited(w.terrain, b.race(), it.element, it.quantity, b.pos),
                    ..w
                }
            }
        },
    }
}

/// Making an item moves material from what a body carries into the item.
pub proof fn law_making_an_item_conserves(w: WorldV, id: u32, e: Element, quantity: u64)
    requires
        w.wf(),
    ensures
        mass(item_made(w, id, e, quantity)) == mass(w),
        item_made(w, id, e, quantity).wf(),
        keeps_form(w, item_made(w, id, e, quantity)),
        w.inside() ==> item_made(w, id, e, quantity).inside(),
{
    let u = item_made(w, id, e, quantity);
    lemma_find_id(w.ents, id);
    lemma_same_bodies_form(w, w);
    match find_id(w.ents, id) {
        None => {},
        Some(i) => {
            let b = w.ents[i];
            assert(shaped(b));
            if b.alive && quantity != 0 && b.carried[e.at()] >= quantity {
                lemma_sum_push(b.items, Item { element: e, quantity }, item_mass());
                lemma_with_body_form(w, i, u.ents[i]);
            }
        },
    }
    lemma_keeps_form_wf(w, u);
}

/// Breaking an item moves material from the item into the ground.
pub proof fn law_breaking_an_item_conserves(w: WorldV, id: u32, index: u32)
    requires
        w.wf(),
    ensures
        mass(item_broken(w, id, index)) == mass(w),
        item_broken(w, id, index).wf(),
        keeps_form(w, item_broken(w, id, index)),
        w.inside() ==> item_broken(w, id, index).inside(),
{
    let u = item_broken(w, id, index);
    lemma_find_id(w.ents, id);
    lemma_same_bodies_form(w, w);
    match find_id(w.ents, id) {
        None => {},
        Some(i) => {
            let b = w.ents[i];
            assert(shaped(b));
            if b.alive && index < b.items.len() {
                let it = b.items[index as int];
                let b2 = EntityV { items: b.items.remove(index as int), ..b };
                lemma_sum_remove(b.items, index as int, item_mass());
                lemma_with_body_form(w, i, b2);
                let v = with_body(w, i, b2);
                lemma_body_mass_parts(b2);
                lemma_keeps_form_wf(w, v);
                lemma_mass_parts(v);
                law_deposit_is_conserved(v.terrain, b.race(), it.element, it.quantity, b.pos);
                lemma_deposited_wf(v.terrain, b.race(), it.element, it.quantity, b.pos);
                lemma_same_bodies_form(v, u);
                lemma_keeps_form_trans(w, v, u);
            }
        },
    }
    lemma_keeps_form_wf(w, u);
}

/// Making an item of what is carried and breaking it again leaves the body
/// with what it held but for that amount, which is in the ground.
pub proof fn law_make_then_break(w: WorldV, id: u32, e: Element, quantity: u64)
    requires
        w.wf(),
        find_id(w.ents, id) matches Some(i) && w.ents[i].alive && 0 < quantity
            <= w.ents[i].carried[e.at()] && w.ents[i].items.len() <= u32::MAX,
    ensures
        ({
            let i = find_id(w.ents, id)->0;
            let b = w.ents[i];
            let u = item_broken(
                item_made(w, id, e, quantity),
                id,
                b.items.len() as u32,
            );
            &&& u.ents[i] == (EntityV {
                carried: b.carried.update(e.at(), (b.carried[e.at()] - quantity) as u64),
                ..b
            })
            &&& u.terrain == deposited(w.terrain, b.race(), e, quantity, b.pos)
        }),
{
    let i = find_id(w.ents, id)->0;
    lemma_find_id(w.ents, id);
    let b = w.ents[i];
    let m = item_made(w, id, e, quantity);
    law_making_an_item_conserves(w, id, e, quantity);
    assert(m.ents[i].id == id);
    assert forall|j: int| 0 <= j < i implies (#[trigger] m.ents[j]).id != id by {
        assert(w.ents[j].id < w.ents[i].id);
        assert(m.ents[j].id == w.ents[j].id);
    }
    crate::world::lemma_id_pos(m.ents, id, i);
    assert(m.ents[i].items.remove(b.items.len() as int) =~= b.items);
}

} // verus!
