//! What happens to the ground, cell by cell.
//!
//! What is returned to the ground lands in the cell it falls on and in no
//! other. What lies about goes back pile by pile. Every cell trades with the
//! four beside it and nobody else, and gives to those that hold less.
use crate::diffusion::{
    edge_here, edge_there, lemma_cell_bound, lemma_cell_split, lemma_edge_ends, Field,
};
use crate::element::Element;
use crate::fx::{abs_int, max_int, min_int, V2};
use crate::ground::{decayed, eroded};
use crate::hunting::{lemma_under, under};
use crate::race::{Kind, Race};
use crate::sums::sum_by;
use crate::terrain::{deposited, diffused, layer_field, TerrainTuning, TerrainV};
use crate::world::{pile_mass, GroundItem, WorldV};
use vstd::prelude::*;

verus! {

// ----------------------------------------------------------------------
// What falls on the ground.
// ----------------------------------------------------------------------

/// What is returned to the ground at a place lands in the cell there, as far
/// as the cell has room; the rest is banked for whose it was. Nothing else on
/// the grid or in the banks changes.
pub proof fn law_a_deposit_lands_where_it_falls(
    t: TerrainV,
    r: Race,
    e: Element,
    amount: u64,
    at: V2,
)
    requires
        t.wf(),
        at.x.0 >= 0,
        at.y.0 >= 0,
    ensures
        ({
            let u = deposited(t, r, e, amount, at);
            let c = under(t.side, at);
            let row = r.element.at() * 2 + r.kind.at();
            let room = 65535 - t.cells[c][e.at()];
            &&& 0 <= c < t.cells.len()
            &&& u.side == t.side
            &&& u.cells.len() == t.cells.len()
            &&& u.overflow.len() == t.overflow.len()
            &&& u.cells[c][e.at()] == t.cells[c][e.at()] + min_int(amount as int, room)
            &&& u.overflow[row][e.at()] == min_int(
                t.overflow[row][e.at()] + max_int(amount - room, 0),
                u64::MAX as int,
            )
            &&& forall|d: int, k: int|
                0 <= d < t.cells.len() && 0 <= k < 5 && (d != c || k != e.at()) ==> (
                #[trigger] u.cells[d][k]) == t.cells[d][k]
            &&& forall|d: int, k: int|
                0 <= d < 10 && 0 <= k < 5 && (d != row || k != e.at()) ==> (
                #[trigger] u.overflow[d][k]) == t.overflow[d][k]
        }),
{
    lemma_under(t.side, at);
    crate::terrain::lemma_cell_index(
        t.side,
        crate::terrain::cell_xy(t.side, at).0,
        crate::terrain::cell_xy(t.side, at).1,
    );
    crate::race::law_race_positions(r, 0);
    let c = under(t.side, at);
    assert(t.cells[c].len() == 5);
    assert(t.overflow[r.at()].len() == 5);
}

/// Decay begins with the first pile and goes into the cell under it: as long
/// as the pile holds more than goes back this time, it is the only one to
/// change; a pile that is used up is gone.
pub proof fn law_decay_begins_with_the_first_pile(w: WorldV)
    requires
        w.wf(),
        w.ground.len() > 0,
        w.ground[0].pos.x.0 >= 0,
        w.ground[0].pos.y.0 >= 0,
        sum_by(w.ground, pile_mass()) > 0,
    ensures
        ({
            let g = w.ground[0];
            let back = w.decay.payable(sum_by(w.ground, pile_mass()) as u64);
            let u = decayed(w);
            let c = under(w.terrain.side, g.pos);
            let k = g.element.at();
            &&& 0 < back < g.quantity ==> {
                &&& u.ground.len() == w.ground.len()
                &&& u.ground[0].quantity == g.quantity - back
                &&& u.ground[0].element == g.element
                &&& u.ground[0].pos == g.pos
                &&& u.ground.skip(1) == w.ground.skip(1)
                &&& u.terrain.cells[c][k] == min_int(w.terrain.cells[c][k] + back, 65535)
            }
            &&& back == g.quantity && w.ground.len() == 1 ==> {
                &&& u.ground.len() == 0
                &&& u.terrain.cells[c][k] == min_int(w.terrain.cells[c][k] + back, 65535)
            }
            &&& back == 0 ==> u.ground == w.ground && u.terrain == w.terrain
        }),
{
    let g = w.ground[0];
    let total = sum_by(w.ground, pile_mass());
    crate::world::lemma_mass_parts(w);
    let back = w.decay.payable(total as u64);
    let v = WorldV { decay: w.decay.settled(total as u64), ..w };
    assert(decayed(w) == eroded(v, 0, back));
    let take = min_int(g.quantity as int, back);
    let r = Race { element: g.element, kind: Kind::Animal };
    law_a_deposit_lands_where_it_falls(w.terrain, r, g.element, take as u64, g.pos);
    reveal_with_fuel(eroded, 3);
    if 0 < back < g.quantity {
        let u = decayed(w);
        assert(u.ground == w.ground.update(
            0,
            GroundItem { quantity: (g.quantity - take) as u64, ..g },
        ));
        assert(u.ground.skip(1) =~= w.ground.skip(1));
    }
    if w.ground.len() == 1 {
        assert(w.ground.drop_last() =~= Seq::<GroundItem>::empty());
        assert(total == g.quantity) by {
            reveal_with_fuel(sum_by, 2);
        }
        assert(w.ground.update(0, w.ground.last()).drop_last() =~= Seq::<GroundItem>::empty());
    }
}

// ----------------------------------------------------------------------
// What cells trade.
// ----------------------------------------------------------------------

/// The cell `dx` columns and `dy` rows on from another, on a grid that wraps
/// around.
pub open spec fn beside(side: int, i: int, dx: int, dy: int) -> int {
    ((i / side + dy + side) % side) * side + (i % side + dx + side) % side
}

/// One of the four cells beside another.
pub open spec fn is_beside(side: int, i: int, j: int) -> bool {
    ||| j == beside(side, i, 1, 0)
    ||| j == beside(side, i, -1, 0)
    ||| j == beside(side, i, 0, 1)
    ||| j == beside(side, i, 0, -1)
}

proof fn lemma_wrap(a: int, side: int)
    requires
        0 <= a < side,
    ensures
        (a + 1 + side) % side == (a + 1) % side,
        (a + side) % side == a,
        (a - 1 + side) % side == (if a == 0 {
            side - 1
        } else {
            a - 1
        }),
        (a + 1) % side == (if a + 1 == side {
            0
        } else {
            a + 1
        }),
{
    vstd::arithmetic::div_mod::lemma_mod_add_multiples_vanish(a + 1, side);
    vstd::arithmetic::div_mod::lemma_mod_add_multiples_vanish(a, side);
    vstd::arithmetic::div_mod::lemma_small_mod(a as nat, side as nat);
    if a == 0 {
        vstd::arithmetic::div_mod::lemma_small_mod((side - 1) as nat, side as nat);
    } else {
        vstd::arithmetic::div_mod::lemma_mod_add_multiples_vanish(a - 1, side);
        vstd::arithmetic::div_mod::lemma_small_mod((a - 1) as nat, side as nat);
    }
    if a + 1 == side {
        vstd::arithmetic::div_mod::lemma_mod_self_0(side);
    } else {
        vstd::arithmetic::div_mod::lemma_small_mod((a + 1) as nat, side as nat);
    }
}

/// The two ends of an edge are beside each other.
proof fn lemma_ends_beside(side: int, k: int)
    requires
        1 <= side,
        0 <= k < 2 * (side * side),
    ensures
        0 <= edge_here(k) < side * side,
        0 <= edge_there(side, k) < side * side,
        k % 2 == 0 ==> edge_there(side, k) == beside(side, edge_here(k), 1, 0) && edge_here(k)
            == beside(side, edge_there(side, k), -1, 0),
        k % 2 == 1 ==> edge_there(side, k) == beside(side, edge_here(k), 0, 1) && edge_here(k)
            == beside(side, edge_there(side, k), 0, -1),
{
    lemma_edge_ends(side, k);
    let h = edge_here(k);
    lemma_cell_split(side, h);
    let (x, y) = (h % side, h / side);
    lemma_wrap(x, side);
    lemma_wrap(y, side);
    let (x1, y1) = ((x + 1) % side, (y + 1) % side);
    lemma_cell_bound(side, x1, y);
    lemma_cell_bound(side, x, y1);
    lemma_wrap(x1, side);
    lemma_wrap(y1, side);
}

proof fn lemma_no_gain(f: Field, i: int, k: int)
    requires
        f.wf(),
        0 <= i < f.stock.len(),
        0 <= k <= f.edges(),
        forall|j: int| #[trigger] is_beside(f.side, i, j) ==> f.stock[j] <= f.stock[i],
    ensures
        f.got(i, k) == 0,
        f.sent(i, k) >= 0,
    decreases k,
{
    if k > 0 {
        lemma_no_gain(f, i, k - 1);
        f.lemma_edge_amounts(k - 1);
        lemma_ends_beside(f.side, k - 1);
        if f.target(k - 1) == i && f.flow(k - 1) != 0 {
            let (h, t) = (edge_here(k - 1), edge_there(f.side, k - 1));
            assert(is_beside(f.side, h, t) && is_beside(f.side, t, h));
            lemma_flow_sign(f, k - 1);
        }
    }
}

proof fn lemma_no_loss(f: Field, i: int, k: int)
    requires
        f.wf(),
        0 <= i < f.stock.len(),
        0 <= k <= f.edges(),
        forall|j: int| #[trigger] is_beside(f.side, i, j) ==> f.stock[j] >= f.stock[i],
    ensures
        f.sent(i, k) == 0,
        f.got(i, k) >= 0,
    decreases k,
{
    if k > 0 {
        lemma_no_loss(f, i, k - 1);
        f.lemma_edge_amounts(k - 1);
        lemma_ends_beside(f.side, k - 1);
        if f.source(k - 1) == i && f.flow(k - 1) != 0 {
            let (h, t) = (edge_here(k - 1), edge_there(f.side, k - 1));
            assert(is_beside(f.side, h, t) && is_beside(f.side, t, h));
            lemma_flow_sign(f, k - 1);
        }
    }
}

proof fn lemma_flow_sign(f: Field, k: int)
    requires
        f.wf(),
        0 <= k < f.edges(),
    ensures
        f.flow(k) > 0 ==> f.stock[edge_here(k)] > f.stock[edge_there(f.side, k)],
        f.flow(k) < 0 ==> f.stock[edge_here(k)] < f.stock[edge_there(f.side, k)],
{
    let d = f.stock[edge_here(k)] - f.stock[edge_there(f.side, k)];
    let p = d * f.rate;
    assert(d <= 0 ==> p <= 0) by (nonlinear_arith)
        requires
            p == d * f.rate,
            f.rate >= 0,
    ;
    assert(d >= 0 ==> p >= 0) by (nonlinear_arith)
        requires
            p == d * f.rate,
            f.rate >= 0,
    ;
}

/// Material flows downhill: a cell that holds no less than the four beside it
/// gains nothing, and one that holds no more than they do loses nothing.
pub proof fn law_material_flows_downhill(f: Field, i: int)
    requires
        f.wf(),
        0 <= i < f.stock.len(),
    ensures
        (forall|j: int| #[trigger] is_beside(f.side, i, j) ==> f.stock[j] <= f.stock[i])
            ==> f.result()[i] <= f.stock[i],
        (forall|j: int| #[trigger] is_beside(f.side, i, j) ==> f.stock[j] >= f.stock[i])
            ==> f.result()[i] >= f.stock[i],
{
    let n = f.edges();
    f.lemma_within_stock(i, n);
    if forall|j: int| #[trigger] is_beside(f.side, i, j) ==> f.stock[j] <= f.stock[i] {
        lemma_no_gain(f, i, n);
    }
    if forall|j: int| #[trigger] is_beside(f.side, i, j) ==> f.stock[j] >= f.stock[i] {
        lemma_no_loss(f, i, n);
    }
}

/// What one cell gets from another across the edge between them: a share of
/// the difference in per-mille, rounded toward nothing, and at most the cap.
pub open spec fn trade(mine: u16, theirs: u16, rate: int, cap: int) -> int {
    if theirs >= mine {
        min_int((theirs - mine) * rate / 1000, cap)
    } else {
        -min_int((mine - theirs) * rate / 1000, cap)
    }
}

proof fn lemma_trade(f: Field, k: int)
    requires
        f.wf(),
        0 <= k < f.edges(),
        f.side >= 3,
    ensures
        f.flow(k) == trade(
            f.stock[edge_there(f.side, k)],
            f.stock[edge_here(k)],
            f.rate,
            f.cap,
        ),
        f.flow(k) == -trade(
            f.stock[edge_here(k)],
            f.stock[edge_there(f.side, k)],
            f.rate,
            f.cap,
        ),
{
    let (a, b) = (f.stock[edge_here(k)] as int, f.stock[edge_there(f.side, k)] as int);
    let d = a - b;
    assert(d * f.rate == -((b - a) * f.rate)) by (nonlinear_arith)
        requires
            d == a - b,
    ;
    assert(d >= 0 ==> d * f.rate >= 0) by (nonlinear_arith)
        requires
            f.rate >= 0,
    ;
    assert(d <= 0 ==> d * f.rate <= 0) by (nonlinear_arith)
        requires
            f.rate >= 0,
    ;
    if d == 0 {
        assert(d * f.rate == 0) by (nonlinear_arith)
            requires
                d == 0,
        ;
    }
}

/// The four edges of a cell, as numbers: its own two, and one each of the
/// cells to its west and its north.
spec fn own_edge(side: int, i: int, n: int) -> int {
    if n == 0 {
        2 * i
    } else if n == 1 {
        2 * i + 1
    } else if n == 2 {
        2 * beside(side, i, -1, 0)
    } else {
        2 * beside(side, i, 0, -1) + 1
    }
}

/// An edge that touches a cell is one of its four.
proof fn lemma_own_edges(side: int, i: int, k: int)
    requires
        3 <= side,
        0 <= i < side * side,
        0 <= k < 2 * (side * side),
    ensures
        edge_here(k) == i <==> k == own_edge(side, i, 0) || k == own_edge(side, i, 1),
        edge_there(side, k) == i <==> k == own_edge(side, i, 2) || k == own_edge(side, i, 3),
        edge_here(k) != edge_there(side, k),
        forall|n: int|
            0 <= n < 4 ==> 0 <= #[trigger] own_edge(side, i, n) < 2 * (side * side),
        own_edge(side, i, 0) != own_edge(side, i, 2),
        own_edge(side, i, 1) != own_edge(side, i, 3),
{
    lemma_ends_beside(side, k);
    lemma_cell_split(side, i);
    let (x, y) = (i % side, i / side);
    lemma_wrap(x, side);
    lemma_wrap(y, side);
    let (wx, ny) = ((x - 1 + side) % side, (y - 1 + side) % side);
    lemma_cell_bound(side, wx, y);
    lemma_cell_bound(side, x, ny);
    let (a, b) = (beside(side, i, -1, 0), beside(side, i, 0, -1));
    assert(a == y * side + wx && b == ny * side + x);
    assert(a % side == wx && a / side == y);
    assert(b % side == x && b / side == ny);
    assert(wx != x && ny != y);
    assert(a != i && b != i);
    lemma_ends_beside(side, 2 * a);
    lemma_ends_beside(side, 2 * b + 1);
    lemma_wrap(wx, side);
    lemma_wrap(ny, side);
    assert(edge_there(side, 2 * a) == i) by {
        assert(edge_here(2 * a) == a);
        assert((wx + 1) % side == x);
    }
    assert(edge_there(side, 2 * b + 1) == i) by {
        assert(edge_here(2 * b + 1) == b);
        assert((ny + 1) % side == y);
    }
    let h = edge_here(k);
    lemma_cell_split(side, h);
    let (hx, hy) = (h % side, h / side);
    lemma_wrap(hx, side);
    lemma_wrap(hy, side);
    lemma_cell_bound(side, (hx + 1) % side, hy);
    lemma_cell_bound(side, hx, (hy + 1) % side);
}

/// How many of a cell's four edges are among the first `k`.
spec fn own_upto(side: int, i: int, k: int) -> int {
    (if own_edge(side, i, 0) < k {
        1
    } else {
        0int
    }) + (if own_edge(side, i, 1) < k {
        1
    } else {
        0int
    }) + (if own_edge(side, i, 2) < k {
        1
    } else {
        0int
    }) + (if own_edge(side, i, 3) < k {
        1
    } else {
        0int
    })
}

proof fn lemma_asked_bound(f: Field, i: int, k: int)
    requires
        f.wf(),
        f.side >= 3,
        f.rate <= 250,
        0 <= i < f.stock.len(),
        0 <= k <= f.edges(),
    ensures
        f.asked(i, k) <= own_upto(f.side, i, k) * (f.stock[i] as int / 4),
    decreases k,
{
    lemma_own_edges(f.side, i, 0);
    if k > 0 {
        lemma_asked_bound(f, i, k - 1);
        lemma_own_edges(f.side, i, k - 1);
        let q = f.stock[i] as int / 4;
        let (a, b) = (own_upto(f.side, i, k - 1), own_upto(f.side, i, k));
        assert(a <= b);
        assert(a * q <= b * q) by (nonlinear_arith)
            requires
                a <= b,
                q >= 0,
        ;
        if f.source(k - 1) == i && f.flow(k - 1) != 0 {
            lemma_trade(f, k - 1);
            lemma_flow_sign(f, k - 1);
            assert(b >= a + 1);
            let (h, t) = (edge_here(k - 1), edge_there(f.side, k - 1));
            let d = if h == i {
                f.stock[h] - f.stock[t]
            } else {
                f.stock[t] - f.stock[h]
            };
            assert(0 < d <= f.stock[i]);
            assert(d * f.rate <= f.stock[i] * 250) by (nonlinear_arith)
                requires
                    0 < d <= f.stock[i],
                    0 <= f.rate <= 250,
            ;
            assert(abs_int(f.flow(k - 1)) <= q);
            assert(b * q >= a * q + q) by (nonlinear_arith)
                requires
                    b >= a + 1,
                    q >= 0,
            ;
        }
    } else {
        assert(own_upto(f.side, i, 0) == 0);
        assert(0 * (f.stock[i] as int / 4) == 0) by (nonlinear_arith);
    }
}

proof fn lemma_incoming_bound(f: Field, i: int, k: int)
    requires
        f.wf(),
        f.side >= 3,
        0 <= i < f.stock.len(),
        0 <= k <= f.edges(),
    ensures
        f.incoming(i, k) <= own_upto(f.side, i, k) * f.cap,
    decreases k,
{
    lemma_own_edges(f.side, i, 0);
    if k > 0 {
        lemma_incoming_bound(f, i, k - 1);
        lemma_own_edges(f.side, i, k - 1);
        f.lemma_edge_amounts(k - 1);
        let (a, b) = (own_upto(f.side, i, k - 1), own_upto(f.side, i, k));
        assert(a * f.cap <= b * f.cap) by (nonlinear_arith)
            requires
                a <= b,
                f.cap >= 0,
        ;
        if f.target(k - 1) == i {
            assert(b >= a + 1);
            assert(b * f.cap >= a * f.cap + f.cap) by (nonlinear_arith)
                requires
                    b >= a + 1,
                    f.cap >= 0,
            ;
        }
    } else {
        assert(own_upto(f.side, i, 0) == 0);
        assert(0 * f.cap == 0) by (nonlinear_arith);
    }
}

/// Where nothing runs short and nothing overflows, an edge moves its flow.
proof fn lemma_moves_all(f: Field, k: int)
    requires
        f.wf(),
        f.side >= 3,
        f.rate <= 250,
        forall|j: int| 0 <= j < f.stock.len() ==> #[trigger] f.stock[j] + 4 * f.cap <= 65535,
        0 <= k < f.edges(),
    ensures
        f.moved(k) == abs_int(f.flow(k)),
{
    f.lemma_edge_amounts(k);
    let (s, t) = (f.source(k), f.target(k));
    lemma_asked_bound(f, s, f.edges());
    lemma_incoming_bound(f, t, f.edges());
    let q = f.stock[s] as int / 4;
    let (a, b) = (own_upto(f.side, s, f.edges()), own_upto(f.side, t, f.edges()));
    assert(a * q <= 4 * q) by (nonlinear_arith)
        requires
            a <= 4,
            q >= 0,
    ;
    assert(b * f.cap <= 4 * f.cap) by (nonlinear_arith)
        requires
            b <= 4,
            f.cap >= 0,
    ;
    assert(f.stock[t] + 4 * f.cap <= 65535);
}

/// What the first `k` edges bring a cell on balance.
spec fn balance(f: Field, i: int, k: int) -> int {
    (if own_edge(f.side, i, 0) < k {
        -f.flow(own_edge(f.side, i, 0))
    } else {
        0
    }) + (if own_edge(f.side, i, 1) < k {
        -f.flow(own_edge(f.side, i, 1))
    } else {
        0
    }) + (if own_edge(f.side, i, 2) < k {
        f.flow(own_edge(f.side, i, 2))
    } else {
        0
    }) + (if own_edge(f.side, i, 3) < k {
        f.flow(own_edge(f.side, i, 3))
    } else {
        0
    })
}

proof fn lemma_balance(f: Field, i: int, k: int)
    requires
        f.wf(),
        f.side >= 3,
        f.rate <= 250,
        forall|j: int| 0 <= j < f.stock.len() ==> #[trigger] f.stock[j] + 4 * f.cap <= 65535,
        0 <= i < f.stock.len(),
        0 <= k <= f.edges(),
    ensures
        f.got(i, k) - f.sent(i, k) == balance(f, i, k),
    decreases k,
{
    lemma_own_edges(f.side, i, 0);
    if k > 0 {
        lemma_balance(f, i, k - 1);
        lemma_own_edges(f.side, i, k - 1);
        lemma_moves_all(f, k - 1);
    } else {
        assert(own_edge(f.side, i, 0) >= 0 && own_edge(f.side, i, 1) >= 0);
        assert(own_edge(f.side, i, 2) >= 0 && own_edge(f.side, i, 3) >= 0);
    }
}

/// As long as no cell can run short and none can overflow, a cell ends up with
/// what it had and what it trades with each of the four cells beside it: the
/// set share of the difference, and no more than the cap.
pub proof fn law_a_cell_trades_with_those_beside_it(f: Field, i: int)
    requires
        f.wf(),
        f.side >= 3,
        f.rate <= 250,
        forall|j: int| 0 <= j < f.stock.len() ==> #[trigger] f.stock[j] + 4 * f.cap <= 65535,
        0 <= i < f.stock.len(),
    ensures
        f.result()[i] == f.stock[i] + trade(
            f.stock[i],
            f.stock[beside(f.side, i, 1, 0)],
            f.rate,
            f.cap,
        ) + trade(f.stock[i], f.stock[beside(f.side, i, 0, 1)], f.rate, f.cap) + trade(
            f.stock[i],
            f.stock[beside(f.side, i, -1, 0)],
            f.rate,
            f.cap,
        ) + trade(f.stock[i], f.stock[beside(f.side, i, 0, -1)], f.rate, f.cap),
{
    let n = f.edges();
    f.lemma_within_stock(i, n);
    lemma_balance(f, i, n);
    lemma_own_edges(f.side, i, 0);
    let (a, b, c, d) = (
        own_edge(f.side, i, 0),
        own_edge(f.side, i, 1),
        own_edge(f.side, i, 2),
        own_edge(f.side, i, 3),
    );
    assert(0 <= a < n && 0 <= b < n && 0 <= c < n && 0 <= d < n);
    lemma_own_edges(f.side, i, a);
    lemma_own_edges(f.side, i, b);
    lemma_own_edges(f.side, i, c);
    lemma_own_edges(f.side, i, d);
    lemma_ends_beside(f.side, a);
    lemma_ends_beside(f.side, b);
    lemma_ends_beside(f.side, c);
    lemma_ends_beside(f.side, d);
    lemma_trade(f, a);
    lemma_trade(f, b);
    lemma_trade(f, c);
    lemma_trade(f, d);
}

/// Every layer of the ground diffuses by the rate and the cap of its element,
/// and each apart from the others.
pub proof fn law_layers_diffuse_apart(t: TerrainV, tuning: TerrainTuning, c: int, k: int)
    requires
        t.wf(),
        0 <= c < t.cells.len(),
        0 <= k < 5,
    ensures
        ({
            let f = Field {
                side: t.side,
                stock: Seq::new(t.cells.len(), |j: int| t.cells[j][k]),
                rate: tuning.diffuse_rate@[k] as int,
                cap: tuning.diffuse_cap@[k] as int,
            };
            &&& f.wf()
            &&& diffused(t, tuning).cells[c][k] == f.result()[c]
            &&& diffused(t, tuning).overflow == t.overflow
            &&& diffused(t, tuning).side == t.side
        }),
{
    let f = Field {
        side: t.side,
        stock: Seq::new(t.cells.len(), |j: int| t.cells[j][k]),
        rate: tuning.diffuse_rate@[k] as int,
        cap: tuning.diffuse_cap@[k] as int,
    };
    let g = layer_field(t, tuning, k);
    assert(g.stock =~= f.stock);
    assert(g == f);
}

} // verus!
