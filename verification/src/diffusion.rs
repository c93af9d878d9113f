//! Bounded diffusion of one terrain layer over a torus.
//!
//! Every cell has an edge to its east and one to its south neighbour, the
//! grid wrapping around; on a grid two cells wide the wrap would name the
//! same pair twice, so the second naming carries nothing. Material flows down
//! the difference across an edge, in proportion to it and at most `cap`. A
//! cell asked for more than it holds scales all it sends down together, and a
//! cell offered more than it has room for scales all it takes down together,
//! so nothing is created or lost.
use crate::fx::{abs_int, trunc_div};
use crate::sums::{lemma_sum_update, sum_by};
use crate::tile::clamp_int;
use vstd::prelude::*;

verus! {

/// The most a cell can hold.
pub const FULL: i64 = 65_535;

/// The cell that the `k`-th edge starts from: two edges per cell, in order.
pub open spec fn edge_here(k: int) -> int {
    k / 2
}

/// The cell at the other end of the `k`-th edge: east for an even `k`, south
/// for an odd one.
pub open spec fn edge_there(side: int, k: int) -> int {
    let (x, y) = (edge_here(k) % side, edge_here(k) / side);
    if k % 2 == 0 {
        y * side + (x + 1) % side
    } else {
        ((y + 1) % side) * side + x
    }
}

/// Whether the `k`-th edge names a pair of cells that an earlier one named.
pub open spec fn edge_repeats(side: int, k: int) -> bool {
    side == 2 && (if k % 2 == 0 {
        edge_here(k) % side == 1
    } else {
        edge_here(k) / side == 1
    })
}

/// One layer of a square grid about to diffuse.
pub struct Field {
    pub side: int,
    pub stock: Seq<u16>,
    /// Per-mille of the difference across an edge that moves.
    pub rate: int,
    /// The most one edge moves.
    pub cap: int,
}

/// The share of `w` when `total` is asked for and `limit` is to be had: all
/// of it, or its proportion of the limit rounded down.
pub open spec fn share(w: int, total: int, limit: int) -> int {
    if total > limit {
        (w * limit) / total
    } else {
        w
    }
}

impl Field {
    pub open spec fn wf(self) -> bool {
        &&& 1 <= self.side <= 65535
        &&& self.stock.len() == self.side * self.side
        &&& 0 <= self.rate <= 65535
        &&& 0 <= self.cap <= 65535
    }

    pub open spec fn edges(self) -> int {
        2 * (self.side * self.side)
    }

    /// What would move along the `k`-th edge, away from its start when
    /// positive.
    pub open spec fn flow(self, k: int) -> int {
        if edge_repeats(self.side, k) {
            0
        } else {
            let diff = self.stock[edge_here(k)] - self.stock[edge_there(self.side, k)];
            clamp_int(trunc_div(diff * self.rate, 1000), -self.cap, self.cap)
        }
    }

    pub open spec fn source(self, k: int) -> int {
        if self.flow(k) > 0 {
            edge_here(k)
        } else {
            edge_there(self.side, k)
        }
    }

    pub open spec fn target(self, k: int) -> int {
        if self.flow(k) > 0 {
            edge_there(self.side, k)
        } else {
            edge_here(k)
        }
    }

    /// What cell `i` is asked for by the first `k` edges.
    pub open spec fn asked(self, i: int, k: int) -> int
        decreases k,
    {
        if k <= 0 {
            0
        } else {
            self.asked(i, k - 1) + (if self.source(k - 1) == i {
                abs_int(self.flow(k - 1))
            } else {
                0
            })
        }
    }

    /// What the `k`-th edge carries once its source has scaled what it sends
    /// down to what it holds.
    pub open spec fn offered(self, k: int) -> int {
        let s = self.source(k);
        share(abs_int(self.flow(k)), self.asked(s, self.edges()), self.stock[s] as int)
    }

    /// What cell `i` is offered by the first `k` edges.
    pub open spec fn incoming(self, i: int, k: int) -> int
        decreases k,
    {
        if k <= 0 {
            0
        } else {
            self.incoming(i, k - 1) + (if self.target(k - 1) == i {
                self.offered(k - 1)
            } else {
                0
            })
        }
    }

    /// What the `k`-th edge moves: what its target takes of the offer once it
    /// has scaled all offers down to the room it has.
    pub open spec fn moved(self, k: int) -> int {
        let t = self.target(k);
        share(self.offered(k), self.incoming(t, self.edges()), 65535 - self.stock[t])
    }

    /// What the first `k` edges take from cell `i`.
    pub open spec fn sent(self, i: int, k: int) -> int
        decreases k,
    {
        if k <= 0 {
            0
        } else {
            self.sent(i, k - 1) + (if self.source(k - 1) == i {
                self.moved(k - 1)
            } else {
                0
            })
        }
    }

    /// What the first `k` edges bring to cell `i`.
    pub open spec fn got(self, i: int, k: int) -> int
        decreases k,
    {
        if k <= 0 {
            0
        } else {
            self.got(i, k - 1) + (if self.target(k - 1) == i {
                self.moved(k - 1)
            } else {
                0
            })
        }
    }

    /// The stock of cell `i` once the first `k` edges have moved.
    pub open spec fn after(self, i: int, k: int) -> int {
        self.stock[i] - self.sent(i, k) + self.got(i, k)
    }

    /// The layer once it has diffused.
    pub open spec fn result(self) -> Seq<u16> {
        Seq::new(self.stock.len(), |i: int| self.after(i, self.edges()) as u16)
    }
}

pub proof fn lemma_cell_bound(side: int, x: int, y: int)
    requires
        0 <= x < side,
        0 <= y < side,
    ensures
        0 <= y * side + x < side * side,
        (y * side + x) % side == x,
        (y * side + x) / side == y,
{
    assert(0 <= y * side + x < side * side) by (nonlinear_arith)
        requires
            0 <= x < side,
            0 <= y < side,
    ;
    vstd::arithmetic::div_mod::lemma_fundamental_div_mod_converse(y * side + x, side, y, x);
}

pub proof fn lemma_cell_split(side: int, i: int)
    requires
        0 < side,
        0 <= i < side * side,
    ensures
        0 <= i % side < side,
        0 <= i / side < side,
        (i / side) * side + i % side == i,
{
    vstd::arithmetic::div_mod::lemma_fundamental_div_mod(i, side);
    assert(0 <= i / side < side) by (nonlinear_arith)
        requires
            0 < side,
            0 <= i < side * side,
    ;
    assert(side * (i / side) == (i / side) * side) by (nonlinear_arith);
}

/// Both ends of an edge are cells of the grid.
pub proof fn lemma_edge_ends(side: int, k: int)
    requires
        1 <= side,
        0 <= k < 2 * (side * side),
    ensures
        0 <= edge_here(k) < side * side,
        0 <= edge_there(side, k) < side * side,
{
    let h = edge_here(k);
    lemma_cell_split(side, h);
    let (x, y) = (h % side, h / side);
    lemma_cell_bound(side, (x + 1) % side, y);
    lemma_cell_bound(side, x, (y + 1) % side);
}

proof fn lemma_share(w: int, total: int, limit: int)
    requires
        0 <= w,
        0 <= limit,
    ensures
        0 <= share(w, total, limit) <= w,
        total > limit ==> share(w, total, limit) * total <= w * limit,
{
    if total > limit {
        vstd::arithmetic::div_mod::lemma_fundamental_div_mod(w * limit, total);
        let q = (w * limit) / total;
        assert(w * limit >= 0) by (nonlinear_arith)
            requires
                0 <= w,
                0 <= limit,
        ;
        vstd::arithmetic::div_mod::lemma_div_pos_is_pos(w * limit, total);
        assert(total * q == q * total) by (nonlinear_arith);
        assert(q <= w) by (nonlinear_arith)
            requires
                q * total <= w * limit,
                total > limit,
                0 <= limit,
                0 <= w,
                0 <= q,
        ;
    }
}

impl Field {
    /// Nothing negative moves, and what moves is at most what was offered, at
    /// most the flow, and so at most the cap.
    pub proof fn lemma_edge_amounts(self, k: int)
        requires
            self.wf(),
            0 <= k < self.edges(),
        ensures
            0 <= self.moved(k) <= self.offered(k) <= abs_int(self.flow(k)) <= self.cap,
            0 <= self.source(k) < self.stock.len(),
            0 <= self.target(k) < self.stock.len(),
    {
        lemma_edge_ends(self.side, k);
        let s = self.source(k);
        let t = self.target(k);
        lemma_share(abs_int(self.flow(k)), self.asked(s, self.edges()), self.stock[s] as int);
        lemma_share(self.offered(k), self.incoming(t, self.edges()), 65535 - self.stock[t]);
    }

    /// Among the first `k` edges, what a cell sends out is within what it
    /// offers, and what it offers is its share of its stock.
    proof fn lemma_sent_upto(self, i: int, k: int)
        requires
            self.wf(),
            0 <= i < self.stock.len(),
            0 <= k <= self.edges(),
        ensures
            0 <= self.sent(i, k),
            0 <= self.asked(i, k) <= k * self.cap,
            self.asked(i, self.edges()) > self.stock[i] ==> self.sent(i, k) * self.asked(
                i,
                self.edges(),
            ) <= self.asked(i, k) * self.stock[i],
            self.asked(i, self.edges()) <= self.stock[i] ==> self.sent(i, k) <= self.asked(i, k),
        decreases k,
    {
        if k > 0 {
            self.lemma_sent_upto(i, k - 1);
            self.lemma_edge_amounts(k - 1);
            assert(k * self.cap == (k - 1) * self.cap + self.cap) by (nonlinear_arith);
            if self.source(k - 1) == i {
                let d = self.asked(i, self.edges());
                let a = self.stock[i] as int;
                let m = self.moved(k - 1);
                let o = self.offered(k - 1);
                let w = abs_int(self.flow(k - 1));
                lemma_share(w, d, a);
                if d > a {
                    assert(m * d <= o * d) by (nonlinear_arith)
                        requires
                            m <= o,
                            d > a,
                            a >= 0,
                    ;
                    let p = self.sent(i, k - 1);
                    let q = self.asked(i, k - 1);
                    assert((p + m) * d == p * d + m * d) by (nonlinear_arith);
                    assert((q + w) * a == q * a + w * a) by (nonlinear_arith);
                }
            }
        } else {
            assert(0 * self.cap == 0) by (nonlinear_arith);
            let d = self.asked(i, self.edges());
            assert(0 * d == 0) by (nonlinear_arith);
            assert(0 * self.stock[i] == 0) by (nonlinear_arith);
        }
    }

    proof fn lemma_got_upto(self, i: int, k: int)
        requires
            self.wf(),
            0 <= i < self.stock.len(),
            0 <= k <= self.edges(),
        ensures
            0 <= self.got(i, k),
            0 <= self.incoming(i, k) <= k * self.cap,
            self.incoming(i, self.edges()) > 65535 - self.stock[i] ==> self.got(i, k)
                * self.incoming(i, self.edges()) <= self.incoming(i, k) * (65535 - self.stock[i]),
            self.incoming(i, self.edges()) <= 65535 - self.stock[i] ==> self.got(i, k)
                <= self.incoming(i, k),
        decreases k,
    {
        if k > 0 {
            self.lemma_got_upto(i, k - 1);
            self.lemma_edge_amounts(k - 1);
            assert(k * self.cap == (k - 1) * self.cap + self.cap) by (nonlinear_arith);
            if self.target(k - 1) == i {
                let d = self.incoming(i, self.edges());
                let a = 65535 - self.stock[i];
                let m = self.moved(k - 1);
                let w = self.offered(k - 1);
                lemma_share(w, d, a);
                if d > a {
                    let p = self.got(i, k - 1);
                    let q = self.incoming(i, k - 1);
                    assert((p + m) * d == p * d + m * d) by (nonlinear_arith);
                    assert((q + w) * a == q * a + w * a) by (nonlinear_arith);
                }
            }
        } else {
            assert(0 * self.cap == 0) by (nonlinear_arith);
            let d = self.incoming(i, self.edges());
            assert(0 * d == 0) by (nonlinear_arith);
            assert(0 * (65535 - self.stock[i]) == 0) by (nonlinear_arith);
        }
    }

    /// Later edges only add to what a cell has sent and got.
    proof fn lemma_monotone(self, i: int, k: int, m: int)
        requires
            self.wf(),
            0 <= i < self.stock.len(),
            0 <= k <= m <= self.edges(),
        ensures
            self.sent(i, k) <= self.sent(i, m),
            self.got(i, k) <= self.got(i, m),
        decreases m - k,
    {
        if k < m {
            self.lemma_monotone(i, k, m - 1);
            self.lemma_edge_amounts(m - 1);
        }
    }

    /// A cell never sends more than it holds nor takes more than it has room
    /// for, at any point of the sweep.
    pub proof fn lemma_within_stock(self, i: int, k: int)
        requires
            self.wf(),
            0 <= i < self.stock.len(),
            0 <= k <= self.edges(),
        ensures
            0 <= self.sent(i, k) <= self.stock[i],
            0 <= self.got(i, k) <= 65535 - self.stock[i],
            0 <= self.after(i, k) <= 65535,
            0 <= self.asked(i, k) <= k * self.cap,
            0 <= self.incoming(i, k) <= k * self.cap,
    {
        let n = self.edges();
        self.lemma_sent_upto(i, k);
        self.lemma_got_upto(i, k);
        self.lemma_sent_upto(i, n);
        self.lemma_got_upto(i, n);
        self.lemma_monotone(i, k, n);
        let (s, d, a) = (self.sent(i, n), self.asked(i, n), self.stock[i] as int);
        if d > a {
            assert(s <= a) by (nonlinear_arith)
                requires
                    s * d <= d * a,
                    d > a,
                    a >= 0,
            ;
        }
        let (g, e, r) = (self.got(i, n), self.incoming(i, n), 65535 - self.stock[i]);
        if e > r {
            assert(g <= r) by (nonlinear_arith)
                requires
                    g * e <= e * r,
                    e > r,
                    r >= 0,
            ;
        }
    }

    /// The stocks once the first `k` edges have moved.
    pub open spec fn stocks_after(self, k: int) -> Seq<int> {
        Seq::new(self.stock.len(), |i: int| self.after(i, k))
    }

    proof fn lemma_step_conserves(self, k: int)
        requires
            self.wf(),
            0 <= k < self.edges(),
        ensures
            sum_by(self.stocks_after(k + 1), |v: int| v) == sum_by(
                self.stocks_after(k),
                |v: int| v,
            ),
    {
        self.lemma_edge_amounts(k);
        let (s, t, m) = (self.source(k), self.target(k), self.moved(k));
        let a = self.stocks_after(k);
        let f = |v: int| v;
        let b = a.update(s, a[s] - m);
        lemma_sum_update(a, s, a[s] - m, f);
        lemma_sum_update(b, t, b[t] + m, f);
        assert(self.stocks_after(k + 1) =~= b.update(t, b[t] + m));
    }

    proof fn lemma_conserves(self, k: int)
        requires
            self.wf(),
            0 <= k <= self.edges(),
        ensures
            sum_by(self.stocks_after(k), |v: int| v) == sum_by(
                self.stocks_after(0),
                |v: int| v,
            ),
        decreases k,
    {
        if k > 0 {
            self.lemma_conserves(k - 1);
            self.lemma_step_conserves(k - 1);
        }
    }
}

/// Diffusion moves material and neither creates nor loses any: a layer's
/// total is the same before and after.
pub proof fn law_diffusion_conserves_mass(f: Field)
    requires
        f.wf(),
    ensures
        sum_by(f.result(), |v: u16| v as int) == sum_by(f.stock, |v: u16| v as int),
{
    let n = f.edges();
    f.lemma_conserves(n);
    let g = |v: u16| v as int;
    let h = |v: int| v;
    assert forall|i: int| 0 <= i < f.result().len() implies g(#[trigger] f.result()[i]) == h(
        f.stocks_after(n)[i],
    ) by {
        f.lemma_within_stock(i, n);
    }
    crate::sums::lemma_sum_eq(f.result(), f.stocks_after(n), g, h);
    crate::sums::lemma_sum_eq(f.stock, f.stocks_after(0), g, h);
}

/// No edge carries more than the cap in one sweep.
pub proof fn law_diffusion_respects_the_cap(f: Field, k: int)
    requires
        f.wf(),
        0 <= k < f.edges(),
    ensures
        0 <= f.moved(k) <= f.cap,
{
    f.lemma_edge_amounts(k);
}

/// Material travels one edge at most in one sweep: a cell all of whose edges
/// lead between cells that hold nothing holds nothing afterwards.
pub proof fn law_diffusion_reaches_one_cell(f: Field, i: int)
    requires
        f.wf(),
        0 <= i < f.stock.len(),
        f.stock[i] == 0,
        forall|k: int|
            0 <= k < f.edges() && (#[trigger] edge_here(k) == i || edge_there(f.side, k) == i)
                ==> f.stock[edge_here(k)] == 0 && f.stock[edge_there(f.side, k)] == 0,
    ensures
        f.result()[i] == 0,
{
    lemma_still(f, i, f.edges());
}

/// A cell at the same level as its neighbours keeps its stock.
pub proof fn law_level_ground_stays_level(f: Field, i: int)
    requires
        f.wf(),
        0 <= i < f.stock.len(),
        forall|k: int|
            0 <= k < f.edges() && (#[trigger] edge_here(k) == i || edge_there(f.side, k) == i)
                ==> f.stock[edge_here(k)] == f.stock[edge_there(f.side, k)],
    ensures
        f.result()[i] == f.stock[i],
{
    lemma_still(f, i, f.edges());
}

proof fn lemma_still(f: Field, i: int, k: int)
    requires
        f.wf(),
        0 <= i < f.stock.len(),
        0 <= k <= f.edges(),
        forall|k: int|
            0 <= k < f.edges() && (#[trigger] edge_here(k) == i || edge_there(f.side, k) == i)
                ==> f.stock[edge_here(k)] == f.stock[edge_there(f.side, k)],
    ensures
        f.sent(i, k) == 0,
        f.got(i, k) == 0,
    decreases k,
{
    if k > 0 {
        lemma_still(f, i, k - 1);
        f.lemma_edge_amounts(k - 1);
        if f.source(k - 1) == i || f.target(k - 1) == i {
            assert(edge_here(k - 1) == i || edge_there(f.side, k - 1) == i);
            assert(f.flow(k - 1) == 0) by {
                assert(0 * f.rate == 0) by (nonlinear_arith);
            }
        }
    }
}

/// The start, the end and the repetition of the `k`-th edge.
fn edge(side: u64, k: u64) -> (r: (usize, usize, bool))
    requires
        1 <= side <= 65535,
        k < 2 * (side * side),
    ensures
        r.0 == edge_here(k as int),
        r.1 == edge_there(side as int, k as int),
        r.2 == edge_repeats(side as int, k as int),
        r.0 < side * side,
        r.1 < side * side,
{
    proof {
        lemma_edge_ends(side as int, k as int);
        lemma_cell_split(side as int, k as int / 2);
        lemma_grid(side as int);
    }
    let here: u64 = k / 2;
    let x: u64 = here % side;
    let y: u64 = here / side;
    if k % 2 == 0 {
        proof {
            lemma_cell_bound(side as int, (x + 1) % (side as int), y as int);
            lemma_product(y as int, side as int);
        }
        let there: u64 = y * side + (x + 1) % side;
        (here as usize, there as usize, side == 2 && x == 1)
    } else {
        proof {
            lemma_cell_bound(side as int, x as int, (y + 1) % (side as int));
            lemma_product((y + 1) % (side as int), side as int);
        }
        let there: u64 = ((y + 1) % side) * side + x;
        (here as usize, there as usize, side == 2 && y == 1)
    }
}

proof fn lemma_product(a: int, b: int)
    requires
        0 <= a <= 65535,
        0 <= b <= 65535,
    ensures
        0 <= a * b <= 4294836225,
{
    assert(0 <= a * b <= 4294836225) by (nonlinear_arith)
        requires
            0 <= a <= 65535,
            0 <= b <= 65535,
    ;
}

/// The number of cells fits in a `u32`.
pub proof fn lemma_grid(side: int)
    requires
        1 <= side <= 65535,
    ensures
        1 <= side * side <= 4294836225,
{
    lemma_product(side, side);
    assert(1 <= side * side) by (nonlinear_arith)
        requires
            1 <= side,
    ;
}

/// The flow along an edge between stocks `a` and `b`.
fn edge_flow(a: u16, b: u16, rate: u16, cap: u16) -> (r: i64)
    ensures
        r == clamp_int(trunc_div((a - b) * rate, 1000), -cap, cap as int),
{
    let diff: i64 = a as i64 - b as i64;
    assert(-65535 * 65535 <= diff * rate <= 65535 * 65535) by (nonlinear_arith)
        requires
            -65535 <= diff <= 65535,
            0 <= rate <= 65535,
    ;
    let f: i64 = diff * rate as i64 / 1000;
    let c: i64 = cap as i64;
    if f < -c {
        -c
    } else if f > c {
        c
    } else {
        f
    }
}

fn scaled(w: i64, total: i64, limit: i64) -> (r: i64)
    requires
        0 <= w <= 65535,
        0 <= limit <= 65535,
    ensures
        r == share(w as int, total as int, limit as int),
        0 <= r <= w,
{
    proof {
        lemma_share(w as int, total as int, limit as int);
        lemma_product(w as int, limit as int);
    }
    if total > limit {
        (w * limit) / total
    } else {
        w
    }
}

/// The flow of the `k`-th edge, with its source and target.
fn directed(stock: &Vec<u16>, side: u64, rate: u16, cap: u16, k: u64, Ghost(f): Ghost<Field>) -> (r: (
    usize,
    usize,
    i64,
))
    requires
        f.wf(),
        f == (Field { side: side as int, stock: stock@, rate: rate as int, cap: cap as int }),
        k < f.edges(),
    ensures
        r.0 == f.source(k as int),
        r.1 == f.target(k as int),
        r.2 == abs_int(f.flow(k as int)),
        0 <= r.2 <= f.cap,
        r.0 < stock@.len(),
        r.1 < stock@.len(),
{
    let (here, there, repeats): (usize, usize, bool) = edge(side, k);
    proof {
        f.lemma_edge_amounts(k as int);
    }
    if repeats {
        return (there, here, 0);
    }
    let v: i64 = edge_flow(stock[here], stock[there], rate, cap);
    if v > 0 {
        (here, there, v)
    } else {
        (there, here, -v)
    }
}

/// Let one layer of a `side` by `side` grid diffuse: three sweeps over the
/// edges, the first totalling what each cell is asked for, the second what
/// each is offered, the third moving.
pub fn diffuse(stock: &Vec<u16>, side: u64, rate: u16, cap: u16) -> (r: Vec<u16>)
    requires
        1 <= side <= 65535,
        stock@.len() == side * side,
    ensures
        r@ == (Field {
            side: side as int,
            stock: stock@,
            rate: rate as int,
            cap: cap as int,
        }).result(),
{
    let ghost f = Field { side: side as int, stock: stock@, rate: rate as int, cap: cap as int };
    proof {
        lemma_grid(side as int);
    }
    let n: usize = stock.len();
    let edges: u64 = 2 * (side * side);

    let mut asked: Vec<i64> = vec![0i64; n];
    let mut k: u64 = 0;
    while k < edges
        invariant
            f.wf(),
            f == (Field { side: side as int, stock: stock@, rate: rate as int, cap: cap as int }),
            edges == f.edges(),
            edges <= 2 * 4294836225,
            k <= edges,
            asked@.len() == stock@.len(),
            forall|i: int| 0 <= i < asked@.len() ==> #[trigger] asked@[i] == f.asked(i, k as int),
        decreases edges - k,
    {
        let (s, _t, w): (usize, usize, i64) = directed(stock, side, rate, cap, k, Ghost(f));
        proof {
            f.lemma_within_stock(s as int, k as int);
            assert(k * f.cap <= 2 * 4294836225 * 65535) by (nonlinear_arith)
                requires
                    0 <= k <= 2 * 4294836225,
                    0 <= f.cap <= 65535,
            ;
        }
        asked[s] = asked[s] + w;
        k = k + 1;
    }

    let mut incoming: Vec<i64> = vec![0i64; n];
    k = 0;
    while k < edges
        invariant
            f.wf(),
            f == (Field { side: side as int, stock: stock@, rate: rate as int, cap: cap as int }),
            edges == f.edges(),
            edges <= 2 * 4294836225,
            k <= edges,
            asked@.len() == stock@.len(),
            forall|i: int| 0 <= i < asked@.len() ==> #[trigger] asked@[i] == f.asked(i, f.edges()),
            incoming@.len() == stock@.len(),
            forall|i: int|
                0 <= i < incoming@.len() ==> #[trigger] incoming@[i] == f.incoming(i, k as int),
        decreases edges - k,
    {
        let (s, t, w): (usize, usize, i64) = directed(stock, side, rate, cap, k, Ghost(f));
        let o: i64 = scaled(w, asked[s], stock[s] as i64);
        proof {
            f.lemma_within_stock(t as int, k as int);
            assert(k * f.cap <= 2 * 4294836225 * 65535) by (nonlinear_arith)
                requires
                    0 <= k <= 2 * 4294836225,
                    0 <= f.cap <= 65535,
            ;
        }
        incoming[t] = incoming[t] + o;
        k = k + 1;
    }

    let mut out: Vec<u16> = Vec::new();
    let mut j: usize = 0;
    while j < n
        invariant
            n == stock@.len(),
            j <= n,
            out@ == stock@.take(j as int),
        decreases n - j,
    {
        out.push(stock[j]);
        assert(stock@.take(j + 1) =~= stock@.take(j as int).push(stock@[j as int]));
        j = j + 1;
    }
    assert(out@ =~= stock@);
    k = 0;
    while k < edges
        invariant
            f.wf(),
            f == (Field { side: side as int, stock: stock@, rate: rate as int, cap: cap as int }),
            edges == f.edges(),
            k <= edges,
            asked@.len() == stock@.len(),
            forall|i: int| 0 <= i < asked@.len() ==> #[trigger] asked@[i] == f.asked(i, f.edges()),
            incoming@.len() == stock@.len(),
            forall|i: int|
                0 <= i < incoming@.len() ==> #[trigger] incoming@[i] == f.incoming(i, f.edges()),
            out@.len() == stock@.len(),
            forall|i: int| 0 <= i < out@.len() ==> #[trigger] out@[i] == f.after(i, k as int),
        decreases edges - k,
    {
        let (s, t, w): (usize, usize, i64) = directed(stock, side, rate, cap, k, Ghost(f));
        let o: i64 = scaled(w, asked[s], stock[s] as i64);
        let m: i64 = scaled(o, incoming[t], FULL - stock[t] as i64);
        proof {
            f.lemma_within_stock(s as int, k as int);
            f.lemma_within_stock(t as int, k as int);
            f.lemma_within_stock(s as int, k as int + 1);
            f.lemma_within_stock(t as int, k as int + 1);
            f.lemma_edge_amounts(k as int);
        }
        if m > 0 {
            proof {
                // A cell is never its own neighbour across an edge that carries.
                if s == t {
                    assert(f.flow(k as int) == 0) by {
                        assert(0 * f.rate == 0) by (nonlinear_arith);
                    }
                }
            }
            out[s] = out[s] - m as u16;
            out[t] = out[t] + m as u16;
        }
        k = k + 1;
    }
    assert(out@ =~= f.result());
    out
}

} // verus!
