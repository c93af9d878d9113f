//! What the pictures show.
use crate::atlas::{bodies_in, last_max, occupant, shrunk, Visibility};
use crate::element::{element_at, Element};
use crate::entity::EntityV;
use crate::fx::{max_int, min_int};
use crate::race::Kind;
use crate::terrain::{blend, blend_channel, blend_total, colour, pixels, TerrainV};
use vstd::prelude::*;

verus! {

/// A channel of a colour.
pub open spec fn channel(c: (u8, u8, u8), ch: int) -> int {
    if ch == 0 {
        c.0 as int
    } else if ch == 1 {
        c.1 as int
    } else {
        c.2 as int
    }
}

/// The colour of a mixture lies between those of what is in it, in every channel.
pub proof fn law_a_blend_lies_between(s: Seq<u64>, ch: int, lo: int, hi: int)
    requires
        s.len() == 5,
        0 <= ch < 3,
        exists|e: int| 0 <= e < 5 && #[trigger] s[e] > 0,
        forall|e: int|
            0 <= e < 5 && #[trigger] s[e] > 0 ==> lo <= channel(colour(element_at(e)), ch) <= hi,
    ensures
        lo <= channel(blend(s), ch) <= hi,
{
    let total = blend_total(s);
    let c0 = channel(colour(element_at(0)), ch);
    let c1 = channel(colour(element_at(1)), ch);
    let c2 = channel(colour(element_at(2)), ch);
    let c3 = channel(colour(element_at(3)), ch);
    let c4 = channel(colour(element_at(4)), ch);
    assert(s[0] >= 0 && s[1] >= 0 && s[2] >= 0 && s[3] >= 0 && s[4] >= 0);
    lemma_weighed(c0, s[0] as int, lo, hi);
    lemma_weighed(c1, s[1] as int, lo, hi);
    lemma_weighed(c2, s[2] as int, lo, hi);
    lemma_weighed(c3, s[3] as int, lo, hi);
    lemma_weighed(c4, s[4] as int, lo, hi);
    let sum = blend_channel(s, ch);
    assert(sum == c0 * s[0] + c1 * s[1] + c2 * s[2] + c3 * s[3] + c4 * s[4]);
    assert(lo * total == lo * s[0] + lo * s[1] + lo * s[2] + lo * s[3] + lo * s[4])
        by (nonlinear_arith)
        requires
            total == s[0] + s[1] + s[2] + s[3] + s[4],
    ;
    assert(hi * total == hi * s[0] + hi * s[1] + hi * s[2] + hi * s[3] + hi * s[4])
        by (nonlinear_arith)
        requires
            total == s[0] + s[1] + s[2] + s[3] + s[4],
    ;
    lemma_weighed(c0, s[0] as int, 0, 255);
    lemma_weighed(c1, s[1] as int, 0, 255);
    lemma_weighed(c2, s[2] as int, 0, 255);
    lemma_weighed(c3, s[3] as int, 0, 255);
    lemma_weighed(c4, s[4] as int, 0, 255);
    let e = choose|e: int| 0 <= e < 5 && #[trigger] s[e] > 0;
    assert(total > 0);
    assert(lo <= sum / total <= hi && 0 <= sum / total <= 255) by (nonlinear_arith)
        requires
            lo * total <= sum <= hi * total,
            0 <= sum <= 255 * total,
            total > 0,
    ;
}

proof fn lemma_weighed(c: int, n: int, lo: int, hi: int)
    requires
        0 <= n,
        n > 0 ==> lo <= c <= hi,
    ensures
        lo * n <= c * n <= hi * n,
{
    assert(lo * n <= c * n <= hi * n) by (nonlinear_arith)
        requires
            n == 0 || (0 <= n && lo <= c <= hi),
    ;
}

/// Ground that holds one element only has its colour.
pub proof fn law_pure_ground_has_its_elements_colour(s: Seq<u64>, e: int)
    requires
        s.len() == 5,
        0 <= e < 5,
        s[e] > 0,
        forall|k: int| 0 <= k < 5 && k != e ==> #[trigger] s[k] == 0,
    ensures
        blend(s) == colour(element_at(e)),
{
    let c = colour(element_at(e));
    assert forall|ch: int| 0 <= ch < 3 implies #[trigger] channel(blend(s), ch) == channel(c, ch) by {
        law_a_blend_lies_between(s, ch, channel(c, ch), channel(c, ch));
    }
    assert(channel(blend(s), 0) == channel(c, 0));
    assert(channel(blend(s), 1) == channel(c, 1));
    assert(channel(blend(s), 2) == channel(c, 2));
}

/// Elements have colours of their own, and bare ground is darker than any.
pub proof fn law_colours_tell_elements_apart(a: Element, b: Element)
    ensures
        colour(a) == colour(b) ==> a == b,
        ({
            let bare = blend(seq![0u64, 0, 0, 0, 0]);
            bare.0 < colour(a).0 && bare.1 < colour(a).1 && bare.2 < colour(a).2
        }),
{
}

/// The frame has the three bytes of each cell's colour, cell by cell.
pub proof fn law_every_cell_is_a_pixel(t: TerrainV, n: int, c: int, ch: int)
    requires
        0 <= c < n,
        0 <= ch < 3,
    ensures
        pixels(t, n).len() == 3 * n,
        pixels(t, n)[3 * c + ch] == channel(
            blend(Seq::new(5, |e: int| t.cells[c][e] as u64)),
            ch,
        ),
    decreases n,
{
    if c < n - 1 {
        law_every_cell_is_a_pixel(t, n - 1, c, ch);
    } else {
        lemma_pixels_len(t, n - 1);
    }
}

proof fn lemma_pixels_len(t: TerrainV, n: int)
    requires
        0 <= n,
    ensures
        pixels(t, n).len() == 3 * n,
    decreases n,
{
    if n > 0 {
        lemma_pixels_len(t, n - 1);
    }
}

/// A coordinate of the square falls where it lies in proportion, and one outside
/// at the edge.
pub proof fn law_sampling_is_in_proportion(x: int, n: int, size: int)
    requires
        1 <= n,
        1 <= size,
    ensures
        0 <= shrunk(x, n, size) < n,
        0 <= x < size ==> shrunk(x, n, size) * size <= x * n < (shrunk(x, n, size) + 1) * size,
        x < 0 ==> shrunk(x, n, size) == 0,
        x >= size ==> shrunk(x, n, size) == n - 1,
{
    let v = max_int(x, 0);
    let p = v * n;
    assert(0 <= p) by (nonlinear_arith)
        requires
            0 <= v,
            1 <= n,
            p == v * n,
    ;
    let q = p / size;
    vstd::arithmetic::div_mod::lemma_fundamental_div_mod(p, size);
    vstd::arithmetic::div_mod::lemma_mod_bound(p, size);
    assert(size * q == q * size && (q + 1) * size == q * size + size) by (nonlinear_arith);
    vstd::arithmetic::div_mod::lemma_div_pos_is_pos(p, size);
    if x < 0 {
        assert(p == 0) by (nonlinear_arith)
            requires
                v == 0,
                p == v * n,
        ;
        vstd::arithmetic::div_mod::lemma_div_of0(size);
    } else if x < size {
        assert(p < n * size) by (nonlinear_arith)
            requires
                0 <= x < size,
                1 <= n,
                p == x * n,
        ;
        assert(q < n) by (nonlinear_arith)
            requires
                q * size < n * size,
                1 <= size,
        ;
    } else {
        assert(p >= n * size) by (nonlinear_arith)
            requires
                size <= x,
                1 <= n,
                p == x * n,
        ;
        assert(q >= n) by (nonlinear_arith)
            requires
                (q + 1) * size > n * size,
                1 <= size,
        ;
    }
}

/// The body lives, is of an element, and falls into column `i` and row `j` of the
/// sample.
pub open spec fn shown_at(
    mw: int,
    mh: int,
    size: int,
    x: Element,
    i: int,
    j: int,
) -> spec_fn(EntityV) -> bool {
    |e: EntityV|
        e.alive && e.element == x && shrunk(e.pos.x.floor(), mw, size) == i && shrunk(
            e.pos.y.floor(),
            mh,
            size,
        ) == j
}

/// A sampled cell, counted along the rows, has every living body that falls into its
/// column and its row, and no other.
pub proof fn law_a_sampled_cell_has_its_bodies(
    ents: Seq<EntityV>,
    mw: int,
    mh: int,
    size: int,
    i: int,
    j: int,
    x: Element,
)
    requires
        1 <= mw,
        1 <= mh,
        1 <= size,
        0 <= i < mw,
        0 <= j < mh,
    ensures
        bodies_in(ents, mw, mh, size, j * mw + i, x, ents.len() as int) == ents.filter(
            shown_at(mw, mh, size, x, i, j),
        ).len(),
    decreases ents.len(),
{
    reveal(Seq::filter);
    if ents.len() > 0 {
        let p = ents.drop_last();
        law_a_sampled_cell_has_its_bodies(p, mw, mh, size, i, j, x);
        lemma_bodies_in(ents, p, mw, mh, size, j * mw + i, x, p.len() as int);
        let e = ents.last();
        let (a, b) = (shrunk(e.pos.x.floor(), mw, size), shrunk(e.pos.y.floor(), mh, size));
        law_sampling_is_in_proportion(e.pos.x.floor(), mw, size);
        law_sampling_is_in_proportion(e.pos.y.floor(), mh, size);
        lemma_one_spot(a, b, i, j, mw);
    }
}

proof fn lemma_one_spot(a: int, b: int, i: int, j: int, w: int)
    requires
        0 <= a < w,
        0 <= i < w,
    ensures
        b * w + a == j * w + i <==> a == i && b == j,
{
    if b < j {
        assert(b * w + w <= j * w) by (nonlinear_arith)
            requires
                b + 1 <= j,
                0 < w,
        ;
    } else if b > j {
        assert(j * w + w <= b * w) by (nonlinear_arith)
            requires
                j + 1 <= b,
                0 < w,
        ;
    }
}

proof fn lemma_bodies_in(
    s: Seq<EntityV>,
    t: Seq<EntityV>,
    mw: int,
    mh: int,
    size: int,
    c: int,
    x: Element,
    n: int,
)
    requires
        n <= s.len(),
        n <= t.len(),
        forall|k: int| 0 <= k < n ==> s[k] == t[k],
    ensures
        bodies_in(s, mw, mh, size, c, x, n) == bodies_in(t, mw, mh, size, c, x, n),
    decreases n,
{
    if n > 0 {
        lemma_bodies_in(s, t, mw, mh, size, c, x, n - 1);
    }
}

/// An empty cell has no occupant; else it is the element with the most bodies, the
/// last of the ring among equals, and the cell is as crowded as there are bodies
/// besides one, counted up to four.
pub proof fn law_the_most_numerous_is_shown(s: Seq<u64>)
    requires
        s.len() == 5,
    ensures
        occupant(s) is None <==> forall|k: int| 0 <= k < 5 ==> #[trigger] s[k] == 0,
        occupant(s) matches Some((e, d)) ==> {
            &&& forall|k: int| 0 <= k < 5 ==> #[trigger] s[k] <= s[e.at()]
            &&& forall|k: int| e.at() < k < 5 ==> #[trigger] s[k] < s[e.at()]
            &&& d + 1 == min_int(s[0] + s[1] + s[2] + s[3] + s[4], 5)
        },
{
    reveal_with_fuel(last_max, 6);
    let p = last_max(s, 5);
    assert(0 <= p < 5);
    crate::element::law_ring_positions(element_at(p), p);
    if occupant(s) is None {
        assert(s[0] + s[1] + s[2] + s[3] + s[4] == 0);
        assert forall|k: int| 0 <= k < 5 implies #[trigger] s[k] == 0 by {}
    } else {
        assert(s[0] > 0 || s[1] > 0 || s[2] > 0 || s[3] > 0 || s[4] > 0);
    }
}

/// A switch for a kind and one for an element both hide a body, and nothing else
/// does: with a kind switched off none of it is seen, and with everything on all
/// are. The switches of one kind have no say in the other.
pub proof fn law_switches_hide_bodies(a: Visibility, b: Visibility, e: EntityV)
    ensures
        e.kind == Kind::Animal && !a.animals_on ==> !a.shows(e),
        e.kind == Kind::Plant && !a.plants_on ==> !a.shows(e),
        e.kind == Kind::Animal && a.animals_on == b.animals_on && a.animal_el == b.animal_el
            ==> a.shows(e) == b.shows(e),
        e.kind == Kind::Plant && a.plants_on == b.plants_on && a.plant_el == b.plant_el ==> a.shows(
            e,
        ) == b.shows(e),
        e.kind == Kind::Animal && a.animals_on ==> a.shows(e) == a.animal_el@[e.element.at()],
        e.kind == Kind::Plant && a.plants_on ==> a.shows(e) == a.plant_el@[e.element.at()],
{
}

/// Of the ground a switched-off element is left out and every other one shown as it
/// is; with the ground switched off nothing of it is shown.
pub proof fn law_switches_hide_ground(v: Visibility, cell: Seq<u16>, e: int)
    requires
        cell.len() == 5,
        0 <= e < 5,
    ensures
        v.seen(cell).len() == 5,
        v.seen(cell)[e] == 0 || v.seen(cell)[e] == cell[e],
        !v.terrain_on || !v.terrain_el@[e] ==> v.seen(cell)[e] == 0,
        v.terrain_on && v.terrain_el@[e] ==> v.seen(cell)[e] == cell[e],
{
}

} // verus!
