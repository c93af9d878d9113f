//! The world as a picture: for the terminal, two sampled rows per line of
//! half-block glyphs; for a window, one pixel per cell.
use crate::element::{element_at, Element, PerElement};
use crate::entity::{Entity, EntityV};
use crate::fx::Fx;
use crate::race::Kind;
use crate::terrain::{blend, blend_rgb, colour, rgb, Terrain, TerrainV};
use crate::text::{decimal, push_decimal};
use crate::world::{World, WorldV};
use vstd::prelude::*;
use vstd::string::*;

verus! {

/// Where a coordinate falls when `size` cells are sampled into `n`.
pub open spec fn shrunk(x: int, n: int, size: int) -> int {
    let p = (if x < 0 {
        0
    } else {
        x
    }) * n / size;
    if p > n - 1 {
        n - 1
    } else {
        p
    }
}

/// Number of the sampled cell of a body.
pub open spec fn body_spot(e: EntityV, mw: int, mh: int, size: int) -> int {
    shrunk(e.pos.y.floor(), mh, size) * mw + shrunk(e.pos.x.floor(), mw, size)
}

/// How many of the first `n` bodies are alive, of element `e` and in sampled
/// cell `c`.
pub open spec fn bodies_in(
    ents: Seq<EntityV>,
    mw: int,
    mh: int,
    size: int,
    c: int,
    e: Element,
    n: int,
) -> int
    decreases n,
{
    if n <= 0 {
        0
    } else {
        bodies_in(ents, mw, mh, size, c, e, n - 1) + (if ents[n - 1].alive && ents[n - 1].element
            == e && body_spot(ents[n - 1], mw, mh, size) == c {
            1
        } else {
            0int
        })
    }
}

/// How much of element `e` the first `n` cells of the ground that fall into
/// sampled cell `c` hold.
pub open spec fn ground_in(t: TerrainV, mw: int, mh: int, c: int, e: Element, n: int) -> int
    decreases n,
{
    if n <= 0 {
        0
    } else {
        let (x, y) = ((n - 1) % t.side, (n - 1) / t.side);
        ground_in(t, mw, mh, c, e, n - 1) + (if shrunk(y, mh, t.side) * mw + shrunk(x, mw, t.side)
            == c {
            t.stock(n - 1, e) as int
        } else {
            0
        })
    }
}

/// The most numerous element in a sampled cell, the last of equals, and how
/// crowded the cell is.
pub open spec fn occupant(s: Seq<u64>) -> Option<(Element, int)> {
    let total = s[0] + s[1] + s[2] + s[3] + s[4];
    if total == 0 {
        None
    } else {
        Some(
            (
                element_at(last_max(s, 5)),
                if total - 1 > 4 {
                    4
                } else {
                    total - 1
                },
            ),
        )
    }
}

/// Position of the last of the largest of the first `n` numbers.
pub open spec fn last_max(s: Seq<u64>, n: int) -> int
    decreases n,
{
    if n <= 1 {
        0
    } else {
        let p = last_max(s, n - 1);
        if s[n - 1] >= s[p] {
            n - 1
        } else {
            p
        }
    }
}

/// A colour as the numbers of an escape sequence.
pub open spec fn rgb_text(c: (u8, u8, u8)) -> Seq<char> {
    decimal(c.0 as int) + ";"@ + decimal(c.1 as int) + ";"@ + decimal(c.2 as int)
}

/// The escape sequence that sets the ink.
pub open spec fn ink_text(c: (u8, u8, u8)) -> Seq<char> {
    "\x1b[38;2;"@ + rgb_text(c) + "m"@
}

/// The escape sequence that sets the paper.
pub open spec fn paper_text(c: (u8, u8, u8)) -> Seq<char> {
    "\x1b[48;2;"@ + rgb_text(c) + "m"@
}

/// A mark in the upper half of a line: a lone body gets a dot, a crowd a block.
pub open spec fn upper(d: int) -> Seq<char> {
    if d == 0 {
        "˙"@
    } else if d == 1 {
        "▔"@
    } else {
        "▀"@
    }
}

pub open spec fn lower(d: int) -> Seq<char> {
    if d == 0 {
        "."@
    } else if d == 1 {
        "▁"@
    } else {
        "▄"@
    }
}

/// One character of the map: two sampled cells, one above the other, each with
/// its bodies and the colour of its ground.
#[verifier::opaque]
pub open spec fn glyph_text(top: Seq<u64>, bot: Seq<u64>, above: (u8, u8, u8), below: (u8, u8, u8)) -> Seq<
    char,
> {
    match (occupant(top), occupant(bot)) {
        (None, None) => "\x1b[0m"@ + paper_text(below) + ink_text(above) + "▀"@,
        (Some((e, d)), None) => "\x1b[0m"@ + paper_text(below) + ink_text(colour(e)) + upper(d),
        (None, Some((e, d))) => "\x1b[0m"@ + paper_text(above) + ink_text(colour(e)) + lower(d),
        (Some((a, _)), Some((b, _))) => paper_text(colour(b)) + ink_text(colour(a)) + "▀"@,
    }
}

/// The bodies in sampled cell `c`, by element.
pub open spec fn bodies_at(w: WorldV, mw: int, mh: int, c: int) -> Seq<u64> {
    Seq::new(
        5,
        |e: int|
            bodies_in(
                w.ents,
                mw,
                mh,
                sample_size(w.size),
                c,
                element_at(e),
                w.ents.len() as int,
            ) as u64,
    )
}

/// The ground in sampled cell `c`, by element.
pub open spec fn ground_at(w: WorldV, mw: int, mh: int, c: int) -> Seq<u64> {
    Seq::new(
        5,
        |e: int|
            ground_in(w.terrain, mw, mh, c, element_at(e), w.terrain.cells.len() as int) as u64,
    )
}

/// The side of the square that is sampled.
pub open spec fn sample_size(size: Fx) -> int {
    if size.floor() < 1 {
        1
    } else {
        size.floor()
    }
}

/// How wide a map of `h` lines is in `cols` columns.
pub open spec fn map_width(h: int, cols: int) -> int {
    if 2 * h < cols - 4 {
        2 * h
    } else {
        cols - 4
    }
}

/// The first `n` characters of line `r` of the map.
pub open spec fn line_text(w: WorldV, mw: int, mh: int, r: int, n: int) -> Seq<char>
    decreases n,
{
    if n <= 0 {
        Seq::empty()
    } else {
        let (top, bot) = (2 * r * mw + n - 1, (2 * r + 1) * mw + n - 1);
        line_text(w, mw, mh, r, n - 1) + glyph_text(
            bodies_at(w, mw, mh, top),
            bodies_at(w, mw, mh, bot),
            blend(ground_at(w, mw, mh, top)),
            blend(ground_at(w, mw, mh, bot)),
        )
    }
}

/// The first `n` lines of the map, between their borders.
pub open spec fn lines_text(w: WorldV, mw: int, mh: int, n: int) -> Seq<char>
    decreases n,
{
    if n <= 0 {
        Seq::empty()
    } else {
        lines_text(w, mw, mh, n - 1) + bordered(line_text(w, mw, mh, n - 1, mw))
    }
}

/// A line between its borders.
pub open spec fn bordered(inside: Seq<char>) -> Seq<char> {
    dim() + "│"@ + plain() + inside + plain() + dim() + "│"@ + plain() + clear_line() + "\n"@
}

/// `n` times the same text.
pub open spec fn repeated(t: Seq<char>, n: int) -> Seq<char>
    decreases n,
{
    if n <= 0 {
        Seq::empty()
    } else {
        repeated(t, n - 1) + t
    }
}

pub open spec fn dim() -> Seq<char> {
    "\x1b[38;2;110;118;134m"@
}

pub open spec fn bright() -> Seq<char> {
    "\x1b[38;2;232;234;239m"@
}

pub open spec fn invert() -> Seq<char> {
    "\x1b[7m"@
}

pub open spec fn plain() -> Seq<char> {
    "\x1b[0m"@
}

pub open spec fn clear_line() -> Seq<char> {
    "\x1b[K"@
}

/// The whole map: `h` lines in a frame.
#[verifier::opaque]
pub open spec fn map_text(w: WorldV, h: int, cols: int) -> Seq<char> {
    let mw = map_width(h, cols);
    dim() + "┌"@ + repeated("─"@, mw) + "┐"@ + plain() + clear_line() + "\n"@ + lines_text(
        w,
        mw,
        2 * h,
        h,
    ) + dim() + "└"@ + repeated("─"@, mw)
        + "┘  terrain dominant-element colour behind bodies"@ + plain() + clear_line() + "\n"@
}

pub fn push_repeated(s: &mut String, t: &str, n: usize)
    ensures
        final(s)@ == old(s)@ + repeated(t@, n as int),
{
    let ghost before = s@;
    let mut i: usize = 0;
    assert(s@ =~= before + repeated(t@, 0));
    while i < n
        invariant
            i <= n,
            s@ == before + repeated(t@, i as int),
        decreases n - i,
    {
        s.append(t);
        i = i + 1;
        assert(s@ =~= before + repeated(t@, i as int));
    }
}

fn push_rgb(s: &mut String, c: (u8, u8, u8))
    ensures
        final(s)@ == old(s)@ + rgb_text(c),
{
    let ghost before = s@;
    push_decimal(s, c.0 as u64);
    s.append(";");
    push_decimal(s, c.1 as u64);
    s.append(";");
    push_decimal(s, c.2 as u64);
    assert(s@ =~= before + rgb_text(c));
}

pub fn push_ink(s: &mut String, c: (u8, u8, u8))
    ensures
        final(s)@ == old(s)@ + ink_text(c),
{
    let ghost before = s@;
    s.append("\x1b[38;2;");
    push_rgb(s, c);
    s.append("m");
    assert(s@ =~= before + ink_text(c));
}

fn push_paper(s: &mut String, c: (u8, u8, u8))
    ensures
        final(s)@ == old(s)@ + paper_text(c),
{
    let ghost before = s@;
    s.append("\x1b[48;2;");
    push_rgb(s, c);
    s.append("m");
    assert(s@ =~= before + paper_text(c));
}

/// Who is in a sampled cell.
fn dominant(s: &PerElement<u64>) -> (r: Option<(Element, u64)>)
    requires
        s@[0] + s@[1] + s@[2] + s@[3] + s@[4] <= u64::MAX,
    ensures
        match r {
            Some((e, d)) => occupant(s@) == Some((e, d as int)),
            None => occupant(s@) is None,
        },
{
    let total: u64 = s.0[0] + s.0[1] + s.0[2] + s.0[3] + s.0[4];
    if total == 0 {
        return None;
    }
    let mut best: usize = 0;
    let mut i: usize = 1;
    while i < 5
        invariant
            1 <= i <= 5,
            best < i,
            best == last_max(s@, i as int),
        decreases 5 - i,
    {
        if s.0[i] >= s.0[best] {
            best = i;
        }
        i = i + 1;
    }
    let d: u64 = if total - 1 > 4 {
        4
    } else {
        total - 1
    };
    Some((Element::from_index(best), d))
}

fn push_upper(s: &mut String, d: u64)
    ensures
        final(s)@ == old(s)@ + upper(d as int),
{
    s.append(
        if d == 0 {
            "˙"
        } else if d == 1 {
            "▔"
        } else {
            "▀"
        },
    );
}

fn push_lower(s: &mut String, d: u64)
    ensures
        final(s)@ == old(s)@ + lower(d as int),
{
    s.append(
        if d == 0 {
            "."
        } else if d == 1 {
            "▁"
        } else {
            "▄"
        },
    );
}

#[verifier::rlimit(30)]
fn push_glyph(
    s: &mut String,
    top: &PerElement<u64>,
    bot: &PerElement<u64>,
    above: (u8, u8, u8),
    below: (u8, u8, u8),
)
    requires
        top@[0] + top@[1] + top@[2] + top@[3] + top@[4] <= u64::MAX,
        bot@[0] + bot@[1] + bot@[2] + bot@[3] + bot@[4] <= u64::MAX,
    ensures
        final(s)@ == old(s)@ + glyph_text(top@, bot@, above, below),
{
    reveal(glyph_text);
    let ghost before = s@;
    match (dominant(top), dominant(bot)) {
        (None, None) => {
            s.append("\x1b[0m");
            push_paper(s, below);
            push_ink(s, above);
            s.append("▀");
        },
        (Some((e, d)), None) => {
            s.append("\x1b[0m");
            push_paper(s, below);
            push_ink(s, rgb(e));
            push_upper(s, d);
        },
        (None, Some((e, d))) => {
            s.append("\x1b[0m");
            push_paper(s, above);
            push_ink(s, rgb(e));
            push_lower(s, d);
        },
        (Some((a, _)), Some((b, _))) => {
            push_paper(s, rgb(b));
            push_ink(s, rgb(a));
            s.append("▀");
        },
    }
    assert(s@ =~= before + glyph_text(top@, bot@, above, below));
}

proof fn lemma_shrunk(x: int, n: int, size: int)
    requires
        1 <= n,
        1 <= size,
    ensures
        0 <= shrunk(x, n, size) < n,
{
    let p = if x < 0 {
        0
    } else {
        x
    };
    assert(0 <= p * n / size) by (nonlinear_arith)
        requires
            0 <= p,
            1 <= n,
            1 <= size,
    ;
}

/// A sampled coordinate.
fn shrink(x: i32, n: usize, size: usize) -> (r: usize)
    requires
        1 <= n <= 10_000,
        1 <= size,
    ensures
        r == shrunk(x as int, n as int, size as int),
        r < n,
{
    proof {
        lemma_shrunk(x as int, n as int, size as int);
    }
    let x: u64 = if x < 0 {
        0
    } else {
        x as u64
    };
    assert(x * n <= 2_147_483_647 * 10_000) by (nonlinear_arith)
        requires
            0 <= x <= 2_147_483_647,
            0 <= n <= 10_000,
    ;
    let p: u64 = x * n as u64 / size as u64;
    if p > n as u64 - 1 {
        n - 1
    } else {
        p as usize
    }
}

/// Nothing in any of `n` sampled cells.
fn nothing(n: usize) -> (v: Vec<PerElement<u64>>)
    ensures
        v@.len() == n,
        forall|c: int| 0 <= c < n ==> (#[trigger] v@[c])@ == Seq::new(5, |e: int| 0u64),
{
    let mut v: Vec<PerElement<u64>> = Vec::new();
    let mut i: usize = 0;
    while i < n
        invariant
            i <= n,
            v@.len() == i,
            forall|c: int| 0 <= c < i ==> (#[trigger] v@[c])@ == Seq::new(5, |e: int| 0u64),
        decreases n - i,
    {
        v.push(PerElement::filled(0u64));
        i = i + 1;
    }
    v
}

/// The bodies of all sampled cells.
fn count_bodies(w: &World, mw: usize, mh: usize) -> (v: Vec<PerElement<u64>>)
    requires
        1 <= mw <= 4000,
        1 <= mh <= 4000,
        w.entities@.len() <= u32::MAX,
    ensures
        v@.len() == mw * mh,
        forall|c: int|
            0 <= c < v@.len() ==> (#[trigger] v@[c])@ == bodies_at(w@, mw as int, mh as int, c),
        forall|c: int, e: int|
            0 <= c < v@.len() && 0 <= e < 5 ==> #[trigger] v@[c]@[e] <= u32::MAX,
{
    let ghost ents = w@.ents;
    let ghost side = sample_size(w@.size);
    assert(mw * mh <= 16_000_000) by (nonlinear_arith)
        requires
            0 <= mw <= 4000,
            0 <= mh <= 4000,
    ;
    let cells: usize = mw * mh;
    let f: i32 = w.size.floor_int();
    let size: usize = if f < 1 {
        1
    } else {
        f as usize
    };
    let mut v: Vec<PerElement<u64>> = nothing(cells);
    let mut i: usize = 0;
    while i < w.entities.len()
        invariant
            ents == w@.ents,
            ents.len() <= u32::MAX,
            i <= ents.len(),
            1 <= mw <= 4000,
            1 <= mh <= 4000,
            cells == mw * mh,
            1 <= size,
            size == side,
            v@.len() == cells,
            forall|c: int, e: int|
                0 <= c < cells && 0 <= e < 5 ==> #[trigger] v@[c]@[e] == bodies_in(
                    ents,
                    mw as int,
                    mh as int,
                    side,
                    c,
                    element_at(e),
                    i as int,
                ) && v@[c]@[e] <= i,
        decreases w.entities.len() - i,
    {
        let ghost was = v@;
        assert(ents[i as int] == w.entities@[i as int]@);
        if w.entities[i].alive {
            let x: usize = shrink(w.entities[i].pos.x.floor_int(), mw, size);
            let y: usize = shrink(w.entities[i].pos.y.floor_int(), mh, size);
            assert(y * mw + x < mw * mh && 0 <= y * mw) by (nonlinear_arith)
                requires
                    0 <= x < mw,
                    0 <= y < mh,
            ;
            let at: usize = y * mw + x;
            let e: Element = w.entities[i].element;
            assert(was[at as int]@[e.at()] <= i);
            let mut row: PerElement<u64> = v[at];
            let n: u64 = *row.get(e);
            row.set(e, n + 1);
            v[at] = row;
        }
        proof {
            assert forall|c: int, e: int| 0 <= c < cells && 0 <= e < 5 implies #[trigger] v@[c]@[e]
                == bodies_in(
                ents,
                mw as int,
                mh as int,
                side,
                c,
                element_at(e),
                i + 1,
            ) && v@[c]@[e] <= i + 1 by {
                assert(was[c]@[e] == bodies_in(
                    ents,
                    mw as int,
                    mh as int,
                    side,
                    c,
                    element_at(e),
                    i as int,
                ));
                crate::element::law_ring_positions(ents[i as int].element, e);
            }
        }
        i = i + 1;
    }
    proof {
        assert forall|c: int| 0 <= c < v@.len() implies (#[trigger] v@[c])@ == bodies_at(
            w@,
            mw as int,
            mh as int,
            c,
        ) by {
            assert(v@[c]@ =~= bodies_at(w@, mw as int, mh as int, c));
        }
    }
    v
}

/// The ground of all sampled cells.
fn count_ground(w: &World, mw: usize, mh: usize) -> (v: Vec<PerElement<u64>>)
    requires
        1 <= mw <= 4000,
        1 <= mh <= 4000,
        w@.terrain.wf(),
    ensures
        v@.len() == mw * mh,
        forall|c: int|
            0 <= c < v@.len() ==> (#[trigger] v@[c])@ == ground_at(w@, mw as int, mh as int, c),
{
    let ghost t = w@.terrain;
    assert(mw * mh <= 16_000_000) by (nonlinear_arith)
        requires
            0 <= mw <= 4000,
            0 <= mh <= 4000,
    ;
    proof {
        crate::diffusion::lemma_grid(t.side);
    }
    let cells: usize = mw * mh;
    let side: usize = w.terrain.side as usize;
    let mut v: Vec<PerElement<u64>> = nothing(cells);
    let mut i: usize = 0;
    while i < w.terrain.cells.len()
        invariant
            t == w@.terrain,
            t.wf(),
            t.cells.len() <= u32::MAX,
            i <= t.cells.len(),
            1 <= mw <= 4000,
            1 <= mh <= 4000,
            cells == mw * mh,
            1 <= side <= 65535,
            side == t.side,
            v@.len() == cells,
            forall|c: int, e: int|
                0 <= c < cells && 0 <= e < 5 ==> #[trigger] v@[c]@[e] == ground_in(
                    t,
                    mw as int,
                    mh as int,
                    c,
                    element_at(e),
                    i as int,
                ) && v@[c]@[e] <= i * 65535,
        decreases w.terrain.cells.len() - i,
    {
        let ghost was = v@;
        proof {
            crate::diffusion::lemma_cell_split(t.side, i as int);
        }
        let x: usize = shrink((i % side) as i32, mw, side);
        let y: usize = shrink((i / side) as i32, mh, side);
        assert(y * mw + x < mw * mh && 0 <= y * mw) by (nonlinear_arith)
            requires
                0 <= x < mw,
                0 <= y < mh,
        ;
        let at: usize = y * mw + x;
        let mut sum: PerElement<u64> = v[at];
        let cell: PerElement<u16> = w.terrain.cells[i];
        let ghost start = sum@;
        let mut k: usize = 0;
        while k < 5
            invariant
                k <= 5,
                i <= u32::MAX,
                start.len() == 5,
                forall|e: int| 0 <= e < 5 ==> #[trigger] start[e] <= i * 65535,
                forall|e: int|
                    0 <= e < 5 ==> #[trigger] sum@[e] == (if e < k {
                        start[e] + cell@[e]
                    } else {
                        start[e] as int
                    }),
            decreases 5 - k,
        {
            let ghost before = sum@;
            assert(before[k as int] == start[k as int]);
            let n: u64 = sum.0[k] + cell.0[k] as u64;
            sum.set(Element::from_index(k), n);
            assert(sum@ =~= before.update(k as int, n));
            k = k + 1;
        }
        v[at] = sum;
        proof {
            assert forall|c: int, e: int| 0 <= c < cells && 0 <= e < 5 implies #[trigger] v@[c]@[e]
                == ground_in(t, mw as int, mh as int, c, element_at(e), i + 1) && v@[c]@[e] <= (i
                + 1) * 65535 by {
                assert(was[c]@[e] == ground_in(
                    t,
                    mw as int,
                    mh as int,
                    c,
                    element_at(e),
                    i as int,
                ));
                crate::element::law_ring_positions(element_at(e), e);
                if c == at {
                    assert(sum@[e] == start[e] + cell@[e]);
                }
            }
        }
        i = i + 1;
    }
    proof {
        assert forall|c: int| 0 <= c < v@.len() implies (#[trigger] v@[c])@ == ground_at(
            w@,
            mw as int,
            mh as int,
            c,
        ) by {
            assert(v@[c]@ =~= ground_at(w@, mw as int, mh as int, c));
        }
    }
    v
}

/// One line of the map.
#[verifier::rlimit(30)]
fn push_line(
    s: &mut String,
    bodies: &Vec<PerElement<u64>>,
    ground: &Vec<PerElement<u64>>,
    mw: usize,
    mh: usize,
    r: usize,
    w: Ghost<WorldV>,
)
    requires
        1 <= mw <= 4000,
        1 <= mh <= 4000,
        2 * r + 1 < mh,
        bodies@.len() == mw * mh,
        ground@.len() == mw * mh,
        forall|c: int|
            0 <= c < bodies@.len() ==> (#[trigger] bodies@[c])@ == bodies_at(
                w@,
                mw as int,
                mh as int,
                c,
            ),
        forall|c: int, e: int|
            0 <= c < bodies@.len() && 0 <= e < 5 ==> #[trigger] bodies@[c]@[e] <= u32::MAX,
        forall|c: int|
            0 <= c < ground@.len() ==> (#[trigger] ground@[c])@ == ground_at(
                w@,
                mw as int,
                mh as int,
                c,
            ),
    ensures
        final(s)@ == old(s)@ + bordered(line_text(w@, mw as int, mh as int, r as int, mw as int)),
{
    let ghost start = s@;
    s.append("\x1b[38;2;110;118;134m");
    s.append("│");
    s.append("\x1b[0m");
    let ghost before = s@;
    let mut c: usize = 0;
    assert(s@ =~= before + line_text(w@, mw as int, mh as int, r as int, 0));
    while c < mw
        invariant
            c <= mw <= 4000,
            1 <= mh <= 4000,
            2 * r + 1 < mh,
            bodies@.len() == mw * mh,
            ground@.len() == mw * mh,
            forall|c: int|
                0 <= c < bodies@.len() ==> (#[trigger] bodies@[c])@ == bodies_at(
                    w@,
                    mw as int,
                    mh as int,
                    c,
                ),
            forall|c: int, e: int|
                0 <= c < bodies@.len() && 0 <= e < 5 ==> #[trigger] bodies@[c]@[e] <= u32::MAX,
            forall|c: int|
                0 <= c < ground@.len() ==> (#[trigger] ground@[c])@ == ground_at(
                    w@,
                    mw as int,
                    mh as int,
                    c,
                ),
            s@ == before + line_text(w@, mw as int, mh as int, r as int, c as int),
        decreases mw - c,
    {
        proof {
            let a = 2 * r;
            assert(0 <= a * mw && (a + 1) * mw == a * mw + mw && (a + 1) * mw + mw <= mw * mh)
                by (nonlinear_arith)
                requires
                    0 <= a,
                    a + 2 <= mh,
                    0 <= mw,
            ;
            assert(mw * mh <= 16_000_000) by (nonlinear_arith)
                requires
                    0 <= mw <= 4000,
                    0 <= mh <= 4000,
            ;
        }
        let top: usize = 2 * r * mw + c;
        let bot: usize = (2 * r + 1) * mw + c;
        let above: (u8, u8, u8) = blend_rgb(&ground[top]);
        let below: (u8, u8, u8) = blend_rgb(&ground[bot]);
        proof {
            assert forall|e: int| 0 <= e < 5 implies #[trigger] bodies@[top as int]@[e] <= u32::MAX
                && bodies@[bot as int]@[e] <= u32::MAX by {}
        }
        push_glyph(s, &bodies[top], &bodies[bot], above, below);
        c = c + 1;
        assert(s@ =~= before + line_text(w@, mw as int, mh as int, r as int, c as int));
    }
    s.append("\x1b[0m");
    s.append("\x1b[38;2;110;118;134m");
    s.append("│");
    s.append("\x1b[0m");
    s.append("\x1b[K");
    s.append("\n");
    assert(s@ =~= start + bordered(line_text(w@, mw as int, mh as int, r as int, mw as int)));
}

/// The world at two sampled rows per line.
pub fn world_map(w: &World, h: usize, cols: usize) -> (r: String)
    requires
        1 <= h <= 2000,
        5 <= cols,
        w@.terrain.wf(),
        w.entities@.len() <= u32::MAX,
    ensures
        r@ == map_text(w@, h as int, cols as int),
{
    reveal(map_text);
    let mh: usize = h * 2;
    let mw: usize = if mh < cols - 4 {
        mh
    } else {
        cols - 4
    };
    let bodies: Vec<PerElement<u64>> = count_bodies(w, mw, mh);
    let ground: Vec<PerElement<u64>> = count_ground(w, mw, mh);
    let mut s: String = String::new();
    s.append("\x1b[38;2;110;118;134m");
    s.append("┌");
    push_repeated(&mut s, "─", mw);
    s.append("┐");
    s.append("\x1b[0m");
    s.append("\x1b[K");
    s.append("\n");
    let ghost start = s@;
    let mut r: usize = 0;
    assert(s@ =~= start + lines_text(w@, mw as int, mh as int, 0));
    while r < h
        invariant
            r <= h <= 2000,
            mh == 2 * h,
            1 <= mw <= 4000,
            bodies@.len() == mw * mh,
            ground@.len() == mw * mh,
            forall|c: int|
                0 <= c < bodies@.len() ==> (#[trigger] bodies@[c])@ == bodies_at(
                    w@,
                    mw as int,
                    mh as int,
                    c,
                ),
            forall|c: int, e: int|
                0 <= c < bodies@.len() && 0 <= e < 5 ==> #[trigger] bodies@[c]@[e] <= u32::MAX,
            forall|c: int|
                0 <= c < ground@.len() ==> (#[trigger] ground@[c])@ == ground_at(
                    w@,
                    mw as int,
                    mh as int,
                    c,
                ),
            s@ == start + lines_text(w@, mw as int, mh as int, r as int),
        decreases h - r,
    {
        push_line(&mut s, &bodies, &ground, mw, mh, r, Ghost(w@));
        r = r + 1;
        assert(s@ =~= start + lines_text(w@, mw as int, mh as int, r as int));
    }
    s.append("\x1b[38;2;110;118;134m");
    s.append("└");
    push_repeated(&mut s, "─", mw);
    s.append("┘  terrain dominant-element colour behind bodies");
    s.append("\x1b[0m");
    s.append("\x1b[K");
    s.append("\n");
    assert(s@ =~= map_text(w@, h as int, cols as int));
    s
}

// ----------------------------------------------------------------------
// For a window.
// ----------------------------------------------------------------------

/// Which bodies and which layers of the ground are shown. Nothing in the world
/// depends on it.
#[derive(Clone, Copy, Debug)]
pub struct Visibility {
    pub animals_on: bool,
    pub plants_on: bool,
    pub terrain_on: bool,
    pub animal_el: PerElement<bool>,
    pub plant_el: PerElement<bool>,
    pub terrain_el: PerElement<bool>,
}

impl Default for Visibility {
    fn default() -> (v: Visibility)
        ensures
            v.animals_on && v.plants_on && v.terrain_on,
            v.animal_el@ == Seq::new(5, |i: int| true),
            v.plant_el@ == Seq::new(5, |i: int| true),
            v.terrain_el@ == Seq::new(5, |i: int| true),
    {
        Visibility {
            animals_on: true,
            plants_on: true,
            terrain_on: true,
            animal_el: PerElement::filled(true),
            plant_el: PerElement::filled(true),
            terrain_el: PerElement::filled(true),
        }
    }
}

impl Visibility {
    /// A body is shown if both its kind and its element are.
    pub open spec fn shows(self, e: EntityV) -> bool {
        match e.kind {
            Kind::Animal => self.animals_on && self.animal_el@[e.element.at()],
            Kind::Plant => self.plants_on && self.plant_el@[e.element.at()],
        }
    }

    pub fn body(&self, e: &Entity) -> (r: bool)
        ensures
            r == self.shows(e@),
    {
        match e.kind {
            Kind::Animal => self.animals_on && *self.animal_el.get(e.element),
            Kind::Plant => self.plants_on && *self.plant_el.get(e.element),
        }
    }

    /// What is shown of a cell's stocks.
    pub open spec fn seen(self, cell: Seq<u16>) -> Seq<u64> {
        Seq::new(
            5,
            |e: int|
                if self.terrain_on && self.terrain_el@[e] {
                    cell[e] as u64
                } else {
                    0
                },
        )
    }

    /// One pixel per cell of the ground, row by row.
    pub fn image(&self, t: &Terrain) -> (v: Vec<(u8, u8, u8)>)
        ensures
            v@.len() == t.cells@.len(),
            forall|c: int|
                0 <= c < v@.len() ==> #[trigger] v@[c] == blend(self.seen(t.cells@[c]@)),
    {
        let mut v: Vec<(u8, u8, u8)> = Vec::new();
        let mut i: usize = 0;
        while i < t.cells.len()
            invariant
                i <= t.cells@.len(),
                v@.len() == i,
                forall|c: int|
                    0 <= c < i ==> #[trigger] v@[c] == blend(self.seen(t.cells@[c]@)),
            decreases t.cells.len() - i,
        {
            let cell: PerElement<u16> = t.cells[i];
            let mut sat: PerElement<u64> = PerElement::filled(0u64);
            let mut k: usize = 0;
            while k < 5
                invariant
                    k <= 5,
                    forall|e: int|
                        0 <= e < 5 ==> #[trigger] sat@[e] == (if e < k && self.terrain_on
                            && self.terrain_el@[e] {
                            cell@[e] as u64
                        } else {
                            0
                        }),
                decreases 5 - k,
            {
                let ghost before = sat@;
                if self.terrain_on && self.terrain_el.0[k] {
                    sat.set(Element::from_index(k), cell.0[k] as u64);
                    assert(sat@ =~= before.update(k as int, cell@[k as int] as u64));
                }
                k = k + 1;
            }
            assert(sat@ =~= self.seen(cell@));
            v.push(blend_rgb(&sat));
            i = i + 1;
        }
        v
    }
}

} // verus!
