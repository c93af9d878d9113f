//! How the panels of the console are measured out.
use crate::atlas::repeated;
use crate::frame::{
    bar, bars, clock_text, column_width, gauge_at, gauge_cell, gauge_cells, left, map_height, peak,
    peak_of, right, spark_text,
};
use crate::fx::max_int;
use crate::race::RateBand;
use crate::text::{decimal, digits};
use vstd::prelude::*;
use vstd::string::*;

verus! {

proof fn lemma_blanks(n: int)
    ensures
        repeated(" "@, n).len() == max_int(n, 0),
        forall|i: int| 0 <= i < n ==> #[trigger] repeated(" "@, n)[i] == ' ',
    decreases n,
{
    reveal_strlit(" ");
    if n > 0 {
        lemma_blanks(n - 1);
        let p = repeated(" "@, n - 1);
        assert forall|i: int| 0 <= i < n implies #[trigger] repeated(" "@, n)[i] == ' ' by {
            if i < n - 1 {
                assert(repeated(" "@, n)[i] == p[i]);
            }
        }
    }
}

/// Text in a column keeps all its characters at its side, and blanks fill the
/// column up; text that is too long is not cut.
pub proof fn law_columns_are_filled_with_blanks(t: Seq<char>, w: int)
    ensures
        left(t, w).len() == max_int(t.len() as int, w),
        left(t, w).take(t.len() as int) == t,
        forall|i: int| t.len() <= i < w ==> #[trigger] left(t, w)[i] == ' ',
        right(t, w).len() == max_int(t.len() as int, w),
        right(t, w).skip(right(t, w).len() - t.len()) == t,
        forall|i: int| 0 <= i < w - t.len() ==> #[trigger] right(t, w)[i] == ' ',
{
    let n = w - t.len();
    lemma_blanks(n);
    let b = repeated(" "@, n);
    assert(left(t, w).take(t.len() as int) =~= t);
    assert(right(t, w).skip(right(t, w).len() - t.len()) =~= t);
    assert forall|i: int| t.len() <= i < w implies #[trigger] left(t, w)[i] == ' ' by {
        assert(left(t, w)[i] == b[i - t.len()]);
    }
    assert forall|i: int| 0 <= i < n implies #[trigger] right(t, w)[i] == ' ' by {
        assert(right(t, w)[i] == b[i]);
    }
}

/// How high a bar is, of eight heights from none up.
pub open spec fn height(c: char) -> int {
    c as int - '▁' as int
}

proof fn lemma_bar(v: u32, max: u32)
    ensures
        bar(v, max).len() == 1,
        ({
            let m = max_int(max as int, 1);
            let k = height(bar(v, max)[0]);
            &&& 0 <= k <= 7
            &&& k < 7 ==> k * m <= 7 * v < (k + 1) * m
            &&& k == 7 ==> 7 * v >= 7 * m
        }),
{
    reveal_strlit("▁");
    reveal_strlit("▂");
    reveal_strlit("▃");
    reveal_strlit("▄");
    reveal_strlit("▅");
    reveal_strlit("▆");
    reveal_strlit("▇");
    reveal_strlit("█");
    let m = max_int(max as int, 1);
    let x = v * 7;
    vstd::arithmetic::div_mod::lemma_fundamental_div_mod(x, m);
    vstd::arithmetic::div_mod::lemma_mod_bound(x, m);
    vstd::arithmetic::div_mod::lemma_div_pos_is_pos(x, m);
    let q = x / m;
    assert(m * q == q * m && (q + 1) * m == q * m + m) by (nonlinear_arith);
    if q >= 7 {
        assert(q * m >= 7 * m) by (nonlinear_arith)
            requires
                q >= 7,
                m >= 1,
        ;
    }
}

/// A bar is as high as its sample is against the largest: the lowest for none, the
/// highest for the largest itself, in proportion between; and no larger sample has
/// a lower bar.
pub proof fn law_bars_are_in_proportion(v: u32, u: u32, max: u32)
    ensures
        bar(v, max).len() == 1,
        bar(0, max)[0] == '▁',
        max > 0 ==> bar(max, max)[0] == '█',
        ({
            let k = height(bar(v, max)[0]);
            0 <= k < 7 && max > 0 ==> k * max <= 7 * v < (k + 1) * max
        }),
        v <= u ==> height(bar(v, max)[0]) <= height(bar(u, max)[0]),
{
    lemma_bar(v, max);
    lemma_bar(u, max);
    lemma_bar(0, max);
    lemma_bar(max, max);
    let m = max_int(max as int, 1);
    let (j, k) = (height(bar(v, max)[0]), height(bar(u, max)[0]));
    if v <= u && j > k {
        assert((k + 1) * m <= j * m) by (nonlinear_arith)
            requires
                k + 1 <= j,
                m >= 1,
        ;
    }
    let z = height(bar(0, max)[0]);
    if z > 0 {
        assert(z * m >= m) by (nonlinear_arith)
            requires
                z >= 1,
                m >= 1,
        ;
    }
    let y = height(bar(max, max)[0]);
    if max > 0 && y < 7 {
        assert((y + 1) * m <= 7 * m) by (nonlinear_arith)
            requires
                y + 1 <= 7,
                m >= 1,
        ;
    }
}

/// A line of bars is as long as its column, has the newest sample at its right end
/// and those before it one by one to the left, and is blank where there are none.
pub proof fn law_a_line_of_bars_ends_with_the_newest(h: Seq<u32>, max: u32, w: int, i: int)
    requires
        0 <= i < w,
    ensures
        spark_text(h, max, w).len() == w,
        i < h.len() ==> spark_text(h, max, w)[w - 1 - i] == bar(h[h.len() - 1 - i], max)[0],
        i >= h.len() ==> spark_text(h, max, w)[w - 1 - i] == ' ',
{
    reveal(spark_text);
    let t = spark_text(h, max, w);
    if h.len() > w {
        let s = h.skip(h.len() - w);
        lemma_bars(s, max, w, w - 1 - i);
        assert(s[w - 1 - i] == h[h.len() - 1 - i]);
    } else {
        let n = h.len() as int;
        lemma_blanks(w - n);
        let b = repeated(" "@, w - n);
        if n > 0 {
            lemma_bars(h, max, n, if i < n { n - 1 - i } else { 0 });
        }
        if i < n {
            assert(t[w - 1 - i] == bars(h, max, n)[n - 1 - i]);
        } else {
            assert(t[w - 1 - i] == b[w - 1 - i]);
        }
    }
}

proof fn lemma_bars(h: Seq<u32>, max: u32, n: int, i: int)
    requires
        0 <= i < n <= h.len(),
    ensures
        bars(h, max, n).len() == n,
        bars(h, max, n)[i] == bar(h[i], max)[0],
    decreases n,
{
    lemma_bar(h[n - 1], max);
    if n > 1 {
        lemma_bars(h, max, n - 1, if i < n - 1 { i } else { 0 });
    } else {
        assert(bars(h, max, 0).len() == 0);
    }
}

/// The scale of the bars is the largest sample of all, or one.
pub proof fn law_the_scale_is_the_largest_sample(h: Seq<Seq<u32>>, r: int, i: int)
    requires
        0 <= r < h.len(),
        0 <= i < h[r].len(),
    ensures
        h[r][i] <= peak(h, h.len() as int),
        peak(h, h.len() as int) == 1 || exists|a: int, b: int|
            0 <= a < h.len() && 0 <= b < h[a].len() && #[trigger] h[a][b] == peak(
                h,
                h.len() as int,
            ),
{
    lemma_peak(h, h.len() as int, r, i);
}

proof fn lemma_peak(h: Seq<Seq<u32>>, n: int, r: int, i: int)
    requires
        0 <= n <= h.len(),
    ensures
        0 <= r < n && 0 <= i < h[r].len() ==> h[r][i] <= peak(h, n),
        peak(h, n) == 1 || exists|a: int, b: int|
            0 <= a < n && 0 <= b < h[a].len() && #[trigger] h[a][b] == peak(h, n),
    decreases n,
{
    if n > 0 {
        lemma_peak(h, n - 1, r, i);
        let m = peak(h, n - 1);
        let s = h[n - 1];
        lemma_peak_of(s, m, s.len() as int, i);
        let p = peak_of(s, m, s.len() as int);
        if p == m {
            if p != 1 {
                let (a, b) = choose|a: int, b: int|
                    0 <= a < n - 1 && 0 <= b < h[a].len() && #[trigger] h[a][b] == m;
                assert(h[a][b] == peak(h, n));
            }
        } else {
            let b = choose|b: int| 0 <= b < s.len() && #[trigger] s[b] == p;
            assert(h[n - 1][b] == peak(h, n));
        }
    }
}

proof fn lemma_peak_of(s: Seq<u32>, m: u32, n: int, i: int)
    requires
        0 <= n <= s.len(),
    ensures
        m <= peak_of(s, m, n),
        0 <= i < n ==> s[i] <= peak_of(s, m, n),
        peak_of(s, m, n) == m || exists|b: int|
            0 <= b < n && #[trigger] s[b] == peak_of(s, m, n),
    decreases n,
{
    if n > 0 {
        lemma_peak_of(s, m, n - 1, i);
        if s[n - 1] > peak_of(s, m, n - 1) {
            assert(s[n - 1] == peak_of(s, m, n));
        }
    }
}

/// A gauge is drawn to scale: where a rate falls on it is its share of the ceiling,
/// rounded down; and of its cells the marks stand where the nominal rate and the
/// floor fall, and else those below what was granted are full.
pub proof fn law_a_gauge_is_to_scale(x: int, b: RateBand, w: int, i: int, fill: int)
    requires
        0 <= x,
        0 <= w,
        b.ceiling > 0,
        0 <= i < w,
    ensures
        gauge_at(x, b, w) * b.ceiling <= x * w < (gauge_at(x, b, w) + 1) * b.ceiling,
        gauge_at(b.ceiling as int, b, w) == w,
        ({
            let (floor, nominal) = (gauge_at(b.floor as int, b, w), gauge_at(b.nominal as int, b, w));
            let cells = gauge_cells(0, w, fill, floor, nominal);
            &&& cells.len() == w
            &&& i == nominal ==> cells[i] == '┊'
            &&& i == floor && floor != nominal ==> cells[i] == '╵'
            &&& i != floor && i != nominal ==> cells[i] == (if i < fill {
                '▓'
            } else {
                '░'
            })
        }),
{
    let m = b.ceiling as int;
    let p = x * w;
    vstd::arithmetic::div_mod::lemma_fundamental_div_mod(p, m);
    vstd::arithmetic::div_mod::lemma_mod_bound(p, m);
    let q = p / m;
    assert(m * q == q * m && (q + 1) * m == q * m + m) by (nonlinear_arith);
    vstd::arithmetic::div_mod::lemma_div_multiples_vanish(w, m);
    assert(m * w == w * m) by (nonlinear_arith);
    let (floor, nominal) = (gauge_at(b.floor as int, b, w), gauge_at(b.nominal as int, b, w));
    lemma_gauge_cells(w, fill, floor, nominal, i);
    lemma_gauge_cell(i, fill, floor, nominal);
}

proof fn lemma_gauge_cell(i: int, fill: int, floor: int, nominal: int)
    ensures
        gauge_cell(i, fill, floor, nominal) == seq![
            if i == nominal {
                '┊'
            } else if i == floor {
                '╵'
            } else if i < fill {
                '▓'
            } else {
                '░'
            },
        ],
{
    reveal_strlit("┊");
    reveal_strlit("╵");
    reveal_strlit("▓");
    reveal_strlit("░");
    assert("┊"@ =~= seq!['┊']);
    assert("╵"@ =~= seq!['╵']);
    assert("▓"@ =~= seq!['▓']);
    assert("░"@ =~= seq!['░']);
}

proof fn lemma_gauge_cells(n: int, fill: int, floor: int, nominal: int, i: int)
    requires
        0 <= n,
    ensures
        gauge_cells(0, n, fill, floor, nominal).len() == n,
        0 <= i < n ==> gauge_cells(0, n, fill, floor, nominal)[i] == gauge_cell(
            i,
            fill,
            floor,
            nominal,
        )[0],
    decreases n,
{
    if n > 0 {
        lemma_gauge_cells(n - 1, fill, floor, nominal, i);
        lemma_gauge_cell(n - 1, fill, floor, nominal);
    }
}

/// The map has between four and twenty-four lines or none; it leaves the rest of the
/// frame its lines; and it takes all that are left, up to its most.
pub proof fn law_the_map_leaves_the_rest_its_lines(rows: int, knob_rows: int)
    ensures
        map_height(false, rows, knob_rows) == 0,
        ({
            let h = map_height(true, rows, knob_rows);
            &&& h == 0 || 4 <= h <= 24
            &&& h > 0 ==> h + 3 + 11 + knob_rows <= rows
            &&& h == 0 ==> 4 + 3 + 11 + knob_rows > rows
            &&& 0 < h < 24 ==> h + 3 + 11 + knob_rows == rows
        }),
{
}

/// The columns of the table are of eight to fourteen characters, and where the
/// screen has sixty the five of them fit beside the names.
pub proof fn law_the_columns_fit(cols: int)
    ensures
        8 <= column_width(cols) <= 14,
        cols >= 60 ==> 20 + 5 * column_width(cols) <= cols,
        60 <= cols && column_width(cols) < 14 ==> cols < 20 + 5 * (column_width(cols) + 1),
{
}

/// The clock shows days, hours and minutes that come to the tick, rounded down; a
/// hundred ticks make a minute.
pub proof fn law_the_clock_shows_the_tick(tick: int)
    requires
        0 <= tick,
    ensures
        exists|d: int, h: int, m: int|
            0 <= h < 24 && 0 <= m < 60 && 144_000 * d + 6_000 * h + 100 * m <= tick < 144_000 * d
                + 6_000 * h + 100 * (m + 1) && clock_text(tick) == #[trigger] decimal(d) + "d "@
                + #[trigger] digits(h, 2) + "h "@ + #[trigger] digits(m, 2) + "m sim"@,
{
    let min = tick / 100;
    let (d, h, m) = (min / 1440, (min / 60) % 24, min % 60);
    assert(144_000 * d + 6_000 * h + 100 * m <= tick < 144_000 * d + 6_000 * h + 100 * (m + 1));
    assert(clock_text(tick) == decimal(d) + "d "@ + digits(h, 2) + "h "@ + digits(m, 2) + "m sim"@);
}

} // verus!
