//! What written numbers say.
use crate::fx::Fx;
use crate::table::{abbrev_text, duration_text, groups, hundredths};
use crate::text::{decimal, decimal_ascii, digit, digits, fx_text, hex, signed_decimal};
use vstd::arithmetic::power::pow;
use vstd::prelude::*;
use vstd::string::*;

verus! {

/// What a character counts for as a digit, to base sixteen at most.
pub open spec fn counts_for(c: char) -> int {
    if '0' <= c && c <= '9' {
        c as int - '0' as int
    } else {
        c as int - 'a' as int + 10
    }
}

/// What digits to a base come to, the highest first.
pub open spec fn worth(s: Seq<char>, base: int) -> int
    decreases s.len(),
{
    if s.len() == 0 {
        0
    } else {
        worth(s.drop_last(), base) * base + counts_for(s.last())
    }
}

/// The characters are decimal digits.
pub open spec fn is_decimal(s: Seq<char>) -> bool {
    forall|i: int| 0 <= i < s.len() ==> '0' <= #[trigger] s[i] && s[i] <= '9'
}

/// A number is written with decimal digits that come to it, and none too many.
pub proof fn law_decimals_come_to_the_number(n: int)
    requires
        0 <= n,
    ensures
        is_decimal(decimal(n)),
        worth(decimal(n), 10) == n,
        decimal(n).len() >= 1,
        n > 0 ==> decimal(n)[0] != '0',
        decimal_ascii(n) == decimal(n).map_values(|c: char| c as u8),
    decreases n,
{
    let t = decimal(n);
    if n >= 10 {
        law_decimals_come_to_the_number(n / 10);
        assert(t.drop_last() =~= decimal(n / 10));
        assert(t[0] == decimal(n / 10)[0]);
    } else {
        assert(t.drop_last().len() == 0);
        assert(worth(t.drop_last(), 10) == 0);
    }
    assert(decimal_ascii(n) =~= t.map_values(|c: char| c as u8));
}

/// A negative number is written as its size behind a minus sign.
pub proof fn law_a_minus_sign_says_negative(n: int)
    requires
        n != 0,
    ensures
        n < 0 <==> signed_decimal(n)[0] == '-',
        n < 0 ==> worth(signed_decimal(n).skip(1), 10) == -n,
        n > 0 ==> worth(signed_decimal(n), 10) == n,
{
    if n < 0 {
        law_decimals_come_to_the_number(-n);
        assert(signed_decimal(n).skip(1) =~= decimal(-n));
    } else {
        law_decimals_come_to_the_number(n);
        assert('0' <= decimal(n)[0]);
    }
}

/// A run of so many digits comes to the number's lowest ones; to base sixteen too.
pub proof fn law_digits_come_to_the_lowest(n: int, k: int)
    requires
        0 <= n,
        0 <= k,
    ensures
        digits(n, k).len() == k,
        is_decimal(digits(n, k)),
        0 <= worth(digits(n, k), 10) < pow(10, k as nat),
        n < pow(10, k as nat) ==> worth(digits(n, k), 10) == n,
        hex(n, k).len() == k,
        n < pow(16, k as nat) ==> worth(hex(n, k), 16) == n,
    decreases k,
{
    reveal(pow);
    if k > 0 {
        law_digits_come_to_the_lowest(n / 10, k - 1);
        law_digits_come_to_the_lowest(n / 16, k - 1);
        assert(digits(n, k).drop_last() =~= digits(n / 10, k - 1));
        assert(hex(n, k).drop_last() =~= hex(n / 16, k - 1));
    }
}

/// Groups of three are the decimal digits with blanks between them: a blank stands
/// before every third digit from the end, and nowhere else.
pub proof fn law_groups_are_the_digits(a: int)
    requires
        0 <= a,
    ensures
        groups(a).filter(|c: char| c != ' ') == decimal(a),
        forall|i: int|
            0 <= i < groups(a).len() ==> (#[trigger] groups(a)[i] == ' ' <==> (groups(a).len() - i)
                % 4 == 0),
        groups(a)[0] != ' ',
    decreases a,
{
    reveal_strlit(" ");
    let p = |c: char| c != ' ';
    let t = groups(a);
    if a >= 1000 {
        law_groups_are_the_digits(a / 1000);
        let (x, y) = (groups(a / 1000), digits(a % 1000, 3));
        lemma_three(a);
        assert(" "@ =~= seq![' ']);
        Seq::filter_distributes_over_add(x, " "@, p);
        Seq::filter_distributes_over_add(x + " "@, y, p);
        law_digits_come_to_the_lowest(a % 1000, 3);
        lemma_kept(y, p);
        lemma_dropped(" "@, p);
        assert(t.filter(p) =~= decimal(a));
        assert(t.len() == x.len() + 4);
        assert forall|i: int| 0 <= i < t.len() implies (#[trigger] t[i] == ' ' <==> (t.len() - i)
            % 4 == 0) by {
            if i < x.len() {
                assert(t[i] == x[i]);
            } else if i > x.len() {
                assert(t[i] == y[i - x.len() - 1]);
            }
        }
        assert(t[0] == x[0]);
    } else {
        law_decimals_come_to_the_number(a);
        lemma_kept(t, p);
        lemma_short(a);
    }
}

proof fn lemma_short(a: int)
    requires
        0 <= a < 1000,
    ensures
        decimal(a).len() <= 3,
{
    reveal_with_fuel(decimal, 4);
}

proof fn lemma_three(a: int)
    requires
        1000 <= a,
    ensures
        decimal(a) == decimal(a / 1000) + digits(a % 1000, 3),
{
    reveal_with_fuel(digits, 4);
    let (b, c) = (a / 10, a / 100);
    assert(b / 10 == c && c / 10 == a / 1000);
    assert(decimal(a) == decimal(b).push(digit(a % 10)));
    assert(decimal(b) == decimal(c).push(digit(b % 10)));
    assert(decimal(c) == decimal(c / 10).push(digit(c % 10)));
    assert(decimal(a) == decimal(c / 10).push(digit(c % 10)).push(digit(b % 10)).push(digit(a % 10)));
    let r = a % 1000;
    assert(r % 10 == a % 10 && (r / 10) % 10 == b % 10 && (r / 10 / 10) % 10 == c % 10);
    assert(decimal(a) =~= decimal(a / 1000) + digits(r, 3));
}

proof fn lemma_kept(s: Seq<char>, p: spec_fn(char) -> bool)
    requires
        forall|i: int| 0 <= i < s.len() ==> p(#[trigger] s[i]),
    ensures
        s.filter(p) == s,
    decreases s.len(),
{
    reveal(Seq::filter);
    if s.len() > 0 {
        assert(p(s[s.len() - 1]));
        lemma_kept(s.drop_last(), p);
        assert(s.filter(p) =~= s);
    } else {
        assert(s.filter(p) =~= s);
    }
}

proof fn lemma_dropped(s: Seq<char>, p: spec_fn(char) -> bool)
    requires
        s.len() == 1,
        !p(s[0]),
    ensures
        s.filter(p).len() == 0,
{
    reveal(Seq::filter);
    assert(s.drop_last().filter(p).len() == 0);
}

/// An abbreviated number leaves out less than a tenth of its unit, and the sign is
/// written before it.
pub proof fn law_abbreviations_round_down(v: int)
    ensures
        0 <= v < 10_000 ==> abbrev_text(v) == decimal(v),
        10_000 <= v < 1_000_000 ==> exists|k: int, d: int|
            0 <= d < 10 && (10 * k + d) * 100 <= v < (10 * k + d + 1) * 100 && abbrev_text(v)
                == #[trigger] decimal(k) + "."@ + #[trigger] decimal(d) + "k"@,
        1_000_000 <= v ==> exists|k: int, d: int|
            0 <= d < 10 && (10 * k + d) * 100_000 <= v < (10 * k + d + 1) * 100_000 && abbrev_text(v)
                == #[trigger] decimal(k) + "."@ + #[trigger] decimal(d) + "M"@,
        v > 0 ==> abbrev_text(-v) == "-"@ + abbrev_text(v),
{
    let none = Seq::<char>::empty();
    assert(none + decimal(v) =~= decimal(v));
    if 10_000 <= v < 1_000_000 {
        let (k, d) = (v / 1000, (v % 1000) / 100);
        assert(none + decimal(k) =~= decimal(k));
        assert((10 * k + d) * 100 <= v < (10 * k + d + 1) * 100);
        assert(abbrev_text(v) == decimal(k) + "."@ + decimal(d) + "k"@);
    }
    if 1_000_000 <= v {
        let (k, d) = (v / 1_000_000, (v % 1_000_000) / 100_000);
        assert(none + decimal(k) =~= decimal(k));
        assert((10 * k + d) * 100_000 <= v < (10 * k + d + 1) * 100_000);
        assert(abbrev_text(v) == decimal(k) + "."@ + decimal(d) + "M"@);
    }
    if v > 0 {
        assert(abbrev_text(-v) =~= "-"@ + abbrev_text(v));
    }
}

/// A duration is shown in ticks below a minute, in minutes below an hour and a half,
/// in hours and minutes below two days, then in days and hours; what is shown leaves
/// out less than one of its last unit. A hundred ticks make a minute.
pub proof fn law_durations_round_down(ticks: int)
    requires
        0 <= ticks,
    ensures
        ticks < 100 ==> duration_text(ticks) == decimal(ticks) + "t"@,
        100 <= ticks < 9_000 ==> exists|m: int|
            m * 100 <= ticks < (m + 1) * 100 && duration_text(ticks) == #[trigger] decimal(m)
                + "m"@,
        9_000 <= ticks < 288_000 ==> exists|h: int, m: int|
            0 <= m < 60 && h * 6_000 + m * 100 <= ticks < h * 6_000 + (m + 1) * 100
                && duration_text(ticks) == #[trigger] decimal(h) + "h"@ + #[trigger] digits(m, 2),
        288_000 <= ticks ==> exists|d: int, h: int|
            0 <= h < 24 && d * 144_000 + h * 6_000 <= ticks < d * 144_000 + (h + 1) * 6_000
                && duration_text(ticks) == #[trigger] decimal(d) + "d"@ + #[trigger] digits(h, 2)
                + "h"@,
{
    let m = ticks / 100;
    let h = m / 60;
    if 100 <= ticks < 9_000 {
        assert(m * 100 <= ticks < (m + 1) * 100);
        assert(duration_text(ticks) == decimal(m) + "m"@);
    } else if 9_000 <= ticks < 288_000 {
        let x = m % 60;
        assert(h * 6_000 + x * 100 <= ticks < h * 6_000 + (x + 1) * 100);
        assert(duration_text(ticks) == decimal(h) + "h"@ + digits(x, 2));
    } else if 288_000 <= ticks {
        let (d, x) = (h / 24, h % 24);
        assert(d * 144_000 + x * 6_000 <= ticks < d * 144_000 + (x + 1) * 6_000);
        assert(duration_text(ticks) == decimal(d) + "d"@ + digits(x, 2) + "h"@);
    }
}

/// Hundredths are written with two places that come to them.
pub proof fn law_hundredths_are_exact(v: int)
    requires
        0 <= v,
    ensures
        exists|w: int, c: int|
            0 <= w && 0 <= c < 100 && 100 * w + c == v && hundredths(v) == #[trigger] decimal(w)
                + "."@ + #[trigger] digits(c, 2),
{
    let (w, c) = (v / 100, v % 100);
    assert(100 * w + c == v);
    assert(hundredths(v) == decimal(w) + "."@ + digits(c, 2));
}

/// A fixed-point number is written as its whole part and the thousandths above
/// that, and what is written is less than a thousandth below it.
pub proof fn law_fixed_point_text_rounds_down(f: Fx)
    ensures
        exists|w: int, m: int|
            0 <= m < 1000 && (1000 * w + m) * 65536 <= 1000 * f.0 < (1000 * w + m + 1) * 65536
                && fx_text(f) == #[trigger] signed_decimal(w) + "."@ + #[trigger] digits(m, 3)
                + "fx"@,
{
    let w = f.0 as int / 65536;
    let x = f.0 as int % 65536;
    let m = x * 1000 / 65536;
    assert(f.0 == 65536 * w + x);
    assert((1000 * w + m) * 65536 <= 1000 * f.0 < (1000 * w + m + 1) * 65536);
    assert(fx_text(f) == signed_decimal(w) + "."@ + digits(m, 3) + "fx"@);
}

} // verus!
