//! Numbers and words read from text.
use crate::text::{decimal, digit, signed_decimal};
use vstd::prelude::*;
use vstd::string::*;

verus! {

/// Whether a character is a decimal digit.
pub open spec fn is_digit(c: char) -> bool {
    '0' <= c <= '9'
}

pub open spec fn all_digits(s: Seq<char>) -> bool {
    forall|i: int| 0 <= i < s.len() ==> is_digit(#[trigger] s[i])
}

/// The number that a sequence of digits stands for.
pub open spec fn value(s: Seq<char>) -> int
    decreases s.len(),
{
    if s.len() == 0 {
        0
    } else {
        value(s.drop_last()) * 10 + (s.last() as int - '0' as int)
    }
}

/// The number that a text stands for: digits, with at most one sign before
/// them, and nothing else.
pub open spec fn numeral(s: Seq<char>) -> Option<int> {
    let sign = s.len() > 0 && (s[0] == '-' || s[0] == '+');
    let d = if sign {
        s.skip(1)
    } else {
        s
    };
    if d.len() == 0 || !all_digits(d) {
        None
    } else if sign && s[0] == '-' {
        Some(-value(d))
    } else {
        Some(value(d))
    }
}

/// The number that a text stands for, if it fits.
pub open spec fn signed_in(s: Seq<char>) -> Option<i64> {
    match numeral(s) {
        Some(n) => if i64::MIN <= n <= i64::MAX {
            Some(n as i64)
        } else {
            None
        },
        None => None,
    }
}

/// The number without a minus sign that a text stands for, if it fits.
pub open spec fn unsigned_in(s: Seq<char>) -> Option<usize> {
    if s.len() > 0 && s[0] == '-' {
        None
    } else {
        match numeral(s) {
            Some(n) => if n <= usize::MAX {
                Some(n as usize)
            } else {
                None
            },
            None => None,
        }
    }
}

/// Digits stand for a number that is not negative, and more digits for one
/// that is not less.
proof fn lemma_value(s: Seq<char>, k: int)
    requires
        all_digits(s),
        0 <= k <= s.len(),
    ensures
        0 <= value(s.take(k)) <= value(s),
    decreases s.len(),
{
    if s.len() == 0 {
        assert(s.take(k) =~= s);
    } else {
        let p = s.drop_last();
        assert forall|i: int| 0 <= i < p.len() implies is_digit(#[trigger] p[i]) by {
            assert(p[i] == s[i]);
        }
        assert(is_digit(s[s.len() - 1]));
        if k == s.len() {
            assert(s.take(k) =~= s);
            lemma_value(p, 0);
            assert(p.take(0) =~= Seq::<char>::empty());
        } else {
            lemma_value(p, k);
            assert(p.take(k) =~= s.take(k));
        }
    }
}

/// The number that the characters from `from` on stand for, if they are
/// digits and it fits.
fn magnitude(s: &str, from: usize) -> (r: Option<u64>)
    requires
        from <= s@.len(),
    ensures
        match r {
            Some(v) => from < s@.len() && all_digits(s@.skip(from as int)) && v == value(
                s@.skip(from as int),
            ),
            None => from == s@.len() || !all_digits(s@.skip(from as int)) || value(
                s@.skip(from as int),
            ) > u64::MAX,
        },
{
    let n: usize = s.unicode_len();
    let ghost d = s@.skip(from as int);
    if from == n {
        return None;
    }
    let mut v: u64 = 0;
    let mut i: usize = from;
    assert(d.take(0) =~= Seq::<char>::empty());
    while i < n
        invariant
            from <= i <= n,
            n == s@.len(),
            d == s@.skip(from as int),
            forall|j: int| 0 <= j < i - from ==> is_digit(#[trigger] d[j]),
            v == value(d.take(i - from)),
        decreases n - i,
    {
        let c: char = s.get_char(i);
        assert(d[i - from] == c);
        if c < '0' || c > '9' {
            return None;
        }
        let x: u64 = c as u64 - '0' as u64;
        assert(d.take(i - from + 1).drop_last() =~= d.take(i - from));
        assert(value(d.take(i - from + 1)) == v * 10 + x);
        if v > (u64::MAX - x) / 10 {
            proof {
                if all_digits(d) {
                    lemma_value(d, i - from + 1);
                }
            }
            return None;
        }
        v = v * 10 + x;
        i = i + 1;
    }
    assert(d.take(i - from) =~= d);
    Some(v)
}

/// Read a number, with or without a sign.
pub fn signed(s: &str) -> (r: Option<i64>)
    ensures
        r == signed_in(s@),
{
    let n: usize = s.unicode_len();
    if n == 0 {
        return None;
    }
    let c: char = s.get_char(0);
    assert(s@.skip(0) =~= s@);
    proof {
        if all_digits(s@.skip(0)) {
            lemma_value(s@.skip(0), 0);
            assert(s@.skip(0).take(0) =~= Seq::<char>::empty());
        }
        if all_digits(s@.skip(1)) {
            lemma_value(s@.skip(1), 0);
            assert(s@.skip(1).take(0) =~= Seq::<char>::empty());
        }
    }
    if c == '-' {
        match magnitude(s, 1) {
            Some(v) => if v <= 0x7FFF_FFFF_FFFF_FFFF {
                Some(-(v as i64))
            } else if v == 0x8000_0000_0000_0000 {
                Some(i64::MIN)
            } else {
                None
            },
            None => None,
        }
    } else {
        let from: usize = if c == '+' {
            1
        } else {
            0
        };
        match magnitude(s, from) {
            Some(v) => if v <= 0x7FFF_FFFF_FFFF_FFFF {
                Some(v as i64)
            } else {
                None
            },
            None => None,
        }
    }
}

/// Read a number that is not negative.
pub fn unsigned(s: &str) -> (r: Option<usize>)
    ensures
        r == unsigned_in(s@),
{
    let n: usize = s.unicode_len();
    if n == 0 {
        return None;
    }
    let c: char = s.get_char(0);
    assert(s@.skip(0) =~= s@);
    let from: usize = if c == '+' {
        1
    } else {
        0
    };
    if c == '-' {
        return None;
    }
    match magnitude(s, from) {
        Some(v) => if v <= usize::MAX as u64 {
            Some(v as usize)
        } else {
            None
        },
        None => None,
    }
}

proof fn lemma_decimal_reads_back(n: int)
    requires
        0 <= n,
    ensures
        decimal(n).len() > 0,
        all_digits(decimal(n)),
        value(decimal(n)) == n,
    decreases n,
{
    let s = decimal(n);
    if n < 10 {
        assert(s =~= seq![digit(n)]);
        assert(s.drop_last() =~= Seq::<char>::empty());
        reveal_with_fuel(value, 2);
    } else {
        lemma_decimal_reads_back(n / 10);
        let p = decimal(n / 10);
        assert(s =~= p.push(digit(n % 10)));
        assert(s.drop_last() =~= p);
        assert forall|i: int| 0 <= i < s.len() implies is_digit(#[trigger] s[i]) by {
            if i < p.len() {
                assert(s[i] == p[i]);
            }
        }
    }
}

/// A number that was written out reads back as the same number.
pub proof fn law_a_written_number_reads_back(n: i64)
    ensures
        signed_in(signed_decimal(n as int)) == Some(n),
{
    let s = signed_decimal(n as int);
    if n < 0 {
        lemma_decimal_reads_back(-n);
        assert(s.skip(1) =~= decimal(-n));
    } else {
        lemma_decimal_reads_back(n as int);
        assert(is_digit(s[0]));
    }
}

// ----------------------------------------------------------------------
// Words.
// ----------------------------------------------------------------------

/// Whether a character is white space.
pub open spec fn is_space(c: char) -> bool {
    ||| '\u{9}' <= c <= '\u{d}'
    ||| c == ' '
    ||| c == '\u{85}'
    ||| c == '\u{a0}'
    ||| c == '\u{1680}'
    ||| '\u{2000}' <= c <= '\u{200a}'
    ||| c == '\u{2028}'
    ||| c == '\u{2029}'
    ||| c == '\u{202f}'
    ||| c == '\u{205f}'
    ||| c == '\u{3000}'
}

fn space(c: char) -> (r: bool)
    ensures
        r == is_space(c),
{
    ('\u{9}' <= c && c <= '\u{d}') || c == ' ' || c == '\u{85}' || c == '\u{a0}' || c == '\u{1680}'
        || ('\u{2000}' <= c && c <= '\u{200a}') || c == '\u{2028}' || c == '\u{2029}' || c
        == '\u{202f}' || c == '\u{205f}' || c == '\u{3000}'
}

/// The first place from `i` on where the text is white space, or is not, or
/// its end.
pub open spec fn turn(s: Seq<char>, i: int, at_space: bool) -> int
    decreases s.len() - i,
{
    if i < 0 || i >= s.len() || is_space(s[i]) == at_space {
        i
    } else {
        turn(s, i + 1, at_space)
    }
}

/// Where the first word from `i` on begins and ends, if there is one.
pub open spec fn word(s: Seq<char>, i: int) -> Option<(int, int)> {
    let a = turn(s, i, false);
    if a >= s.len() {
        None
    } else {
        Some((a, turn(s, a, true)))
    }
}

fn find_turn(s: &str, i: usize, at_space: bool) -> (r: usize)
    requires
        i <= s@.len(),
    ensures
        r == turn(s@, i as int, at_space),
        i <= r <= s@.len(),
{
    let n: usize = s.unicode_len();
    let mut j: usize = i;
    while j < n
        invariant
            i <= j <= n,
            n == s@.len(),
            turn(s@, j as int, at_space) == turn(s@, i as int, at_space),
        decreases n - j,
    {
        if space(s.get_char(j)) == at_space {
            return j;
        }
        j = j + 1;
    }
    j
}

/// The first word from `i` on, and where it ends.
pub fn next_word<'a>(s: &'a str, i: usize) -> (r: Option<(&'a str, usize)>)
    requires
        i <= s@.len(),
    ensures
        match r {
            Some((w, end)) => word(s@, i as int) matches Some((a, b)) && end == b && end <= s@.len()
                && w@ == s@.subrange(a, b),
            None => word(s@, i as int) is None,
        },
{
    let a: usize = find_turn(s, i, false);
    if a >= s.unicode_len() {
        return None;
    }
    let b: usize = find_turn(s, a, true);
    Some((s.substring_char(a, b), b))
}

/// Whether two texts are the same.
pub fn same(s: &str, t: &str) -> (r: bool)
    ensures
        r == (s@ == t@),
{
    let n: usize = s.unicode_len();
    if n != t.unicode_len() {
        return false;
    }
    let mut i: usize = 0;
    while i < n
        invariant
            i <= n,
            n == s@.len(),
            n == t@.len(),
            forall|j: int| 0 <= j < i ==> s@[j] == t@[j],
        decreases n - i,
    {
        if s.get_char(i) != t.get_char(i) {
            return false;
        }
        i = i + 1;
    }
    assert(s@ =~= t@);
    true
}

} // verus!
