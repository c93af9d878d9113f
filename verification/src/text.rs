//! Decimal numbers as text.
use crate::fx::Fx;
use vstd::prelude::*;
use vstd::string::*;

verus! {

/// The decimal digit `d`.
pub open spec fn digit(d: int) -> char {
    if d == 0 {
        '0'
    } else if d == 1 {
        '1'
    } else if d == 2 {
        '2'
    } else if d == 3 {
        '3'
    } else if d == 4 {
        '4'
    } else if d == 5 {
        '5'
    } else if d == 6 {
        '6'
    } else if d == 7 {
        '7'
    } else if d == 8 {
        '8'
    } else {
        '9'
    }
}

/// `n` in decimal, without leading zeros.
pub open spec fn decimal(n: int) -> Seq<char>
    decreases n,
{
    if n < 10 {
        seq![digit(n)]
    } else {
        decimal(n / 10).push(digit(n % 10))
    }
}

/// `n` in decimal, with a minus sign when it is negative.
pub open spec fn signed_decimal(n: int) -> Seq<char> {
    if n < 0 {
        seq!['-'] + decimal(-n)
    } else {
        decimal(n)
    }
}

fn push_digit(s: &mut String, d: u64)
    requires
        d < 10,
    ensures
        final(s)@ == old(s)@.push(digit(d as int)),
{
    let ghost before = s@;
    proof {
        reveal_strlit("0");
        reveal_strlit("1");
        reveal_strlit("2");
        reveal_strlit("3");
        reveal_strlit("4");
        reveal_strlit("5");
        reveal_strlit("6");
        reveal_strlit("7");
        reveal_strlit("8");
        reveal_strlit("9");
    }
    let t: &str = if d == 0 {
        "0"
    } else if d == 1 {
        "1"
    } else if d == 2 {
        "2"
    } else if d == 3 {
        "3"
    } else if d == 4 {
        "4"
    } else if d == 5 {
        "5"
    } else if d == 6 {
        "6"
    } else if d == 7 {
        "7"
    } else if d == 8 {
        "8"
    } else {
        "9"
    };
    s.append(t);
    assert(s@ =~= before.push(digit(d as int)));
}

/// Append `n` in decimal.
pub fn push_decimal(s: &mut String, n: u64)
    ensures
        final(s)@ == old(s)@ + decimal(n as int),
    decreases n,
{
    let ghost before = s@;
    if n >= 10 {
        push_decimal(s, n / 10);
        push_digit(s, n % 10);
        assert(s@ =~= before + decimal(n as int));
    } else {
        push_digit(s, n);
        assert(s@ =~= before + decimal(n as int));
    }
}

/// Append `n` in decimal, with a minus sign when it is negative.
pub fn push_signed(s: &mut String, n: i128)
    requires
        i64::MIN <= n <= u64::MAX,
    ensures
        final(s)@ == old(s)@ + signed_decimal(n as int),
{
    let ghost before = s@;
    if n < 0 {
        proof {
            reveal_strlit("-");
        }
        s.append("-");
        let m: u64 = (-n) as u64;
        push_decimal(s, m);
        assert(s@ =~= before + signed_decimal(n as int));
    } else {
        push_decimal(s, n as u64);
    }
}

/// The lowest `k` decimal digits of `n`.
pub open spec fn digits(n: int, k: int) -> Seq<char>
    decreases k,
{
    if k <= 0 {
        Seq::empty()
    } else {
        digits(n / 10, k - 1).push(digit(n % 10))
    }
}

/// Append the lowest `k` decimal digits of `n`.
pub fn push_digits(s: &mut String, n: u64, k: u32)
    ensures
        final(s)@ == old(s)@ + digits(n as int, k as int),
    decreases k,
{
    let ghost before = s@;
    if k > 0 {
        push_digits(s, n / 10, k - 1);
        push_digit(s, n % 10);
    }
    assert(s@ =~= before + digits(n as int, k as int));
}

/// The hexadecimal digit `d`, in lower case.
pub open spec fn hex_digit(d: int) -> char {
    if d < 10 {
        digit(d)
    } else if d == 10 {
        'a'
    } else if d == 11 {
        'b'
    } else if d == 12 {
        'c'
    } else if d == 13 {
        'd'
    } else if d == 14 {
        'e'
    } else {
        'f'
    }
}

/// The lowest `k` hexadecimal digits of `n`.
pub open spec fn hex(n: int, k: int) -> Seq<char>
    decreases k,
{
    if k <= 0 {
        Seq::empty()
    } else {
        hex(n / 16, k - 1).push(hex_digit(n % 16))
    }
}

fn push_hex_digit(s: &mut String, d: u64)
    requires
        d < 16,
    ensures
        final(s)@ == old(s)@.push(hex_digit(d as int)),
{
    if d < 10 {
        push_digit(s, d);
        return ;
    }
    let ghost before = s@;
    proof {
        reveal_strlit("a");
        reveal_strlit("b");
        reveal_strlit("c");
        reveal_strlit("d");
        reveal_strlit("e");
        reveal_strlit("f");
    }
    let t: &str = if d == 10 {
        "a"
    } else if d == 11 {
        "b"
    } else if d == 12 {
        "c"
    } else if d == 13 {
        "d"
    } else if d == 14 {
        "e"
    } else {
        "f"
    };
    s.append(t);
    assert(s@ =~= before.push(hex_digit(d as int)));
}

/// Append the lowest `k` hexadecimal digits of `n`.
pub fn push_hex(s: &mut String, n: u64, k: u32)
    ensures
        final(s)@ == old(s)@ + hex(n as int, k as int),
    decreases k,
{
    let ghost before = s@;
    if k > 0 {
        push_hex(s, n / 16, k - 1);
        push_hex_digit(s, n % 16);
    }
    assert(s@ =~= before + hex(n as int, k as int));
}

/// The ASCII bytes of `n` in decimal.
pub open spec fn decimal_ascii(n: int) -> Seq<u8>
    decreases n,
{
    if n < 10 {
        seq![(48 + n) as u8]
    } else {
        decimal_ascii(n / 10).push((48 + n % 10) as u8)
    }
}

/// Append the ASCII bytes of `n` in decimal.
pub fn push_decimal_ascii(v: &mut Vec<u8>, n: u64)
    ensures
        final(v)@ == old(v)@ + decimal_ascii(n as int),
    decreases n,
{
    let ghost before = v@;
    if n >= 10 {
        push_decimal_ascii(v, n / 10);
        v.push(48 + (n % 10) as u8);
        assert(v@ =~= before + decimal_ascii(n as int));
    } else {
        v.push(48 + n as u8);
        assert(v@ =~= before + decimal_ascii(n as int));
    }
}

/// A fixed-point number as text: whole part, rounded down, and thousandths.
pub open spec fn fx_text(f: Fx) -> Seq<char> {
    signed_decimal(f.floor()) + "."@ + digits((f.0 as int % 65536) * 1000 / 65536, 3) + "fx"@
}

impl Fx {
    /// The number as text, without a round trip through floats.
    pub fn text(self) -> (r: String)
        ensures
            r@ == fx_text(self),
    {
        let mut s: String = String::new();
        push_signed(&mut s, self.floor_int() as i128);
        s.append(".");
        push_digits(&mut s, self.frac().raw() as u64 * 1000 / 65536, 3);
        s.append("fx");
        assert(s@ =~= fx_text(self));
        s
    }
}

} // verus!
