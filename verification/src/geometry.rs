//! Lengths and directions.
//!
//! What a vector's length and its unit vector are, said by squares and
//! products of raw values alone.
use crate::fx::{
    abs_int, is_isqrt, isqrt, lemma_component_le_len, lemma_isqrt_is, lemma_norm_shift,
    lemma_scaled_bound, lemma_square_bound, lemma_square_nonneg, lemma_unit_component, max_int,
    norm_shift, trunc_div, v2_zero, V2,
};
use vstd::arithmetic::power2::{
    lemma2_to64, lemma_pow2_adds, lemma_pow2_pos, lemma_pow2_strictly_increases, pow2,
};
use vstd::prelude::*;
use vstd::std_specs::bits::u64_leading_zeros;

verus! {

/// The square of a vector's length, in raw units.
pub open spec fn square(v: V2) -> int {
    v.x.0 * v.x.0 + v.y.0 * v.y.0
}

/// Twice the area that two vectors span, in raw units: zero where they point
/// along one line.
pub open spec fn spread(v: V2, u: V2) -> int {
    v.x.0 * u.y.0 - v.y.0 * u.x.0
}

/// A number has no other sign than another.
pub open spec fn along(a: int, b: int) -> bool {
    (b > 0 ==> a >= 0) && (b < 0 ==> a <= 0) && (b == 0 ==> a == 0)
}

/// Every number below 2^63 has an integer square root.
pub(crate) proof fn lemma_isqrt_exists(n: int)
    requires
        0 <= n,
    ensures
        is_isqrt(n, isqrt(n)),
{
    let r = lemma_some_root(n);
    lemma_isqrt_is(n, r);
}

proof fn lemma_some_root(n: int) -> (r: int)
    requires
        0 <= n,
    ensures
        is_isqrt(n, r),
    decreases n,
{
    if n == 0 {
        assert(is_isqrt(0, 0));
        0
    } else {
        let r = lemma_some_root(n - 1);
        if (r + 1) * (r + 1) <= n {
            assert((r + 1 + 1) * (r + 1 + 1) > (r + 1) * (r + 1)) by (nonlinear_arith)
                requires
                    r >= 0,
            ;
            r + 1
        } else {
            r
        }
    }
}

/// A length is the square root of the sum of the squares, rounded down to a
/// raw unit; it saturates beyond the largest value.
pub proof fn law_length_is_by_the_squares(v: V2)
    ensures
        0 <= v.spec_len().0,
        v.spec_len().0 < i32::MAX ==> is_isqrt(square(v), v.spec_len().0 as int),
        square(v) < 0x3FFF_FFFF_0000_0001 ==> is_isqrt(square(v), v.spec_len().0 as int),
{
    lemma_square_nonneg(v.x.0 as int);
    lemma_square_nonneg(v.y.0 as int);
    let n = square(v);
    lemma_isqrt_exists(n);
    let r = isqrt(n);
    if n < 0x3FFF_FFFF_0000_0001 && r >= 0x7FFF_FFFF {
        assert(r * r >= 0x7FFF_FFFF * 0x7FFF_FFFF) by (nonlinear_arith)
            requires
                r >= 0x7FFF_FFFF,
        ;
    }
}

/// Scaling fills at least thirty bits.
proof fn lemma_norm_shift_fills(m: u64)
    requires
        0 < m <= 0x8000_0000,
    ensures
        m * pow2(norm_shift(m)) >= 0x4000_0000,
{
    broadcast use vstd::std_specs::bits::axiom_u64_leading_zeros;

    lemma2_to64();
    let lz = u64_leading_zeros(m);
    assert(lz <= 63);
    let w: u64 = (63 - lz) as u64;
    assert((m >> w) & 1u64 != 0u64);
    assert(m >> w >= 1) by (bit_vector)
        requires
            (m >> w) & 1u64 != 0u64,
    ;
    vstd::bits::lemma_u64_shr_is_div(m, w);
    lemma_pow2_pos(w as nat);
    let p = pow2(w as nat) as int;
    assert(m >= p) by (nonlinear_arith)
        requires
            m as int / p >= 1,
            p >= 1,
            m >= 0,
    ;
    if lz > 33 {
        lemma_pow2_adds(w as nat, norm_shift(m));
        let q = pow2(norm_shift(m)) as int;
        lemma_pow2_pos(norm_shift(m));
        assert(m * q >= p * q) by (nonlinear_arith)
            requires
                m >= p,
                q >= 0,
        ;
    } else {
        if w > 30 {
            lemma_pow2_strictly_increases(30, w as nat);
        }
        assert(m * 1 == m);
    }
}

/// The share of one side in a root, as a raw value.
proof fn lemma_share_of_root(u: int, l: int)
    requires
        l > 0,
        abs_int(u) <= l,
    ensures
        ({
            let a = abs_int(trunc_div(u * 65536, l));
            &&& a * l <= 65536 * abs_int(u) < (a + 1) * l
            &&& along(trunc_div(u * 65536, l), u)
            &&& a <= 65536
        }),
{
    lemma_unit_component(u, l);
    let n = abs_int(u) * 65536;
    vstd::arithmetic::div_mod::lemma_fundamental_div_mod(n, l);
    let q = n / l;
    assert(q >= 0) by (nonlinear_arith)
        requires
            n >= 0,
            l > 0,
            q == n / l,
    ;
    assert(l * q == q * l) by (nonlinear_arith);
    assert((q + 1) * l == q * l + l) by (nonlinear_arith);
    assert(abs_int(trunc_div(u * 65536, l)) == q);
}

/// What is known of a unit vector before it is put in words: of its parts, and
/// of the scaled vector it is made from.
pub(crate) proof fn lemma_unit_parts(v: V2) -> (r: (int, int))
    requires
        v != v2_zero(),
    ensures
        ({
            let n = v.spec_normalized();
            let (f, l) = r;
            let (x, y) = (abs_int(v.x.0 as int) * f, abs_int(v.y.0 as int) * f);
            let (a, b) = (abs_int(n.x.0 as int), abs_int(n.y.0 as int));
            &&& 1 <= f
            &&& is_isqrt(x * x + y * y, l)
            &&& 0x4000_0000 <= l <= 0x1_0000_0000
            &&& a * l <= 65536 * x < (a + 1) * l
            &&& b * l <= 65536 * y < (b + 1) * l
            &&& a <= 65536
            &&& b <= 65536
            &&& along(n.x.0 as int, v.x.0 as int)
            &&& along(n.y.0 as int, v.y.0 as int)
        }),
{
    let (vx, vy) = (v.x.0 as int, v.y.0 as int);
    let m = max_int(abs_int(vx), abs_int(vy));
    lemma_norm_shift(m as u64);
    lemma_norm_shift_fills(m as u64);
    lemma_pow2_pos(norm_shift(m as u64));
    let f = pow2(norm_shift(m as u64)) as int;
    let (sx, sy) = (vx * f, vy * f);
    lemma_scaled_bound(vx, f, m);
    lemma_scaled_bound(vy, f, m);
    lemma_square_bound(sx);
    lemma_square_bound(sy);
    lemma_isqrt_exists(sx * sx + sy * sy);
    let l = isqrt(sx * sx + sy * sy);
    lemma_component_le_len(sx, sy, l);
    assert(abs_int(sx) == abs_int(vx) * f) by (nonlinear_arith)
        requires
            sx == vx * f,
            f >= 1,
    ;
    assert(abs_int(sy) == abs_int(vy) * f) by (nonlinear_arith)
        requires
            sy == vy * f,
            f >= 1,
    ;
    assert(abs_int(sx) * abs_int(sx) == sx * sx) by (nonlinear_arith);
    assert(abs_int(sy) * abs_int(sy) == sy * sy) by (nonlinear_arith);
    assert(m * f >= 0x4000_0000);
    assert(l >= 0x4000_0000);
    assert(l <= 0x1_0000_0000) by (nonlinear_arith)
        requires
            l * l <= 0x8000_0000_0000_0000,
    ;
    lemma_share_of_root(sx, l);
    lemma_share_of_root(sy, l);
    assert(vx > 0 ==> sx > 0) by (nonlinear_arith)
        requires
            sx == vx * f,
            f >= 1,
    ;
    assert(vx < 0 ==> sx < 0) by (nonlinear_arith)
        requires
            sx == vx * f,
            f >= 1,
    ;
    assert(vy > 0 ==> sy > 0) by (nonlinear_arith)
        requires
            sy == vy * f,
            f >= 1,
    ;
    assert(vy < 0 ==> sy < 0) by (nonlinear_arith)
        requires
            sy == vy * f,
            f >= 1,
    ;
    assert(vx == 0 ==> sx == 0) by (nonlinear_arith)
        requires
            sx == vx * f,
    ;
    assert(vy == 0 ==> sy == 0) by (nonlinear_arith)
        requires
            sy == vy * f,
    ;
    (f, l)
}

/// The parts of a unit vector, squared, make a whole.
pub(crate) proof fn lemma_unit_square(a: int, b: int, x: int, y: int, l: int)
    requires
        0 <= a <= 65536,
        0 <= b <= 65536,
        0x4000_0000 <= l,
        is_isqrt(x * x + y * y, l),
        0 <= x,
        0 <= y,
        a * l <= 65536 * x < (a + 1) * l,
        b * l <= 65536 * y < (b + 1) * l,
    ensures
        65536 * 65536 - 4 * 65536 - 2 <= a * a + b * b <= 65536 * 65536 + 16,
{
    let s = x * x + y * y;
    assert((a * l) * (a * l) <= (65536 * x) * (65536 * x)) by (nonlinear_arith)
        requires
            0 <= a * l <= 65536 * x,
    ;
    assert((b * l) * (b * l) <= (65536 * y) * (65536 * y)) by (nonlinear_arith)
        requires
            0 <= b * l <= 65536 * y,
    ;
    assert((65536 * x) * (65536 * x) < ((a + 1) * l) * ((a + 1) * l)) by (nonlinear_arith)
        requires
            0 <= 65536 * x < (a + 1) * l,
    ;
    assert((65536 * y) * (65536 * y) < ((b + 1) * l) * ((b + 1) * l)) by (nonlinear_arith)
        requires
            0 <= 65536 * y < (b + 1) * l,
    ;
    let n = a * a + b * b;
    let k = (a + 1) * (a + 1) + (b + 1) * (b + 1);
    assert((a * l) * (a * l) + (b * l) * (b * l) == n * (l * l)) by (nonlinear_arith)
        requires
            n == a * a + b * b,
    ;
    assert(((a + 1) * l) * ((a + 1) * l) + ((b + 1) * l) * ((b + 1) * l) == k * (l * l))
        by (nonlinear_arith)
        requires
            k == (a + 1) * (a + 1) + (b + 1) * (b + 1),
    ;
    assert((65536 * x) * (65536 * x) + (65536 * y) * (65536 * y) == 0x1_0000_0000 * s)
        by (nonlinear_arith)
        requires
            s == x * x + y * y,
    ;
    let q = l * l;
    assert((l + 1) * (l + 1) == q + 2 * l + 1) by (nonlinear_arith)
        requires
            q == l * l,
    ;
    assert(q >= 0x4000_0000 * l) by (nonlinear_arith)
        requires
            q == l * l,
            l >= 0x4000_0000,
    ;
    // n * q <= 2^32 * s < 2^32 * (q + 2l + 1) and 2^32 * (2l + 1) < 16 * q
    assert(0x1_0000_0000 * (2 * l + 1) <= 17 * q);
    assert(n <= 0x1_0000_0000 + 16) by (nonlinear_arith)
        requires
            n * q <= 0x1_0000_0000 * s,
            s < q + 2 * l + 1,
            0x1_0000_0000 * (2 * l + 1) <= 17 * q,
            q > 0,
    ;
    assert(k > 0x1_0000_0000) by (nonlinear_arith)
        requires
            k * q > 0x1_0000_0000 * s,
            s >= q,
            q > 0,
    ;
    assert(k == n + 2 * a + 2 * b + 2) by (nonlinear_arith)
        requires
            k == (a + 1) * (a + 1) + (b + 1) * (b + 1),
            n == a * a + b * b,
    ;
}

/// The unit vector of a vector has length one, up to rounding, and points
/// where the vector does: each part has its sign, and what the two span is no
/// more than the vector's length.
pub proof fn law_a_unit_vector_points_along(v: V2)
    requires
        v != v2_zero(),
    ensures
        along(v.spec_normalized().x.0 as int, v.x.0 as int),
        along(v.spec_normalized().y.0 as int, v.y.0 as int),
        65536 * 65536 - 4 * 65536 - 2 <= square(v.spec_normalized()) <= 65536 * 65536 + 16,
        spread(v, v.spec_normalized()) * spread(v, v.spec_normalized()) <= square(v),
{
    let n = v.spec_normalized();
    let (f, l) = lemma_unit_parts(v);
    let (vx, vy) = (abs_int(v.x.0 as int), abs_int(v.y.0 as int));
    let (x, y) = (vx * f, vy * f);
    let (a, b) = (abs_int(n.x.0 as int), abs_int(n.y.0 as int));
    lemma_unit_square(a, b, x, y, l);
    assert(square(n) == a * a + b * b) by (nonlinear_arith)
        requires
            square(n) == n.x.0 * n.x.0 + n.y.0 * n.y.0,
            a == n.x.0 || a == -n.x.0,
            b == n.y.0 || b == -n.y.0,
    ;
    // The two span what their magnitudes do, for their signs agree.
    let c = vx * b - vy * a;
    assert(spread(v, n) == c || spread(v, n) == -c) by (nonlinear_arith)
        requires
            spread(v, n) == v.x.0 * n.y.0 - v.y.0 * n.x.0,
            c == vx * b - vy * a,
            vx == abs_int(v.x.0 as int),
            vy == abs_int(v.y.0 as int),
            a == abs_int(n.x.0 as int),
            b == abs_int(n.y.0 as int),
            along(n.x.0 as int, v.x.0 as int),
            along(n.y.0 as int, v.y.0 as int),
    ;
    lemma_span(vx, vy, a, b, f, l);
    let d = vx * vx + vy * vy;
    assert(square(v) == d) by (nonlinear_arith)
        requires
            square(v) == v.x.0 * v.x.0 + v.y.0 * v.y.0,
            vx == v.x.0 || vx == -v.x.0,
            vy == v.y.0 || vy == -v.y.0,
            d == vx * vx + vy * vy,
    ;
    assert(spread(v, n) * spread(v, n) == c * c) by (nonlinear_arith)
        requires
            spread(v, n) == c || spread(v, n) == -c,
    ;
}

/// `|vx * b - vy * a| * f <= l`, and so its square is at most the vector's.
proof fn lemma_span(vx: int, vy: int, a: int, b: int, f: int, l: int)
    requires
        0 <= vx,
        0 <= vy,
        0 <= a <= 65536,
        0 <= b <= 65536,
        1 <= f,
        0 < l,
        is_isqrt((vx * f) * (vx * f) + (vy * f) * (vy * f), l),
        a * l <= 65536 * (vx * f) < (a + 1) * l,
        b * l <= 65536 * (vy * f) < (b + 1) * l,
    ensures
        (vx * b - vy * a) * (vx * b - vy * a) <= vx * vx + vy * vy,
{
    let (x, y) = (vx * f, vy * f);
    let c = vx * b - vy * a;
    let g = x * b - y * a;
    assert(g == c * f) by (nonlinear_arith)
        requires
            g == x * b - y * a,
            c == vx * b - vy * a,
            x == vx * f,
            y == vy * f,
    ;
    // 65536 * x * b < (a + 1) * l * b and 65536 * y * a >= b * l * a
    assert(65536 * (x * b) <= a * b * l + b * l) by (nonlinear_arith)
        requires
            65536 * x <= (a + 1) * l,
            0 <= b,
    ;
    assert(65536 * (y * a) >= a * b * l) by (nonlinear_arith)
        requires
            b * l <= 65536 * y,
            0 <= a,
    ;
    assert(65536 * (y * a) <= a * b * l + a * l) by (nonlinear_arith)
        requires
            65536 * y <= (b + 1) * l,
            0 <= a,
    ;
    assert(65536 * (x * b) >= a * b * l) by (nonlinear_arith)
        requires
            a * l <= 65536 * x,
            0 <= b,
    ;
    assert(b * l <= 65536 * l) by (nonlinear_arith)
        requires
            b <= 65536,
            0 < l,
    ;
    assert(a * l <= 65536 * l) by (nonlinear_arith)
        requires
            a <= 65536,
            0 < l,
    ;
    assert(-l <= g <= l);
    assert(g * g <= l * l) by (nonlinear_arith)
        requires
            -l <= g <= l,
    ;
    let d = vx * vx + vy * vy;
    assert(x * x + y * y == d * (f * f)) by (nonlinear_arith)
        requires
            x == vx * f,
            y == vy * f,
            d == vx * vx + vy * vy,
    ;
    assert(g * g == (c * c) * (f * f)) by (nonlinear_arith)
        requires
            g == c * f,
    ;
    assert(f * f >= 1) by (nonlinear_arith)
        requires
            f >= 1,
    ;
    let h = f * f;
    assert(c * c <= d) by (nonlinear_arith)
        requires
            (c * c) * h <= d * h,
            h >= 1,
    ;
}

} // verus!
