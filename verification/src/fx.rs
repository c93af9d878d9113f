//! 16.16 fixed-point scalars and vectors: the only numeric type that holds a
//! fraction anywhere in the simulation.
//!
//! Every operation saturates rather than wrapping or panicking, so each is
//! total and gives the same result on every machine. The contracts are stated
//! over the raw integer `v * 65536` that a value `v` is held as.
use std::ops::{Add, AddAssign, Div, Mul, Neg, Sub, SubAssign};
use vstd::arithmetic::div_mod::{lemma_div_is_ordered, lemma_fundamental_div_mod, lemma_fundamental_div_mod_converse};
use vstd::arithmetic::mul::lemma_mul_inequality;
use vstd::arithmetic::power2::{lemma2_to64, lemma_pow2_adds, lemma_pow2_pos, lemma_pow2_strictly_increases, pow2};
use vstd::bits::{lemma_u64_shl_is_mul, lemma_u64_shr_is_div};
use vstd::prelude::*;
use vstd::std_specs::bits::u64_leading_zeros;

verus! {

pub const SHIFT: u32 = 16;

pub const ONE_RAW: i32 = 65_536;

/// Clamp an integer into the `i32` range.
pub open spec fn sat32(v: int) -> i32 {
    if v > i32::MAX {
        i32::MAX
    } else if v < i32::MIN {
        i32::MIN
    } else {
        v as i32
    }
}

/// Division rounding toward zero.
pub open spec fn trunc_div(a: int, b: int) -> int {
    if b == 0 {
        0
    } else if a >= 0 {
        if b > 0 {
            a / b
        } else {
            -(a / (-b))
        }
    } else {
        if b > 0 {
            -((-a) / b)
        } else {
            (-a) / (-b)
        }
    }
}

pub open spec fn abs_int(v: int) -> int {
    if v < 0 {
        -v
    } else {
        v
    }
}

pub open spec fn max_int(a: int, b: int) -> int {
    if a > b {
        a
    } else {
        b
    }
}

pub open spec fn min_int(a: int, b: int) -> int {
    if a < b {
        a
    } else {
        b
    }
}

/// `r` is the integer square root of `n`.
pub open spec fn is_isqrt(n: int, r: int) -> bool {
    &&& 0 <= r
    &&& r * r <= n
    &&& n < (r + 1) * (r + 1)
}

/// The integer square root of `n`: the only `r` with `r² <= n < (r + 1)²`
/// (see [`lemma_isqrt_unique`]).
pub open spec fn isqrt(n: int) -> int {
    choose|r: int| is_isqrt(n, r)
}

/// No two numbers are both the integer square root of `n`.
pub proof fn lemma_isqrt_unique(n: int, a: int, b: int)
    requires
        is_isqrt(n, a),
        is_isqrt(n, b),
    ensures
        a == b,
{
    if a < b {
        assert((a + 1) * (a + 1) <= b * b) by (nonlinear_arith)
            requires
                0 <= a,
                a + 1 <= b,
        ;
    }
    if b < a {
        assert((b + 1) * (b + 1) <= a * a) by (nonlinear_arith)
            requires
                0 <= b,
                b + 1 <= a,
        ;
    }
}

pub(crate) proof fn lemma_isqrt_is(n: int, r: int)
    requires
        is_isqrt(n, r),
    ensures
        isqrt(n) == r,
{
    lemma_isqrt_unique(n, isqrt(n), r);
}

/// A 16.16 signed fixed-point number: the field is the value times 65536.
#[derive(Clone, Copy, PartialEq, Eq, PartialOrd, Ord, Hash, Debug, Default, Structural)]
pub struct Fx(pub i32);

pub fn saturate_i64(v: i64) -> (r: i32)
    ensures
        r == sat32(v as int),
{
    if v > i32::MAX as i64 {
        i32::MAX
    } else if v < i32::MIN as i64 {
        i32::MIN
    } else {
        v as i32
    }
}

/// Exec division of `i64` rounds toward zero.
fn div_i64(a: i64, b: i64) -> (r: i64)
    requires
        b != 0,
        a > i64::MIN,
        b > i64::MIN,
    ensures
        r == trunc_div(a as int, b as int),
{
    if b > 0 {
        a / b
    } else {
        -(a / (-b))
    }
}

impl Fx {
    pub fn zero() -> (r: Fx)
        ensures
            r == Fx(0),
    {
        Fx(0)
    }

    pub fn one() -> (r: Fx)
        ensures
            r == Fx(ONE_RAW),
    {
        Fx(ONE_RAW)
    }

    pub fn half() -> (r: Fx)
        ensures
            r == Fx(32_768),
    {
        Fx(32_768)
    }

    /// The largest representable value.
    pub fn largest() -> (r: Fx)
        ensures
            r == Fx(i32::MAX),
    {
        Fx(i32::MAX)
    }

    /// The smallest representable value.
    pub fn smallest() -> (r: Fx)
        ensures
            r == Fx(i32::MIN),
    {
        Fx(i32::MIN)
    }

    pub open spec fn plus(self, o: Fx) -> Fx {
        Fx(sat32(self.0 + o.0))
    }

    pub open spec fn minus(self, o: Fx) -> Fx {
        Fx(sat32(self.0 - o.0))
    }

    pub open spec fn times(self, o: Fx) -> Fx {
        Fx(sat32((self.0 * o.0) / 65536))
    }

    pub open spec fn negated(self) -> Fx {
        Fx(sat32(-self.0))
    }

    pub open spec fn of_int(n: int) -> Fx {
        Fx(sat32(n * 65536))
    }

    /// Exact whole number. Saturates outside the representable range.
    pub fn from_int(n: i32) -> (r: Fx)
        ensures
            r == Fx::of_int(n as int),
    {
        match n.checked_mul(ONE_RAW) {
            Some(v) => Fx(v),
            None => {
                if n > 0 {
                    Fx(i32::MAX)
                } else {
                    Fx(i32::MIN)
                }
            },
        }
    }

    pub open spec fn of_ratio(num: int, den: int) -> Fx {
        Fx(sat32(trunc_div(num * 65536, den)))
    }

    /// The rational `num / den`, rounded toward zero to a multiple of
    /// 1/65536; zero when `den` is zero. Saturates outside the representable
    /// range.
    pub fn ratio(num: i32, den: i32) -> (r: Fx)
        ensures
            r == Fx::of_ratio(num as int, den as int),
    {
        if den == 0 {
            return Fx(0);
        }
        let q: i64 = div_i64(num as i64 * 65_536, den as i64);
        if q > 0x7FFF_FFFF {
            Fx(i32::MAX)
        } else if q < -0x8000_0000 {
            Fx(i32::MIN)
        } else {
            Fx(q as i32)
        }
    }

    pub fn from_raw(raw: i32) -> (r: Fx)
        ensures
            r == Fx(raw),
    {
        Fx(raw)
    }

    pub fn raw(self) -> (r: i32)
        ensures
            r == self.0,
    {
        self.0
    }

    pub open spec fn floor(self) -> int {
        self.0 as int / 65536
    }

    /// Rounds toward negative infinity, so `-0.5` floors to `-1`.
    pub fn floor_int(self) -> (r: i32)
        ensures
            r == self.floor(),
            -32768 <= r <= 32767,
    {
        let v: i32 = self.0;
        assert(v >> 16u32 == v / 65536) by (bit_vector);
        v >> SHIFT
    }

    /// Rounds to the nearest whole number, halves upward. What would round to
    /// a number that is out of range stays at the largest whole number.
    pub fn round_int(self) -> (r: i32)
        ensures
            r == sat32(self.0 + 32768) as int / 65536,
            self.0 <= i32::MAX - 32768 ==> r == (self.0 + 32768) / 65536,
    {
        let v: i32 = if self.0 > 0x7FFF_7FFF {
            i32::MAX
        } else {
            self.0 + 32_768
        };
        assert(v >> 16u32 == v / 65536) by (bit_vector);
        v >> SHIFT
    }

    /// The part above [`Fx::floor_int`], in `[0, 1)`.
    pub fn frac(self) -> (r: Fx)
        ensures
            r.0 == self.0 as int % 65536,
    {
        let v: i32 = self.0;
        assert(v & 65535 == v % 65536) by (bit_vector);
        Fx(v & 65_535)
    }

    pub open spec fn spec_abs(self) -> Fx {
        Fx(sat32(abs_int(self.0 as int)))
    }

    pub fn abs(self) -> (r: Fx)
        ensures
            r == self.spec_abs(),
    {
        if self.0 < 0 {
            Fx(saturate_i64(-(self.0 as i64)))
        } else {
            self
        }
    }

    pub open spec fn spec_min(self, other: Fx) -> Fx {
        if self.0 < other.0 {
            self
        } else {
            other
        }
    }

    #[verifier::when_used_as_spec(spec_min)]
    pub fn min(self, other: Fx) -> (r: Fx)
        ensures
            r == self.spec_min(other),
    {
        if self.0 < other.0 {
            self
        } else {
            other
        }
    }

    pub open spec fn spec_max(self, other: Fx) -> Fx {
        if self.0 > other.0 {
            self
        } else {
            other
        }
    }

    #[verifier::when_used_as_spec(spec_max)]
    pub fn max(self, other: Fx) -> (r: Fx)
        ensures
            r == self.spec_max(other),
    {
        if self.0 > other.0 {
            self
        } else {
            other
        }
    }

    pub open spec fn spec_clamp(self, lo: Fx, hi: Fx) -> Fx {
        self.spec_max(lo).spec_min(hi)
    }

    #[verifier::when_used_as_spec(spec_clamp)]
    pub fn clamp(self, lo: Fx, hi: Fx) -> (r: Fx)
        ensures
            r == self.spec_clamp(lo, hi),
            lo.0 <= hi.0 ==> lo.0 <= r.0 <= hi.0,
    {
        self.max(lo).min(hi)
    }

    pub fn is_zero(self) -> (r: bool)
        ensures
            r == (self.0 == 0),
    {
        self.0 == 0
    }

    pub fn signum(self) -> (r: i32)
        ensures
            self.0 > 0 ==> r == 1,
            self.0 < 0 ==> r == -1,
            self.0 == 0 ==> r == 0,
    {
        if self.0 > 0 {
            1
        } else if self.0 < 0 {
            -1
        } else {
            0
        }
    }

    /// Square root, rounded down to a multiple of 1/65536; zero for anything
    /// not positive.
    pub fn sqrt(self) -> (r: Fx)
        ensures
            self.0 <= 0 ==> r == Fx(0),
            self.0 > 0 ==> is_isqrt(self.0 * 65536, r.0 as int),
    {
        if self.0 <= 0 {
            return Fx::zero();
        }
        let scaled: u64 = self.0 as u64 * 65_536;
        let s: u64 = isqrt_u64(scaled);
        assert(s <= i32::MAX) by {
            if s >= 0x8000_0000 {
                lemma_mul_inequality(0x8000_0000, s as int, 0x8000_0000);
                lemma_mul_inequality(0x8000_0000, s as int, s as int);
            }
        }
        Fx(s as i32)
    }
}

/// Bit-by-bit integer square root. No floats, no rounding.
pub fn isqrt_u64(n: u64) -> (r: u64)
    ensures
        is_isqrt(n as int, r as int),
        r == isqrt(n as int),
        r <= 0xffff_ffff,
{
    if n == 0 {
        proof {
            lemma_isqrt_is(0, 0);
        }
        return 0;
    }
    let mut rem: u64 = 0;
    let mut root: u64 = 0;
    let mut i: u32 = 32;
    let ghost mut r: int = 0;
    assert(n >> 64u64 == 0) by (bit_vector);
    proof {
        lemma2_to64();
    }
    while i > 0
        invariant
            i <= 32,
            root == 2 * r,
            0 <= r,
            is_isqrt((n >> ((2 * i) as u64)) as int, r),
            rem == (n >> ((2 * i) as u64)) - r * r,
            r < pow2((32 - i) as nat),
        decreases i,
    {
        proof {
            let j: u64 = (2 * i - 2) as u64;
            let j2: u64 = (2 * i) as u64;
            assert((n >> j) == 4 * (n >> j2) + ((n >> j) & 3)) by (bit_vector)
                requires
                    j2 == j + 2,
                    j2 <= 64,
            ;
            assert(((n >> j) & 3) <= 3) by (bit_vector);
            lemma_pow2_strictly_increases((32 - i) as nat, 32);
            lemma2_to64();
            lemma_pow2_adds((32 - i) as nat, 1);
            assert((r + 1) * (r + 1) == r * r + 2 * r + 1) by (nonlinear_arith);
            assert((2 * r + 1) * (2 * r + 1) == 4 * (r * r) + 4 * r + 1) by (nonlinear_arith);
            assert((2 * r) * (2 * r) == 4 * (r * r)) by (nonlinear_arith);
            assert((2 * r + 2) * (2 * r + 2) == 4 * (r * r) + 8 * r + 4) by (nonlinear_arith);
            let b: u64 = (n >> j) & 3;
            assert((rem << 2u64) | b == 4 * rem + b) by (bit_vector)
                requires
                    rem <= 0x3_ffff_ffff,
                    b <= 3,
            ;
            assert(root << 1u64 == 2 * root) by (bit_vector)
                requires
                    root <= 0x3_ffff_ffff,
            ;
        }
        i = i - 1;
        root = root << 1u64;
        rem = (rem << 2u64) | ((n >> (i as u64 * 2)) & 3);
        if root < rem {
            root = root + 1;
            rem = rem - root;
            root = root + 1;
            proof {
                r = 2 * r + 1;
            }
        } else {
            proof {
                r = 2 * r;
            }
        }
    }
    proof {
        assert(n >> 0u64 == n) by (bit_vector);
        assert(root >> 1u64 == root / 2) by (bit_vector);
        lemma2_to64();
        lemma_isqrt_is(n as int, r);
    }
    root >> 1u64
}

impl Add for Fx {
    type Output = Fx;

    fn add(self, rhs: Fx) -> Fx {
        Fx(saturate_i64(self.0 as i64 + rhs.0 as i64))
    }
}

impl vstd::std_specs::ops::AddSpecImpl for Fx {
    open spec fn obeys_add_spec() -> bool {
        true
    }

    open spec fn add_req(self, rhs: Fx) -> bool {
        true
    }

    open spec fn add_spec(self, rhs: Fx) -> Fx {
        self.plus(rhs)
    }
}

impl Sub for Fx {
    type Output = Fx;

    fn sub(self, rhs: Fx) -> Fx {
        Fx(saturate_i64(self.0 as i64 - rhs.0 as i64))
    }
}

impl vstd::std_specs::ops::SubSpecImpl for Fx {
    open spec fn obeys_sub_spec() -> bool {
        true
    }

    open spec fn sub_req(self, rhs: Fx) -> bool {
        true
    }

    open spec fn sub_spec(self, rhs: Fx) -> Fx {
        self.minus(rhs)
    }
}

impl Neg for Fx {
    type Output = Fx;

    fn neg(self) -> Fx {
        Fx(saturate_i64(-(self.0 as i64)))
    }
}

impl vstd::std_specs::ops::NegSpecImpl for Fx {
    open spec fn obeys_neg_spec() -> bool {
        true
    }

    open spec fn neg_req(self) -> bool {
        true
    }

    open spec fn neg_spec(self) -> Fx {
        self.negated()
    }
}

/// The product of two `i32` values fits in an `i64`.
pub(crate) proof fn lemma_mul_i32(a: i32, b: i32)
    ensures
        -0x4000_0000_0000_0000 <= a * b <= 0x4000_0000_0000_0000,
{
    assert(-0x4000_0000_0000_0000 <= a * b <= 0x4000_0000_0000_0000) by (nonlinear_arith)
        requires
            -0x8000_0000 <= a <= 0x7fff_ffff,
            -0x8000_0000 <= b <= 0x7fff_ffff,
    ;
}

impl Mul for Fx {
    type Output = Fx;

    fn mul(self, rhs: Fx) -> Fx {
        proof {
            lemma_mul_i32(self.0, rhs.0);
        }
        let wide: i64 = self.0 as i64 * rhs.0 as i64;
        assert(wide >> 16u32 == wide / 65536) by (bit_vector);
        Fx(saturate_i64(wide >> SHIFT))
    }
}

impl vstd::std_specs::ops::MulSpecImpl for Fx {
    open spec fn obeys_mul_spec() -> bool {
        true
    }

    open spec fn mul_req(self, rhs: Fx) -> bool {
        true
    }

    open spec fn mul_spec(self, rhs: Fx) -> Fx {
        self.times(rhs)
    }
}

impl Mul<i32> for Fx {
    type Output = Fx;

    fn mul(self, rhs: i32) -> Fx {
        proof {
            lemma_mul_i32(self.0, rhs);
        }
        Fx(saturate_i64(self.0 as i64 * rhs as i64))
    }
}

impl vstd::std_specs::ops::MulSpecImpl<i32> for Fx {
    open spec fn obeys_mul_spec() -> bool {
        true
    }

    open spec fn mul_req(self, rhs: i32) -> bool {
        true
    }

    open spec fn mul_spec(self, rhs: i32) -> Fx {
        Fx(sat32(self.0 * rhs))
    }
}

impl Div for Fx {
    type Output = Fx;

    /// Total: division by zero saturates with the sign of the numerator.
    fn div(self, rhs: Fx) -> Fx {
        if rhs.0 == 0 {
            return if self.0 > 0 {
                Fx(i32::MAX)
            } else if self.0 < 0 {
                Fx(i32::MIN)
            } else {
                Fx(0)
            };
        }
        let wide: i64 = div_i64(self.0 as i64 * 65_536, rhs.0 as i64);
        Fx(saturate_i64(wide))
    }
}

impl vstd::std_specs::ops::DivSpecImpl for Fx {
    open spec fn obeys_div_spec() -> bool {
        true
    }

    open spec fn div_req(self, rhs: Fx) -> bool {
        true
    }

    open spec fn div_spec(self, rhs: Fx) -> Fx {
        if rhs.0 == 0 {
            if self.0 > 0 {
                Fx(i32::MAX)
            } else if self.0 < 0 {
                Fx(i32::MIN)
            } else {
                Fx(0)
            }
        } else {
            Fx(sat32(trunc_div(self.0 * 65536, rhs.0 as int)))
        }
    }
}

impl AddAssign for Fx {
    fn add_assign(&mut self, rhs: Fx)
        ensures
            *final(self) == old(self).plus(rhs),
    {
        *self = *self + rhs;
    }
}

impl SubAssign for Fx {
    fn sub_assign(&mut self, rhs: Fx)
        ensures
            *final(self) == old(self).minus(rhs),
    {
        *self = *self - rhs;
    }
}

/// A 2-D fixed-point vector: positions and velocities.
#[derive(Clone, Copy, PartialEq, Eq, Default, Debug, Hash, Structural)]
pub struct V2 {
    pub x: Fx,
    pub y: Fx,
}

pub open spec fn v2_zero() -> V2 {
    V2 { x: Fx(0), y: Fx(0) }
}

/// How many bits `normalized` scales a vector up by when its larger component
/// has magnitude `m`: as many as keep it below 2^31.
pub open spec fn norm_shift(m: u64) -> nat {
    if u64_leading_zeros(m) > 33 {
        (u64_leading_zeros(m) - 33) as nat
    } else {
        0
    }
}

fn abs_i64(v: i64) -> (r: u64)
    requires
        v > i64::MIN,
    ensures
        r == abs_int(v as int),
{
    if v < 0 {
        (-v) as u64
    } else {
        v as u64
    }
}

pub(crate) proof fn lemma_norm_shift(m: u64)
    requires
        0 < m <= 0x8000_0000,
    ensures
        norm_shift(m) <= 30,
        m * pow2(norm_shift(m)) <= 0x8000_0000,
{
    broadcast use vstd::std_specs::bits::axiom_u64_leading_zeros;

    lemma2_to64();
    let lz = u64_leading_zeros(m);
    assert(m == 0 <==> lz == 64);
    assert(lz <= 63);
    if lz == 0 {
        assert((m >> 63u64) & 1u64 == 0u64) by (bit_vector)
            requires
                m <= 0x8000_0000,
        ;
    }
    let w: u64 = (64 - lz) as u64;
    assert(m >> w == 0);
    lemma_u64_shr_is_div(m, w);
    lemma_pow2_pos(w as nat);
    assert(m < pow2(w as nat)) by {
        lemma_fundamental_div_mod(m as int, pow2(w as nat) as int);
        assert(pow2(w as nat) * 0 == 0) by (nonlinear_arith);
    }
    if lz > 33 {
        lemma_pow2_adds(w as nat, norm_shift(m));
        let p = pow2(norm_shift(m));
        lemma_pow2_pos(norm_shift(m));
        assert(m * p <= pow2(w as nat) * p) by (nonlinear_arith)
            requires
                m <= pow2(w as nat),
                p >= 0,
        ;
        assert((w as nat) + norm_shift(m) == 31);
    } else {
        assert(m * 1 == m);
    }
}

/// `|x| <= isqrt(x² + y²)`.
pub(crate) proof fn lemma_component_le_len(x: int, y: int, l: int)
    requires
        is_isqrt(x * x + y * y, l),
    ensures
        abs_int(x) <= l,
        abs_int(y) <= l,
{
    let ax = abs_int(x);
    let ay = abs_int(y);
    assert(ax * ax == x * x) by (nonlinear_arith)
        requires
            ax == x || ax == -x,
    ;
    assert(ay * ay == y * y) by (nonlinear_arith)
        requires
            ay == y || ay == -y,
    ;
    assert(x * x >= 0) by (nonlinear_arith);
    assert(y * y >= 0) by (nonlinear_arith);
    if ax > l {
        lemma_mul_inequality(l + 1, ax, ax);
        lemma_mul_inequality(l + 1, ax, l + 1);
        assert((l + 1) * ax == ax * (l + 1)) by (nonlinear_arith);
    }
    if ay > l {
        lemma_mul_inequality(l + 1, ay, ay);
        lemma_mul_inequality(l + 1, ay, l + 1);
        assert((l + 1) * ay == ay * (l + 1)) by (nonlinear_arith);
    }
}

/// A component no longer than the length divides to at most one in magnitude.
pub(crate) proof fn lemma_unit_component(v: int, l: int)
    requires
        l > 0,
        abs_int(v) <= l,
    ensures
        -65536 <= trunc_div(v * 65536, l) <= 65536,
{
    let a = abs_int(v) * 65536;
    lemma_div_is_ordered(a, l * 65536, l);
    lemma_fundamental_div_mod_converse(65536 * l, l, 65536, 0);
    lemma_div_is_ordered(0, a, l);
    lemma_fundamental_div_mod_converse(0, l, 0, 0);
}

impl V2 {
    pub fn zero() -> (r: V2)
        ensures
            r == v2_zero(),
    {
        V2 { x: Fx(0), y: Fx(0) }
    }

    pub fn new(x: Fx, y: Fx) -> (r: V2)
        ensures
            r == (V2 { x, y }),
    {
        V2 { x, y }
    }

    pub open spec fn plus(self, o: V2) -> V2 {
        V2 { x: self.x.plus(o.x), y: self.y.plus(o.y) }
    }

    pub open spec fn minus(self, o: V2) -> V2 {
        V2 { x: self.x.minus(o.x), y: self.y.minus(o.y) }
    }

    pub open spec fn spec_scale(self, s: Fx) -> V2 {
        V2 { x: self.x.times(s), y: self.y.times(s) }
    }

    pub fn scale(self, s: Fx) -> (r: V2)
        ensures
            r == self.spec_scale(s),
    {
        V2::new(self.x * s, self.y * s)
    }

    pub open spec fn spec_len_sq(self) -> Fx {
        self.x.times(self.x).plus(self.y.times(self.y))
    }

    /// Squared length. Coarse: squaring a small component loses most of its
    /// significant bits. [`V2::len`] and [`V2::normalized`] do not go through it.
    pub fn len_sq(self) -> (r: Fx)
        ensures
            r == self.spec_len_sq(),
    {
        self.x * self.x + self.y * self.y
    }

    pub open spec fn raw_sq(self) -> int {
        self.x.0 * self.x.0 + self.y.0 * self.y.0
    }

    /// Sum of the raw squares. A raw value is `v * 65536`, so the integer
    /// square root of this is the length as a raw value.
    fn len_sq_raw(self) -> (r: u64)
        ensures
            r == self.raw_sq(),
    {
        proof {
            lemma_mul_i32(self.x.0, self.x.0);
            lemma_mul_i32(self.y.0, self.y.0);
            lemma_square_nonneg(self.x.0 as int);
            lemma_square_nonneg(self.y.0 as int);
        }
        let x: i64 = self.x.0 as i64;
        let y: i64 = self.y.0 as i64;
        (x * x) as u64 + (y * y) as u64
    }

    pub open spec fn spec_len(self) -> Fx {
        Fx(sat32(isqrt(self.raw_sq())))
    }

    /// Length, rounded down to a multiple of 1/65536.
    pub fn len(self) -> (r: Fx)
        ensures
            r == self.spec_len(),
            self.raw_sq() < 0x4000_0000_0000_0000 ==> is_isqrt(self.raw_sq(), r.0 as int),
    {
        let s: u64 = isqrt_u64(self.len_sq_raw());
        proof {
            if s >= 0x8000_0000 {
                lemma_mul_inequality(0x8000_0000, s as int, 0x8000_0000);
                lemma_mul_inequality(0x8000_0000, s as int, s as int);
            }
        }
        Fx(saturate_i64(s as i64))
    }

    pub open spec fn spec_normalized(self) -> V2 {
        if self == v2_zero() {
            v2_zero()
        } else {
            let m = max_int(abs_int(self.x.0 as int), abs_int(self.y.0 as int));
            let f = pow2(norm_shift(m as u64)) as int;
            let (sx, sy) = (self.x.0 * f, self.y.0 * f);
            let l = isqrt(sx * sx + sy * sy);
            V2 {
                x: Fx(sat32(trunc_div(sx * 65536, l))),
                y: Fx(sat32(trunc_div(sy * 65536, l))),
            }
        }
    }

    /// Unit vector, or zero if the input is zero.
    ///
    /// Direction does not depend on scale, so the vector is scaled up until
    /// its larger component fills 31 bits before the root is taken; a vector
    /// only a few raw units long would otherwise have too few significant
    /// bits left to divide by.
    pub fn normalized(self) -> (r: V2)
        ensures
            r == self.spec_normalized(),
            -65536 <= r.x.0 <= 65536,
            -65536 <= r.y.0 <= 65536,
    {
        if self.x.0 == 0 && self.y.0 == 0 {
            return V2::zero();
        }
        let ax: u64 = abs_i64(self.x.0 as i64);
        let ay: u64 = abs_i64(self.y.0 as i64);
        let m: u64 = if ax > ay {
            ax
        } else {
            ay
        };
        let lz: u32 = m.leading_zeros();
        let sh: u32 = lz.saturating_sub(33);
        proof {
            lemma_norm_shift(m);
            lemma2_to64();
            lemma_pow2_strictly_increases(norm_shift(m), 31);
            lemma_u64_shl_is_mul(1, sh as u64);
        }
        let f: i64 = (1u64 << (sh as u64)) as i64;
        let ghost p = pow2(norm_shift(m)) as int;
        proof {
            assert(f == p);
            lemma_scaled_bound(self.x.0 as int, p, m as int);
            lemma_scaled_bound(self.y.0 as int, p, m as int);
        }
        let x: i64 = self.x.0 as i64 * f;
        let y: i64 = self.y.0 as i64 * f;
        proof {
            lemma_square_bound(x as int);
            lemma_square_bound(y as int);
        }
        let sq: u64 = (x * x) as u64 + (y * y) as u64;
        let l: i64 = isqrt_u64(sq) as i64;
        proof {
            lemma_component_le_len(x as int, y as int, l as int);
            assert(p >= 1);
            assert(x == 0 ==> self.x.0 == 0) by (nonlinear_arith)
                requires
                    x == self.x.0 * p,
                    p >= 1,
            ;
            assert(y == 0 ==> self.y.0 == 0) by (nonlinear_arith)
                requires
                    y == self.y.0 * p,
                    p >= 1,
            ;
            lemma_unit_component(x as int, l as int);
            lemma_unit_component(y as int, l as int);
        }
        V2::new(
            Fx(saturate_i64(div_i64(x * 65_536, l))),
            Fx(saturate_i64(div_i64(y * 65_536, l))),
        )
    }
}

pub(crate) proof fn lemma_square_nonneg(v: int)
    ensures
        v * v >= 0,
{
    assert(v * v >= 0) by (nonlinear_arith);
}

pub(crate) proof fn lemma_square_bound(v: int)
    requires
        -0x8000_0000 <= v <= 0x8000_0000,
    ensures
        0 <= v * v <= 0x4000_0000_0000_0000,
{
    assert(0 <= v * v <= 0x4000_0000_0000_0000) by (nonlinear_arith)
        requires
            -0x8000_0000 <= v <= 0x8000_0000,
    ;
}

pub(crate) proof fn lemma_scaled_bound(v: int, p: int, m: int)
    requires
        abs_int(v) <= m,
        p >= 1,
        m * p <= 0x8000_0000,
    ensures
        -0x8000_0000 <= v * p <= 0x8000_0000,
{
    assert(-(m * p) <= v * p <= m * p) by (nonlinear_arith)
        requires
            -m <= v <= m,
            p >= 1,
    ;
}

impl Add for V2 {
    type Output = V2;

    fn add(self, o: V2) -> V2 {
        V2::new(self.x + o.x, self.y + o.y)
    }
}

impl vstd::std_specs::ops::AddSpecImpl for V2 {
    open spec fn obeys_add_spec() -> bool {
        true
    }

    open spec fn add_req(self, o: V2) -> bool {
        true
    }

    open spec fn add_spec(self, o: V2) -> V2 {
        self.plus(o)
    }
}

impl Sub for V2 {
    type Output = V2;

    fn sub(self, o: V2) -> V2 {
        V2::new(self.x - o.x, self.y - o.y)
    }
}

impl vstd::std_specs::ops::SubSpecImpl for V2 {
    open spec fn obeys_sub_spec() -> bool {
        true
    }

    open spec fn sub_req(self, o: V2) -> bool {
        true
    }

    open spec fn sub_spec(self, o: V2) -> V2 {
        self.minus(o)
    }
}

impl Neg for V2 {
    type Output = V2;

    fn neg(self) -> V2 {
        V2::new(self.x.neg(), self.y.neg())
    }
}

impl vstd::std_specs::ops::NegSpecImpl for V2 {
    open spec fn obeys_neg_spec() -> bool {
        true
    }

    open spec fn neg_req(self) -> bool {
        true
    }

    open spec fn neg_spec(self) -> V2 {
        V2 { x: self.x.negated(), y: self.y.negated() }
    }
}

} // verus!
