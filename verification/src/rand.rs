//! Stateless randomness: every draw is a pure hash of where and when it
//! happened, so two simulations of the same body draw the same number without
//! exchanging anything.
//!
//! Each logical decision draws from its own [`Channel`]; a new decision never
//! shifts the stream that feeds another.
use crate::fx::{Fx, ONE_RAW};
use vstd::prelude::*;

verus! {

/// One channel per logical decision. The numbers are part of every recorded
/// replay: never reused, never changed.
#[derive(Clone, Copy, PartialEq, Eq, Debug, Hash, Structural)]
pub enum Channel {
    MoveJitter,
    Wander,
    Collision,
    LifespanVariance,
    /// Scatter of an offspring around its parent.
    Forage,
    Crit,
    SpawnPlacement,
    Governor,
    /// Terrain apportionment: rotating offset and tie-break.
    Terrain,
    /// Per-cell seasonal base rates.
    Climate,
    /// The roll that gates one animal eating another.
    Hunt,
    /// Whether a plant propagates.
    Propagate,
    /// Where a plant's offspring lands.
    Disperse,
    /// For ad-hoc debugging.
    Debug,
}

impl Channel {
    pub open spec fn spec_number(self) -> u64 {
        match self {
            Channel::MoveJitter => 0,
            Channel::Wander => 1,
            Channel::Collision => 2,
            Channel::LifespanVariance => 3,
            Channel::Forage => 4,
            Channel::Crit => 5,
            Channel::SpawnPlacement => 6,
            Channel::Governor => 7,
            Channel::Terrain => 8,
            Channel::Climate => 9,
            Channel::Hunt => 10,
            Channel::Propagate => 11,
            Channel::Disperse => 12,
            Channel::Debug => 255,
        }
    }

    pub fn number(self) -> (r: u64)
        ensures
            r == self.spec_number(),
    {
        match self {
            Channel::MoveJitter => 0,
            Channel::Wander => 1,
            Channel::Collision => 2,
            Channel::LifespanVariance => 3,
            Channel::Forage => 4,
            Channel::Crit => 5,
            Channel::SpawnPlacement => 6,
            Channel::Governor => 7,
            Channel::Terrain => 8,
            Channel::Climate => 9,
            Channel::Hunt => 10,
            Channel::Propagate => 11,
            Channel::Disperse => 12,
            Channel::Debug => 255,
        }
    }
}

/// SplitMix64 finalisation.
pub open spec fn mix64(h: u64) -> u32 {
    let a = h ^ (h >> 30u64);
    let b = a.wrapping_mul(0xBF58_476D_1CE4_E5B9);
    let c = b ^ (b >> 27u64);
    let d = c.wrapping_mul(0x94D0_49BB_1331_11EB);
    (d ^ (d >> 31u64)) as u32
}

/// The draw at `(seed, tick, id)` on channel `ch`.
pub open spec fn draw(seed: u64, tick: u64, id: u32, ch: Channel) -> u32 {
    mix64(
        seed ^ tick.wrapping_mul(0x9E37_79B9_7F4A_7C15) ^ ((id as u64) << 17u64) ^ (
        ch.spec_number() << 3u64),
    )
}

/// The primitive draw.
pub fn rand(seed: u64, tick: u64, id: u32, ch: Channel) -> (r: u32)
    ensures
        r == draw(seed, tick, id, ch),
{
    let h: u64 = seed ^ tick.wrapping_mul(0x9E37_79B9_7F4A_7C15) ^ ((id as u64) << 17u64) ^ (
    ch.number() << 3u64);
    let a: u64 = h ^ (h >> 30u64);
    let b: u64 = a.wrapping_mul(0xBF58_476D_1CE4_E5B9);
    let c: u64 = b ^ (b >> 27u64);
    let d: u64 = c.wrapping_mul(0x94D0_49BB_1331_11EB);
    #[verifier::truncate]
    ((d ^ (d >> 31u64)) as u32)
}

pub open spec fn draw_below(seed: u64, tick: u64, id: u32, ch: Channel, n: u32) -> int {
    if n == 0 {
        0
    } else {
        (draw(seed, tick, id, ch) * n) / 0x1_0000_0000
    }
}

/// A draw below `n` is below `n`.
pub proof fn law_draw_below_bound(seed: u64, tick: u64, id: u32, ch: Channel, n: u32)
    ensures
        0 <= draw_below(seed, tick, id, ch, n),
        n > 0 ==> draw_below(seed, tick, id, ch, n) < n,
{
    let d = draw(seed, tick, id, ch);
    assert(0 <= d * n <= 0xffff_ffff * n) by (nonlinear_arith)
        requires
            0 <= d <= 0xffff_ffff,
            0 <= n,
    ;
}

/// Uniform in `[0, n)`; zero when `n` is zero. Multiply-high rather than
/// modulo, which keeps the distribution flat without a rejection loop.
pub fn rand_below(seed: u64, tick: u64, id: u32, ch: Channel, n: u32) -> (r: u32)
    ensures
        r == draw_below(seed, tick, id, ch, n),
        n > 0 ==> r < n,
{
    if n == 0 {
        return 0;
    }
    let d: u32 = rand(seed, tick, id, ch);
    proof {
        law_draw_below_bound(seed, tick, id, ch, n);
        assert(0 <= d * n <= 0xffff_ffff * 0xffff_ffff) by (nonlinear_arith)
            requires
                0 <= d <= 0xffff_ffff,
                0 <= n <= 0xffff_ffff,
        ;
    }
    let p: u64 = d as u64 * n as u64;
    (p / 0x1_0000_0000) as u32
}

pub open spec fn draw_range(seed: u64, tick: u64, id: u32, ch: Channel, lo: i32, hi: i32) -> int {
    if hi <= lo {
        lo as int
    } else {
        lo + draw_below(seed, tick, id, ch, (hi - lo) as u32)
    }
}

/// Uniform in `[lo, hi)`. Returns `lo` if the range is empty.
pub fn rand_range(seed: u64, tick: u64, id: u32, ch: Channel, lo: i32, hi: i32) -> (r: i32)
    ensures
        r == draw_range(seed, tick, id, ch, lo, hi),
        lo < hi ==> lo <= r < hi,
{
    if hi <= lo {
        return lo;
    }
    let span: u32 = (hi as i64 - lo as i64) as u32;
    let k: u32 = rand_below(seed, tick, id, ch, span);
    (lo as i64 + k as i64) as i32
}

pub open spec fn draw_unit(seed: u64, tick: u64, id: u32, ch: Channel) -> Fx {
    Fx((draw(seed, tick, id, ch) / 65536) as i32)
}

/// Uniform in `[0, 1)`.
pub fn rand_unit(seed: u64, tick: u64, id: u32, ch: Channel) -> (r: Fx)
    ensures
        r == draw_unit(seed, tick, id, ch),
        0 <= r.0 < ONE_RAW,
{
    Fx::from_raw((rand(seed, tick, id, ch) / 65_536) as i32)
}

pub open spec fn draw_signed(seed: u64, tick: u64, id: u32, ch: Channel) -> Fx {
    Fx((draw(seed, tick, id, ch) / 32768 - 65536) as i32)
}

/// Uniform in `[-1, 1)`.
pub fn rand_signed(seed: u64, tick: u64, id: u32, ch: Channel) -> (r: Fx)
    ensures
        r == draw_signed(seed, tick, id, ch),
        -ONE_RAW <= r.0 < ONE_RAW,
{
    Fx::from_raw((rand(seed, tick, id, ch) / 32_768) as i32 - ONE_RAW)
}

pub open spec fn draw_chance(
    seed: u64,
    tick: u64,
    id: u32,
    ch: Channel,
    num: u32,
    den: u32,
) -> bool {
    den != 0 && draw_below(seed, tick, id, ch, den) < num
}

/// True with probability `num / den`; false when `den` is zero.
pub fn rand_chance(seed: u64, tick: u64, id: u32, ch: Channel, num: u32, den: u32) -> (r: bool)
    ensures
        r == draw_chance(seed, tick, id, ch, num, den),
        num == 0 ==> !r,
        0 < den <= num ==> r,
{
    if den == 0 {
        return false;
    }
    proof {
        law_draw_below_bound(seed, tick, id, ch, den);
    }
    rand_below(seed, tick, id, ch, den) < num
}

} // verus!
