//! Deterministic state hashing: FNV-1a, 64 bits, over a canonical byte
//! encoding.
//!
//! Order-sensitive on purpose, so a difference in the order in which state is
//! visited shows up as a difference in the hash.
use vstd::prelude::*;

verus! {

pub const FNV_OFFSET: u64 = 0xcbf2_9ce4_8422_2325;

pub const FNV_PRIME: u64 = 0x0000_0100_0000_01b3;

/// One round of FNV-1a.
pub open spec fn fnv_round(h: u64, b: u8) -> u64 {
    (h ^ (b as u64)).wrapping_mul(FNV_PRIME)
}

/// FNV-1a of `s`, continuing from state `h`.
pub open spec fn fnv(h: u64, s: Seq<u8>) -> u64
    decreases s.len(),
{
    if s.len() == 0 {
        h
    } else {
        fnv_round(fnv(h, s.drop_last()), s.last())
    }
}

/// Hashing one string after another is hashing the two joined.
pub proof fn law_fnv_concat(h: u64, a: Seq<u8>, b: Seq<u8>)
    ensures
        fnv(fnv(h, a), b) == fnv(h, a + b),
    decreases b.len(),
{
    if b.len() == 0 {
        assert(a + b =~= a);
    } else {
        law_fnv_concat(h, a, b.drop_last());
        assert((a + b).drop_last() =~= a + b.drop_last());
        assert((a + b).last() == b.last());
    }
}

pub open spec fn le16(v: u16) -> Seq<u8> {
    seq![(v % 256) as u8, (v / 256) as u8]
}

pub open spec fn le32(v: u32) -> Seq<u8> {
    seq![
        (v % 256) as u8,
        ((v / 256) % 256) as u8,
        ((v / 65536) % 256) as u8,
        (v / 16777216) as u8,
    ]
}

pub open spec fn le64(v: u64) -> Seq<u8> {
    le32((v % 0x1_0000_0000) as u32) + le32((v / 0x1_0000_0000) as u32)
}

pub open spec fn le_bool(v: bool) -> Seq<u8> {
    seq![if v { 1u8 } else { 0u8 }]
}

/// The running hash; the field is the FNV-1a state.
#[derive(Clone, Copy, Debug)]
pub struct Hasher(pub u64);

impl Default for Hasher {
    fn default() -> (r: Hasher)
        ensures
            r.0 == FNV_OFFSET,
    {
        Hasher::new()
    }
}

proof fn lemma_fnv_one(h: u64, b: u8)
    ensures
        fnv(h, seq![b]) == fnv_round(h, b),
{
    reveal_with_fuel(fnv, 2);
    assert(seq![b].drop_last() =~= Seq::<u8>::empty());
}

impl Hasher {
    pub fn new() -> (r: Hasher)
        ensures
            r.0 == FNV_OFFSET,
    {
        Hasher(FNV_OFFSET)
    }

    pub fn u8(&mut self, v: u8) -> (r: &mut Self)
        ensures
            r.0 == fnv(old(self).0, seq![v]),
            *final(self) == *final(r),
    {
        proof {
            lemma_fnv_one(self.0, v);
        }
        self.0 = (self.0 ^ (v as u64)).wrapping_mul(FNV_PRIME);
        self
    }

    pub fn bytes(&mut self, b: &[u8]) -> (r: &mut Self)
        ensures
            r.0 == fnv(old(self).0, b@),
            *final(self) == *final(r),
    {
        let mut i: usize = 0;
        while i < b.len()
            invariant
                i <= b.len(),
                self.0 == fnv(old(self).0, b@.take(i as int)),
            decreases b.len() - i,
        {
            proof {
                law_fnv_concat(old(self).0, b@.take(i as int), seq![b@[i as int]]);
                assert(b@.take(i + 1) =~= b@.take(i as int) + seq![b@[i as int]]);
            }
            self.u8(b[i]);
            i = i + 1;
        }
        assert(b@.take(i as int) =~= b@);
        self
    }

    pub fn u16(&mut self, v: u16) -> (r: &mut Self)
        ensures
            r.0 == fnv(old(self).0, le16(v)),
            *final(self) == *final(r),
    {
        proof {
            let (a, b) = (seq![(v % 256) as u8], seq![(v / 256) as u8]);
            law_fnv_concat(self.0, a, b);
            assert(le16(v) =~= a + b);
        }
        self.u8((v % 256) as u8).u8((v / 256) as u8)
    }

    pub fn u32(&mut self, v: u32) -> (r: &mut Self)
        ensures
            r.0 == fnv(old(self).0, le32(v)),
            *final(self) == *final(r),
    {
        proof {
            let a = seq![(v % 256) as u8];
            let b = seq![((v / 256) % 256) as u8];
            let c = seq![((v / 65536) % 256) as u8];
            let d = seq![(v / 16777216) as u8];
            law_fnv_concat(self.0, a, b);
            law_fnv_concat(self.0, a + b, c);
            law_fnv_concat(self.0, a + b + c, d);
            assert(le32(v) =~= a + b + c + d);
        }
        self.u8((v % 256) as u8).u8(((v / 256) % 256) as u8).u8(((v / 65_536) % 256) as u8).u8(
            (v / 16_777_216) as u8,
        )
    }

    pub fn u64(&mut self, v: u64) -> (r: &mut Self)
        ensures
            r.0 == fnv(old(self).0, le64(v)),
            *final(self) == *final(r),
    {
        proof {
            law_fnv_concat(
                self.0,
                le32((v % 0x1_0000_0000) as u32),
                le32((v / 0x1_0000_0000) as u32),
            );
        }
        self.u32((v % 0x1_0000_0000) as u32).u32((v / 0x1_0000_0000) as u32)
    }

    pub fn i32(&mut self, v: i32) -> (r: &mut Self)
        ensures
            r.0 == fnv(old(self).0, le32(v as u32)),
            *final(self) == *final(r),
    {
        self.u32(#[verifier::truncate] (v as u32))
    }

    pub fn bool(&mut self, v: bool) -> (r: &mut Self)
        ensures
            r.0 == fnv(old(self).0, le_bool(v)),
            *final(self) == *final(r),
    {
        self.u8(if v { 1 } else { 0 })
    }

    pub fn finish(&self) -> (r: u64)
        ensures
            r == self.0,
    {
        self.0
    }
}

/// Anything that contributes to the canonical state hash.
pub trait Hashable {
    /// The state after hashing `self`, continuing from state `h`.
    spec fn digest(&self, h: u64) -> u64;

    fn hash_into(&self, h: &mut Hasher)
        ensures
            final(h).0 == self.digest(old(h).0),
    ;
}

/// The state after hashing each value of `s` in order, as [`le64`] encodes it.
pub open spec fn digest_u64s(h: u64, s: Seq<u64>) -> u64
    decreases s.len(),
{
    if s.len() == 0 {
        h
    } else {
        fnv(digest_u64s(h, s.drop_last()), le64(s.last()))
    }
}

/// The state after hashing each value of `s` in order, as [`le16`] encodes it.
pub open spec fn digest_u16s(h: u64, s: Seq<u16>) -> u64
    decreases s.len(),
{
    if s.len() == 0 {
        h
    } else {
        fnv(digest_u16s(h, s.drop_last()), le16(s.last()))
    }
}

/// The state after hashing each value of `s` in order, as [`le32`] encodes it.
pub open spec fn digest_u32s(h: u64, s: Seq<u32>) -> u64
    decreases s.len(),
{
    if s.len() == 0 {
        h
    } else {
        fnv(digest_u32s(h, s.drop_last()), le32(s.last()))
    }
}

/// The state after hashing each value of `s` in order, its two's complement as
/// [`le32`] encodes it.
pub open spec fn digest_i32s(h: u64, s: Seq<i32>) -> u64
    decreases s.len(),
{
    if s.len() == 0 {
        h
    } else {
        fnv(digest_i32s(h, s.drop_last()), le32(s.last() as u32))
    }
}

impl Hasher {
    pub fn u64s(&mut self, s: &[u64]) -> (r: &mut Self)
        ensures
            r.0 == digest_u64s(old(self).0, s@),
            *final(self) == *final(r),
    {
        let mut i: usize = 0;
        while i < s.len()
            invariant
                i <= s.len(),
                self.0 == digest_u64s(old(self).0, s@.take(i as int)),
            decreases s.len() - i,
        {
            assert(s@.take(i + 1).drop_last() =~= s@.take(i as int));
            self.u64(s[i]);
            i = i + 1;
        }
        assert(s@.take(i as int) =~= s@);
        self
    }

    pub fn u16s(&mut self, s: &[u16]) -> (r: &mut Self)
        ensures
            r.0 == digest_u16s(old(self).0, s@),
            *final(self) == *final(r),
    {
        let mut i: usize = 0;
        while i < s.len()
            invariant
                i <= s.len(),
                self.0 == digest_u16s(old(self).0, s@.take(i as int)),
            decreases s.len() - i,
        {
            assert(s@.take(i + 1).drop_last() =~= s@.take(i as int));
            self.u16(s[i]);
            i = i + 1;
        }
        assert(s@.take(i as int) =~= s@);
        self
    }

    pub fn u32s(&mut self, s: &[u32]) -> (r: &mut Self)
        ensures
            r.0 == digest_u32s(old(self).0, s@),
            *final(self) == *final(r),
    {
        let mut i: usize = 0;
        while i < s.len()
            invariant
                i <= s.len(),
                self.0 == digest_u32s(old(self).0, s@.take(i as int)),
            decreases s.len() - i,
        {
            assert(s@.take(i + 1).drop_last() =~= s@.take(i as int));
            self.u32(s[i]);
            i = i + 1;
        }
        assert(s@.take(i as int) =~= s@);
        self
    }

    pub fn i32s(&mut self, s: &[i32]) -> (r: &mut Self)
        ensures
            r.0 == digest_i32s(old(self).0, s@),
            *final(self) == *final(r),
    {
        let mut i: usize = 0;
        while i < s.len()
            invariant
                i <= s.len(),
                self.0 == digest_i32s(old(self).0, s@.take(i as int)),
            decreases s.len() - i,
        {
            assert(s@.take(i + 1).drop_last() =~= s@.take(i as int));
            self.i32(s[i]);
            i = i + 1;
        }
        assert(s@.take(i as int) =~= s@);
        self
    }
}

} // verus!
