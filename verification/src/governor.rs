//! Bounded churn: an aggregate rate passes through a governor, which grants
//! never more than the ceiling in one terrain tick, never more than is asked
//! for, and in the long run no more than `nominal` per tick beyond one burst.
use crate::fx::{max_int, min_int};
use crate::hash::{fnv, le64, Hashable, Hasher};
use crate::race::RateBand;
use vstd::prelude::*;

verus! {

/// The outcome of one settlement.
#[derive(Clone, Copy, PartialEq, Eq, Debug, Structural)]
pub struct Grant {
    /// What may be applied this tick; never more than the demand.
    pub granted: u64,
    /// Always zero: nothing is granted that was not asked for.
    pub forced: u64,
    /// Demand refused.
    pub clipped: u64,
}

impl Default for Grant {
    fn default() -> (r: Grant)
        ensures
            r == (Grant { granted: 0, forced: 0, clipped: 0 }),
    {
        Grant { granted: 0, forced: 0, clipped: 0 }
    }
}

#[derive(Clone, Copy, PartialEq, Eq, Debug, Structural)]
pub struct Governor {
    pub band: RateBand,
    /// Banked budget, at most the band's burst cap.
    pub bucket: u64,
}

impl Governor {
    /// The bucket holds no more than the band lets it bank.
    pub open spec fn wf(self) -> bool {
        self.bucket <= self.band.spec_burst_cap()
    }

    /// The bucket once this tick's budget has accrued.
    pub open spec fn accrued(self) -> int {
        min_int(
            min_int(self.bucket + self.band.nominal, u64::MAX as int),
            self.band.spec_burst_cap(),
        )
    }

    /// What a demand is granted: at most what is banked above the reserve, and
    /// at most the ceiling.
    pub open spec fn payable(self, demand: u64) -> int {
        min_int(
            min_int(demand as int, max_int(self.accrued() - self.band.floor, 0)),
            self.band.ceiling as int,
        )
    }

    pub open spec fn settled(self, demand: u64) -> Governor {
        Governor {
            band: self.band,
            bucket: (self.accrued() - self.payable(demand)) as u64,
        }
    }

    /// Starts with a full bucket, so that it can respond at once.
    pub fn new(band: RateBand) -> (r: Governor)
        ensures
            r.band == band,
            r.bucket == band.spec_burst_cap(),
            r.wf(),
    {
        Governor { band, bucket: band.burst_cap() }
    }

    pub fn band(&self) -> (r: RateBand)
        ensures
            r == self.band,
    {
        self.band
    }

    /// The governor under another band: its bucket carries over, clamped to
    /// what the new band lets it bank.
    pub open spec fn rebanded(self, band: RateBand) -> Governor {
        Governor { band, bucket: min_int(self.bucket as int, band.spec_burst_cap()) as u64 }
    }

    /// Re-band a running governor. The bucket carries over, clamped to what
    /// the new band lets it bank.
    pub fn set_band(&mut self, band: RateBand)
        ensures
            *final(self) == old(self).rebanded(band),
            final(self).bucket == min_int(old(self).bucket as int, band.spec_burst_cap()),
            final(self).wf(),
    {
        self.band = band;
        let cap: u64 = band.burst_cap();
        if cap <= self.bucket {
            self.bucket = cap;
        }
    }

    pub fn bucket(&self) -> (r: u64)
        ensures
            r == self.bucket,
    {
        self.bucket
    }

    /// Settle one terrain tick's demand: accrue, then pay what the bucket
    /// above its reserve and the ceiling allow.
    pub fn settle(&mut self, demand: u64) -> (r: Grant)
        ensures
            *final(self) == old(self).settled(demand),
            final(self).wf(),
            r.granted == old(self).payable(demand),
            r.granted <= demand,
            r.granted <= old(self).band.ceiling,
            r.granted + r.clipped == demand,
            r.granted > 0 ==> final(self).bucket >= old(self).band.floor,
            r.forced == 0,
    {
        let cap: u64 = self.band.burst_cap();
        let full: u64 = self.bucket.saturating_add(self.band.nominal as u64);
        self.bucket = if full < cap {
            full
        } else {
            cap
        };
        let spendable: u64 = self.bucket.saturating_sub(self.band.floor as u64);
        let mut payable: u64 = if demand < spendable {
            demand
        } else {
            spendable
        };
        if payable > self.band.ceiling as u64 {
            payable = self.band.ceiling as u64;
        }
        self.bucket = self.bucket - payable;
        Grant { granted: payable, forced: 0, clipped: demand - payable }
    }
}

/// The governor after settling every demand of `ds` in order.
pub open spec fn settled_all(g: Governor, ds: Seq<u64>) -> Governor
    decreases ds.len(),
{
    if ds.len() == 0 {
        g
    } else {
        settled_all(g, ds.drop_last()).settled(ds.last())
    }
}

/// What is granted in all for the demands `ds`.
pub open spec fn granted_all(g: Governor, ds: Seq<u64>) -> int
    decreases ds.len(),
{
    if ds.len() == 0 {
        0
    } else {
        granted_all(g, ds.drop_last()) + settled_all(g, ds.drop_last()).payable(ds.last())
    }
}

/// Settling keeps the band, and keeps the bucket within it.
pub proof fn law_settle_keeps_wf(g: Governor, ds: Seq<u64>)
    requires
        g.wf(),
    ensures
        settled_all(g, ds).wf(),
        settled_all(g, ds).band == g.band,
    decreases ds.len(),
{
    if ds.len() > 0 {
        law_settle_keeps_wf(g, ds.drop_last());
        lemma_payable(settled_all(g, ds.drop_last()), ds.last());
    }
}

proof fn lemma_payable(g: Governor, d: u64)
    requires
        g.wf(),
    ensures
        0 <= g.payable(d) <= g.accrued() <= u64::MAX,
        g.accrued() <= g.bucket + g.band.nominal,
        g.settled(d).wf(),
        g.settled(d).bucket == g.accrued() - g.payable(d),
{
    assert(0 <= g.band.spec_burst_cap()) by (nonlinear_arith)
        requires
            g.band.spec_burst_cap() == g.band.nominal * g.band.burst_ticks,
    ;
}

/// Over any run of settlements the total granted is at most what was banked
/// at the start plus `nominal` per tick, and at most the ceiling per tick.
pub proof fn law_long_run_rate_is_bounded(g: Governor, ds: Seq<u64>)
    requires
        g.wf(),
    ensures
        granted_all(g, ds) + settled_all(g, ds).bucket <= g.bucket + ds.len() * g.band.nominal,
        granted_all(g, ds) <= g.band.spec_burst_cap() + ds.len() * g.band.nominal,
        granted_all(g, ds) <= ds.len() * g.band.ceiling,
    decreases ds.len(),
{
    if ds.len() > 0 {
        let p = ds.drop_last();
        law_long_run_rate_is_bounded(g, p);
        law_settle_keeps_wf(g, p);
        lemma_payable(settled_all(g, p), ds.last());
        let n = ds.len() as int;
        assert(n * g.band.nominal == (n - 1) * g.band.nominal + g.band.nominal) by (nonlinear_arith);
        assert(n * g.band.ceiling == (n - 1) * g.band.ceiling + g.band.ceiling) by (nonlinear_arith);
    }
}

/// Under demand that never falls below the ceiling, every tick is granted at
/// least `nominal`, once the reserve is banked and the band can bank one
/// tick's budget above it: with the bound above, the average converges to
/// `nominal`.
pub proof fn law_sustained_demand_is_granted_nominal(g: Governor, ds: Seq<u64>)
    requires
        g.wf(),
        g.band.is_valid(),
        g.bucket >= g.band.floor,
        g.band.floor + g.band.nominal <= g.band.spec_burst_cap(),
        forall|i: int| 0 <= i < ds.len() ==> #[trigger] ds[i] >= g.band.ceiling,
    ensures
        granted_all(g, ds) >= ds.len() * g.band.nominal,
        settled_all(g, ds).bucket >= g.band.floor,
    decreases ds.len(),
{
    if ds.len() > 0 {
        let p = ds.drop_last();
        assert forall|i: int| 0 <= i < p.len() implies #[trigger] p[i] >= g.band.ceiling by {
            assert(p[i] == ds[i]);
        }
        law_sustained_demand_is_granted_nominal(g, p);
        law_settle_keeps_wf(g, p);
        let h = settled_all(g, p);
        lemma_payable(h, ds.last());
        assert(ds[ds.len() - 1] >= g.band.ceiling);
        let n = ds.len() as int;
        assert(g.band.spec_burst_cap() <= 0xffff_ffff * 0xffff_ffff) by (nonlinear_arith)
            requires
                g.band.spec_burst_cap() == g.band.nominal * g.band.burst_ticks,
                0 <= g.band.nominal <= 0xffff_ffff,
                0 <= g.band.burst_ticks <= 0xffff_ffff,
        ;
        assert(n * g.band.nominal == (n - 1) * g.band.nominal + g.band.nominal) by (nonlinear_arith);
    }
}

pub open spec fn governor_digest(h: u64, g: Governor) -> u64 {
    fnv(g.band.digest(h), le64(g.bucket))
}

impl Hashable for Governor {
    open spec fn digest(&self, h: u64) -> u64 {
        governor_digest(h, *self)
    }

    fn hash_into(&self, h: &mut Hasher) {
        self.band.hash_into(h);
        h.u64(self.bucket);
    }
}

impl Hashable for Grant {
    open spec fn digest(&self, h: u64) -> u64 {
        fnv(fnv(fnv(h, le64(self.granted)), le64(self.forced)), le64(self.clipped))
    }

    fn hash_into(&self, h: &mut Hasher) {
        h.u64(self.granted).u64(self.forced).u64(self.clipped);
    }
}

} // verus!
