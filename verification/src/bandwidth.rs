//! A data rate, counted in whole bits per second.

use vstd::prelude::*;

verus! {

/// Bits per second in one kilobit per second.
pub const BPS_PER_KBPS: u128 = 1_000;

/// Bits per second in one megabit per second.
pub const BPS_PER_MBPS: u128 = 1_000_000;

/// Bits per second in one gigabit per second.
pub const BPS_PER_GBPS: u128 = 1_000_000_000;

/// The highest rate a [`Bandwidth`] can hold, in bits per second:
/// `u64::MAX` whole gigabits per second and 999 999 999 bits per second more.
pub const MAX_BPS: u128 = 18_446_744_073_709_551_615_999_999_999;

/// A data rate with a precision of one bit per second.
///
/// Its view is the rate in bits per second. Every value lies between zero
/// and [`MAX_BPS`].
#[derive(Clone, Copy, Debug, PartialEq, Eq, Structural)]
pub struct Bandwidth {
    pub(crate) bps: u128,
}

impl View for Bandwidth {
    type V = nat;

    open(crate) spec fn view(&self) -> nat {
        self.bps as nat
    }
}

impl DeepView for Bandwidth {
    type V = nat;

    open(crate) spec fn deep_view(&self) -> nat {
        self.bps as nat
    }
}

impl Bandwidth {
    #[verifier::type_invariant]
    pub open(crate) spec fn in_range(self) -> bool {
        self.bps <= MAX_BPS
    }

    /// The rate at which nothing passes.
    pub open(crate) spec fn spec_zero() -> Bandwidth {
        Bandwidth { bps: 0 }
    }

    /// The rate at which nothing passes.
    #[verifier::when_used_as_spec(spec_zero)]
    pub fn zero() -> (b: Bandwidth)
        ensures
            b == Self::spec_zero(),
            b@ == 0,
    {
        Bandwidth { bps: 0 }
    }

    /// A rate of `gbps` whole gigabits per second and `bps` bits per second
    /// more, or `None` where that is above the highest rate.
    pub fn new(gbps: u64, bps: u32) -> (r: Option<Bandwidth>)
        ensures
            gbps * BPS_PER_GBPS + bps <= MAX_BPS ==> r is Some && r->0@ == gbps * BPS_PER_GBPS
                + bps,
            gbps * BPS_PER_GBPS + bps > MAX_BPS ==> r is None,
    {
        let total: u128 = (gbps as u128) * BPS_PER_GBPS + (bps as u128);
        if total <= MAX_BPS {
            Some(Bandwidth { bps: total })
        } else {
            None
        }
    }

    /// A rate of `mbps` megabits per second.
    pub open(crate) spec fn spec_from_mbps(mbps: u64) -> Bandwidth {
        Bandwidth { bps: (mbps * BPS_PER_MBPS) as u128 }
    }

    /// A rate of `mbps` megabits per second.
    #[verifier::when_used_as_spec(spec_from_mbps)]
    pub fn from_mbps(mbps: u64) -> (b: Bandwidth)
        ensures
            b == Self::spec_from_mbps(mbps),
            b@ == mbps * BPS_PER_MBPS,
    {
        Bandwidth { bps: (mbps as u128) * BPS_PER_MBPS }
    }

    /// A rate of `kbps` kilobits per second.
    pub open(crate) spec fn spec_from_kbps(kbps: u64) -> Bandwidth {
        Bandwidth { bps: (kbps * BPS_PER_KBPS) as u128 }
    }

    /// A rate of `kbps` kilobits per second.
    #[verifier::when_used_as_spec(spec_from_kbps)]
    pub fn from_kbps(kbps: u64) -> (b: Bandwidth)
        ensures
            b == Self::spec_from_kbps(kbps),
            b@ == kbps * BPS_PER_KBPS,
    {
        Bandwidth { bps: (kbps as u128) * BPS_PER_KBPS }
    }

    /// A rate of `bps` bits per second.
    pub open(crate) spec fn spec_from_bps(bps: u64) -> Bandwidth {
        Bandwidth { bps: bps as u128 }
    }

    /// A rate of `bps` bits per second.
    #[verifier::when_used_as_spec(spec_from_bps)]
    pub fn from_bps(bps: u64) -> (b: Bandwidth)
        ensures
            b == Self::spec_from_bps(bps),
            b@ == bps,
    {
        Bandwidth { bps: bps as u128 }
    }

    /// The whole rate in bits per second.
    pub fn as_bps(&self) -> (r: u128)
        ensures
            r == self@,
            r <= MAX_BPS,
    {
        proof {
            use_type_invariant(self);
        }
        self.bps
    }

    /// The whole gigabits per second in the rate.
    pub fn as_gbps(&self) -> (r: u64)
        ensures
            r == self@ / (BPS_PER_GBPS as nat),
    {
        proof {
            use_type_invariant(self);
        }
        (self.bps / BPS_PER_GBPS) as u64
    }

    /// The part of the rate below one gigabit per second, in bits per second.
    pub fn subgbps_bps(&self) -> (r: u32)
        ensures
            r == self@ % (BPS_PER_GBPS as nat),
    {
        (self.bps % BPS_PER_GBPS) as u32
    }

    /// The rate in bits per second, cut off at `u64::MAX`.
    pub fn saturating_as_bps_u64(&self) -> (r: u64)
        ensures
            r == if self@ <= u64::MAX { self@ } else { u64::MAX as nat },
    {
        if self.bps <= u64::MAX as u128 {
            self.bps as u64
        } else {
            u64::MAX
        }
    }
}

/// The rate of an optional bandwidth.
pub open spec fn rate_of(bw: Option<Bandwidth>) -> Option<nat> {
    match bw {
        Some(b) => Some(b@),
        None => None,
    }
}

} // verus!
