//! A share of a whole, counted in parts per billion.

use vstd::prelude::*;

verus! {

/// Parts per billion in the whole.
pub const PPB_PER_ONE: u32 = 1_000_000_000;

/// A share between nothing and the whole, with a precision of one part per
/// billion. It stands for a probability or for a part of a period.
///
/// Its view is the share in parts per billion, at most [`PPB_PER_ONE`].
#[derive(Clone, Copy, Debug, PartialEq, Eq, Structural)]
pub struct Ratio {
    pub(crate) ppb: u32,
}

impl View for Ratio {
    type V = nat;

    open(crate) spec fn view(&self) -> nat {
        self.ppb as nat
    }
}

impl DeepView for Ratio {
    type V = nat;

    open(crate) spec fn deep_view(&self) -> nat {
        self.ppb as nat
    }
}

impl Ratio {
    #[verifier::type_invariant]
    pub open(crate) spec fn in_range(self) -> bool {
        self.ppb <= PPB_PER_ONE
    }

    /// The share of `ppb` parts per billion, or `None` where that is more
    /// than the whole.
    pub fn from_ppb(ppb: u32) -> (r: Option<Ratio>)
        ensures
            ppb <= PPB_PER_ONE ==> r is Some && r->0@ == ppb,
            ppb > PPB_PER_ONE ==> r is None,
    {
        if ppb <= PPB_PER_ONE {
            Some(Ratio { ppb })
        } else {
            None
        }
    }

    /// The share in parts per billion.
    pub fn as_ppb(&self) -> (r: u32)
        ensures
            r == self@,
            r <= PPB_PER_ONE,
    {
        proof {
            use_type_invariant(self);
        }
        self.ppb
    }
}

/// Copies a list of shares.
pub fn copy_ratios(ratios: &Vec<Ratio>) -> (r: Vec<Ratio>)
    ensures
        r@ == ratios@,
        r.deep_view() == ratios.deep_view(),
{
    let mut r: Vec<Ratio> = Vec::new();
    let mut i: usize = 0;
    while i < ratios.len()
        invariant
            i <= ratios.len(),
            r@ == ratios@.take(i as int),
        decreases ratios.len() - i,
    {
        r.push(ratios[i]);
        assert(ratios@.take(i + 1) =~= ratios@.take(i as int).push(ratios@[i as int]));
        i = i + 1;
    }
    assert(ratios@.take(ratios.len() as int) =~= ratios@);
    assert(r.deep_view() =~= ratios.deep_view());
    r
}

} // verus!
