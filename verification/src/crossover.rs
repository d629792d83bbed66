//! Filter vocabulary and the section structure of crossover filters: how many
//! second-order (and first-order) sections each alignment and order uses.

use vstd::prelude::*;
use crate::config::{BandKindCfg, XoverKindCfg};

verus! {

/// Crossover alignment.
#[derive(Debug, Clone, Copy, PartialEq, Eq)]
pub enum CrossoverKind {
    /// Maximally-flat Butterworth. Orders 1..=8 (6..48 dB per octave).
    Butterworth,
    /// Linkwitz-Riley: two Butterworth filters of half the order (in phase,
    /// flat power summing).
    LinkwitzRiley,
    /// Bessel, maximally-flat group delay. Orders 1..=4.
    Bessel,
}

/// The kind of a parametric EQ band.
#[derive(Debug, Clone, Copy, PartialEq, Eq)]
pub enum BandKind {
    Peaking,
    LowShelf,
    HighShelf,
    LowPass,
    HighPass,
    Notch,
    BandPass,
    AllPass,
}

/// The sections that realize one filter: `second_order` biquads, then a
/// trailing first-order section when `first_order` is set.
#[derive(Debug, Clone, Copy, PartialEq, Eq)]
pub struct SectionPlan {
    pub second_order: usize,
    pub first_order: bool,
}

/// Butterworth sections of order `n`: `n / 2` biquads, plus a first-order
/// section for odd `n`.
pub open spec fn butterworth_spec(n: int) -> SectionPlan {
    SectionPlan { second_order: (n / 2) as usize, first_order: n % 2 == 1 }
}

/// The Bessel order actually built: `order` clamped to `1..=4`.
pub open spec fn bessel_order(order: int) -> int {
    if order < 1 {
        1
    } else if order > 4 {
        4
    } else {
        order
    }
}

/// Bessel sections of an order in `1..=4`.
pub open spec fn bessel_spec(order: int) -> SectionPlan {
    let n = bessel_order(order);
    SectionPlan { second_order: (n / 2) as usize, first_order: n % 2 == 1 }
}

/// The Butterworth order of each of the two cascaded halves of a
/// Linkwitz-Riley filter: half the order, at least 1 (odd orders round down).
pub open spec fn lr_half(order: int) -> int {
    if order / 2 >= 1 {
        order / 2
    } else {
        1
    }
}

/// Number of biquad stages in the low-pass (or high-pass) chain of a
/// crossover of this kind and order.
pub open spec fn spec_stage_count(kind: CrossoverKind, order: int) -> int {
    match kind {
        CrossoverKind::Butterworth => order / 2 + order % 2,
        CrossoverKind::Bessel => bessel_order(order) / 2 + bessel_order(order) % 2,
        CrossoverKind::LinkwitzRiley => 2 * (lr_half(order) / 2 + lr_half(order) % 2),
    }
}

/// Sections of a Butterworth filter of order `n`.
pub fn butterworth_sections(n: usize) -> (p: SectionPlan)
    ensures
        p == butterworth_spec(n as int),
{
    SectionPlan { second_order: n / 2, first_order: n % 2 == 1 }
}

/// Sections of a Bessel filter; the order is clamped to `1..=4`.
pub fn bessel_sections(order: usize) -> (p: SectionPlan)
    ensures
        p == bessel_spec(order as int),
        p.second_order + (if p.first_order {
            1int
        } else {
            0
        }) >= 1,
{
    let n = if order < 1 {
        1
    } else if order > 4 {
        4
    } else {
        order
    };
    SectionPlan { second_order: n / 2, first_order: n % 2 == 1 }
}

/// Butterworth order of each half of a Linkwitz-Riley filter of `order`.
pub fn linkwitz_riley_half(order: usize) -> (h: usize)
    ensures
        h == lr_half(order as int),
        h >= 1,
{
    let h = order / 2;
    if h >= 1 {
        h
    } else {
        1
    }
}

impl CrossoverKind {
    /// The sections of one low-pass or high-pass filter of this kind and
    /// order, and how many times they are cascaded (Linkwitz-Riley is two
    /// Butterworth filters of half the order).
    pub fn plan(self, order: usize) -> (r: (SectionPlan, usize))
        ensures
            r.0 == match self {
                CrossoverKind::Butterworth => butterworth_spec(order as int),
                CrossoverKind::Bessel => bessel_spec(order as int),
                CrossoverKind::LinkwitzRiley => butterworth_spec(lr_half(order as int)),
            },
            r.1 == if self == CrossoverKind::LinkwitzRiley {
                2usize
            } else {
                1usize
            },
            r.1 * (r.0.second_order + (if r.0.first_order {
                1int
            } else {
                0
            })) == spec_stage_count(self, order as int),
    {
        match self {
            CrossoverKind::Butterworth => (butterworth_sections(order), 1),
            CrossoverKind::Bessel => (bessel_sections(order), 1),
            CrossoverKind::LinkwitzRiley => (butterworth_sections(linkwitz_riley_half(order)), 2),
        }
    }

    /// Number of biquad stages in one filter of this kind and order.
    pub fn stage_count(self, order: usize) -> (n: usize)
        ensures
            n == spec_stage_count(self, order as int),
    {
        let (p, copies) = self.plan(order);
        let per = p.second_order + if p.first_order {
            1
        } else {
            0
        };
        copies * per
    }
}

/// Law: a Linkwitz-Riley filter of order `n >= 2` has exactly twice the
/// stages of a Butterworth filter of order `n / 2` (rounded down).
pub proof fn law_crossover_stages(order: int)
    requires
        order >= 2,
    ensures
        spec_stage_count(CrossoverKind::LinkwitzRiley, order) == 2 * spec_stage_count(
            CrossoverKind::Butterworth,
            order / 2,
        ),
{
}

/// Law: a Butterworth filter of order `n` is realized with exactly its order:
/// each second-order section contributes two poles and the first-order
/// section one, so `2 * second_order + first_order == n`, and the
/// first-order section is there exactly when `n` is odd. A Linkwitz-Riley
/// filter of even order `n >= 2` is two such halves of order `n / 2`, so its
/// sections again add up to `n` poles.
pub proof fn law_butterworth_poles(n: usize)
    ensures
        2 * butterworth_spec(n as int).second_order + (if butterworth_spec(n as int).first_order {
            1int
        } else {
            0
        }) == n,
        butterworth_spec(n as int).first_order <==> n % 2 == 1,
        n >= 2 && n % 2 == 0 ==> 2 * (2 * butterworth_spec(lr_half(n as int)).second_order + (
        if butterworth_spec(lr_half(n as int)).first_order {
            1int
        } else {
            0
        })) == n,
{
}

/// Law: whatever order is asked for, a Bessel filter has one or two stages.
pub proof fn law_bessel_stages(order: int)
    ensures
        1 <= spec_stage_count(CrossoverKind::Bessel, order) <= 2,
{
}

impl From<XoverKindCfg> for CrossoverKind {
    fn from(k: XoverKindCfg) -> (r: CrossoverKind) {
        match k {
            XoverKindCfg::Butterworth => CrossoverKind::Butterworth,
            XoverKindCfg::LinkwitzRiley => CrossoverKind::LinkwitzRiley,
            XoverKindCfg::Bessel => CrossoverKind::Bessel,
        }
    }
}

impl vstd::std_specs::convert::FromSpecImpl<XoverKindCfg> for CrossoverKind {
    open spec fn obeys_from_spec() -> bool {
        true
    }

    open spec fn from_spec(k: XoverKindCfg) -> CrossoverKind {
        match k {
            XoverKindCfg::Butterworth => CrossoverKind::Butterworth,
            XoverKindCfg::LinkwitzRiley => CrossoverKind::LinkwitzRiley,
            XoverKindCfg::Bessel => CrossoverKind::Bessel,
        }
    }
}

impl From<BandKindCfg> for BandKind {
    fn from(k: BandKindCfg) -> (r: BandKind) {
        match k {
            BandKindCfg::Peaking => BandKind::Peaking,
            BandKindCfg::LowShelf => BandKind::LowShelf,
            BandKindCfg::HighShelf => BandKind::HighShelf,
            BandKindCfg::LowPass => BandKind::LowPass,
            BandKindCfg::HighPass => BandKind::HighPass,
            BandKindCfg::Notch => BandKind::Notch,
            BandKindCfg::BandPass => BandKind::BandPass,
            BandKindCfg::AllPass => BandKind::AllPass,
        }
    }
}

impl vstd::std_specs::convert::FromSpecImpl<BandKindCfg> for BandKind {
    open spec fn obeys_from_spec() -> bool {
        true
    }

    open spec fn from_spec(k: BandKindCfg) -> BandKind {
        match k {
            BandKindCfg::Peaking => BandKind::Peaking,
            BandKindCfg::LowShelf => BandKind::LowShelf,
            BandKindCfg::HighShelf => BandKind::HighShelf,
            BandKindCfg::LowPass => BandKind::LowPass,
            BandKindCfg::HighPass => BandKind::HighPass,
            BandKindCfg::Notch => BandKind::Notch,
            BandKindCfg::BandPass => BandKind::BandPass,
            BandKindCfg::AllPass => BandKind::AllPass,
        }
    }
}

} // verus!
