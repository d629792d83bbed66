//! Output sample formats and the state of the PCM converter (whether it
//! dithers, and its dither noise source).

use vstd::prelude::*;
use crate::config::FormatCfg;
use crate::rng::{Rng, xorshift, scramble};

verus! {

/// Output sample format written to the DAC.
#[derive(Debug, Clone, Copy, PartialEq, Eq)]
pub enum SampleFormat {
    S16Le,
    S32Le,
}

pub open spec fn spec_bits(f: SampleFormat) -> u32 {
    match f {
        SampleFormat::S16Le => 16,
        SampleFormat::S32Le => 32,
    }
}

impl SampleFormat {
    /// Bits per sample.
    pub fn bits(self) -> (b: u32)
        ensures
            b == spec_bits(self),
    {
        match self {
            SampleFormat::S16Le => 16,
            SampleFormat::S32Le => 32,
        }
    }
}

impl From<FormatCfg> for SampleFormat {
    fn from(f: FormatCfg) -> (r: SampleFormat) {
        match f {
            FormatCfg::S16Le => SampleFormat::S16Le,
            FormatCfg::S32Le => SampleFormat::S32Le,
        }
    }
}

impl vstd::std_specs::convert::FromSpecImpl<FormatCfg> for SampleFormat {
    open spec fn obeys_from_spec() -> bool {
        true
    }

    open spec fn from_spec(f: FormatCfg) -> SampleFormat {
        match f {
            FormatCfg::S16Le => SampleFormat::S16Le,
            FormatCfg::S32Le => SampleFormat::S32Le,
        }
    }
}

/// Seed of the converter's dither generator.
pub const DITHER_SEED: u64 = 0x9E37_79B9_7F4A_7C15;

/// Quantizer state: whether TPDF dither is applied, and its noise source.
pub struct Converter {
    dither: bool,
    rng: Rng,
}

impl Converter {
    /// Whether this converter dithers.
    pub closed spec fn spec_dither(&self) -> bool {
        self.dither
    }

    /// State of the dither generator.
    pub closed spec fn spec_rng_state(&self) -> u64 {
        self.rng@
    }

    /// A converter for `format`; dither is used only when asked for and the
    /// format has fewer than 32 bits (32-bit output never needs it).
    pub fn new(format: SampleFormat, dither: bool) -> (c: Converter)
        ensures
            c.spec_dither() == (dither && spec_bits(format) < 32),
            c.spec_rng_state() == DITHER_SEED | 1u64,
            c.spec_rng_state() != 0,
    {
        Converter { dither: dither && format.bits() < 32, rng: Rng::new(DITHER_SEED) }
    }

    /// Whether this converter dithers.
    pub fn dithers(&self) -> (b: bool)
        ensures
            b == self.spec_dither(),
    {
        self.dither
    }

    /// The two uniform 53-bit draws of one triangular (TPDF) dither value, or
    /// `None` when the converter does not dither (the generator then stays put).
    pub fn dither_draws(&mut self) -> (r: Option<(u64, u64)>)
        ensures
            final(self).spec_dither() == old(self).spec_dither(),
            !old(self).spec_dither() ==> r is None && final(self).spec_rng_state() == old(
                self,
            ).spec_rng_state(),
            old(self).spec_dither() ==> (r matches Some((a, b)) && a == scramble(
                xorshift(old(self).spec_rng_state()),
            ) >> 11u64 && b == scramble(xorshift(xorshift(old(self).spec_rng_state()))) >> 11u64
                && a < 0x20_0000_0000_0000u64 && b < 0x20_0000_0000_0000u64
                && final(self).spec_rng_state() == xorshift(
                xorshift(old(self).spec_rng_state()),
            )),
    {
        if !self.dither {
            return None;
        }
        let a = self.rng.next_u53();
        let b = self.rng.next_u53();
        Some((a, b))
    }
}

} // verus!
