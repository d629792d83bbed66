//! Configuration vocabulary and the shape rules of a DSP graph: default device
//! settings, enum choices, and how many input and output channels a
//! configuration describes.

use vstd::prelude::*;
use crate::routing::first_width;

verus! {

/// Default sample rate in Hz.
pub fn default_sample_rate() -> (r: u32)
    ensures
        r == 48000,
{
    48_000
}

/// Default ALSA playback device.
pub fn default_device() -> (s: String)
    ensures
        s@ == "hw:CARD=BossDAC,DEV=0"@,
{
    String::from_str("hw:CARD=BossDAC,DEV=0")
}

/// Default output format.
pub fn default_format() -> (f: FormatCfg)
    ensures
        f == FormatCfg::S32Le,
{
    FormatCfg::S32Le
}

/// Default ALSA period, in frames.
pub fn default_period() -> (r: u32)
    ensures
        r == 1024,
{
    1024
}

/// Default ALSA buffer, in frames.
pub fn default_buffer() -> (r: u32)
    ensures
        r == 4096,
{
    4096
}

/// Output sample format as named in a configuration file.
#[derive(Debug, Clone, Copy, PartialEq, Eq)]
pub enum FormatCfg {
    S16Le,
    S32Le,
}

/// Built-in input-to-output routing choices.
#[derive(Debug, Clone, Copy, PartialEq, Eq)]
pub enum RoutingPreset {
    Stereo,
    Mono,
    LeftToBoth,
    RightToBoth,
    Swap,
    Custom,
}

impl RoutingPreset {
    /// The preset a configuration gets when it names none.
    pub fn default_preset() -> (p: RoutingPreset)
        ensures
            p == RoutingPreset::Stereo,
    {
        RoutingPreset::Stereo
    }
}

/// Parametric EQ band kind as named in a configuration file.
#[derive(Debug, Clone, Copy, PartialEq, Eq)]
pub enum BandKindCfg {
    Peaking,
    LowShelf,
    HighShelf,
    LowPass,
    HighPass,
    Notch,
    BandPass,
    AllPass,
}

/// Crossover alignment as named in a configuration file.
#[derive(Debug, Clone, Copy, PartialEq, Eq)]
pub enum XoverKindCfg {
    Butterworth,
    LinkwitzRiley,
    Bessel,
}

/// Which side of a crossover a channel takes.
#[derive(Debug, Clone, Copy, PartialEq, Eq)]
pub enum XoverRole {
    LowPass,
    HighPass,
    /// High-pass at `freq`, then low-pass at `freq_high`.
    BandPass,
}

/// Input channels of a configuration: the width of the first row of a custom
/// matrix (2 when it has no rows), and 2 in every other case.
pub open spec fn config_inputs<T>(preset: RoutingPreset, matrix: Option<Vec<Vec<T>>>) -> int {
    match matrix {
        Some(rows) => if preset == RoutingPreset::Custom {
            if rows@.len() == 0 {
                2
            } else {
                first_width(rows@) as int
            }
        } else {
            2
        },
        None => 2,
    }
}

/// Output channels of a configuration with `n_channels` channel strips: one
/// per strip, or 2 when there are none.
pub open spec fn config_outputs(n_channels: int) -> int {
    if n_channels == 0 {
        2
    } else {
        n_channels
    }
}

/// Law: a configuration has one output per channel strip: with `k >= 1`
/// strips it drives exactly `k` outputs (so its strips always pass the strip
/// count check); only a configuration with no strips falls back to stereo.
pub proof fn law_one_output_per_strip(k: nat)
    ensures
        k >= 1 ==> config_outputs(k as int) == k,
        k == 0 ==> config_outputs(k as int) == 2,
        forall|j: nat| j >= 1 && config_outputs(j as int) == config_outputs(k as int) && k >= 1 ==> j == k,
{
}

/// Number of input channels a configuration expects from its source: the
/// width of the first row of a custom matrix (2 when it has no rows), and 2
/// for every other case.
pub fn config_n_in<T>(preset: RoutingPreset, matrix: &Option<Vec<Vec<T>>>) -> (n: usize)
    ensures
        n == config_inputs(preset, *matrix),
{
    match matrix {
        Some(rows) => {
            match preset {
                RoutingPreset::Custom => {
                    if rows.len() == 0 {
                        2
                    } else {
                        rows[0].len()
                    }
                },
                _ => 2,
            }
        },
        None => 2,
    }
}

/// Number of output channels: one per configured channel strip, or 2 when
/// none is configured (stereo pass-through).
pub fn config_n_out(n_channels: usize) -> (n: usize)
    ensures
        n == config_outputs(n_channels as int),
{
    if n_channels == 0 {
        2
    } else {
        n_channels
    }
}

/// Why a configuration cannot be compiled into a pipeline.
#[derive(Debug, Clone, Copy, PartialEq, Eq)]
pub enum ConfigError {
    /// More than 30 graphic-EQ gains were given.
    TooManyGraphicBands { given: usize },
    /// The routing matrix and the channel strips disagree on the output count.
    StripCount { outputs: usize, strips: usize },
    /// A band-pass crossover was given no upper edge (`freq_high`).
    MissingFreqHigh,
}

/// The filters a crossover of a channel stands for, with their edge
/// frequencies.
#[derive(Debug, Clone, Copy, PartialEq, Eq)]
pub enum CrossoverEdges<F> {
    LowPass { freq: F },
    HighPass { freq: F },
    BandPass { low: F, high: F },
}

/// The filters of a crossover with role `role`: a low- or high-pass at
/// `freq`; a band-pass from `freq` up to `freq_high`, which it must have.
pub fn crossover_edges<F: Copy>(role: XoverRole, freq: F, freq_high: Option<F>) -> (r: Result<
    CrossoverEdges<F>,
    ConfigError,
>)
    ensures
        r == match role {
            XoverRole::LowPass => Ok(CrossoverEdges::LowPass { freq }),
            XoverRole::HighPass => Ok(CrossoverEdges::HighPass { freq }),
            XoverRole::BandPass => match freq_high {
                Some(high) => Ok(CrossoverEdges::BandPass { low: freq, high }),
                None => Err(ConfigError::MissingFreqHigh),
            },
        },
{
    match role {
        XoverRole::LowPass => Ok(CrossoverEdges::LowPass { freq }),
        XoverRole::HighPass => Ok(CrossoverEdges::HighPass { freq }),
        XoverRole::BandPass => match freq_high {
            Some(high) => Ok(CrossoverEdges::BandPass { low: freq, high }),
            None => Err(ConfigError::MissingFreqHigh),
        },
    }
}

/// Number of bands of the ISO 1/3-octave graphic EQ.
pub const GRAPHIC_BANDS: usize = 30;

/// The 30 graphic-EQ gains of a channel: the given ones followed by `zero`,
/// or an error when more than 30 are given.
pub fn graphic_gains<T: Copy>(gains: &Vec<T>, zero: T) -> (r: Result<Vec<T>, ConfigError>)
    ensures
        gains@.len() > GRAPHIC_BANDS <==> (r is Err),
        (r matches Err(e) ==> e == (ConfigError::TooManyGraphicBands { given: gains@.len() as usize })),
        (r matches Ok(v) ==> v@.len() == GRAPHIC_BANDS && forall|i: int|
            0 <= i < GRAPHIC_BANDS ==> #[trigger] v@[i] == if i < gains@.len() {
                gains@[i]
            } else {
                zero
            }),
{
    if gains.len() > GRAPHIC_BANDS {
        return Err(ConfigError::TooManyGraphicBands { given: gains.len() });
    }
    let mut v: Vec<T> = Vec::new();
    let mut i: usize = 0;
    while i < GRAPHIC_BANDS
        invariant
            i <= GRAPHIC_BANDS,
            gains@.len() <= GRAPHIC_BANDS,
            v@.len() == i,
            forall|j: int| 0 <= j < i ==> #[trigger] v@[j] == if j < gains@.len() {
                gains@[j]
            } else {
                zero
            },
        decreases GRAPHIC_BANDS - i,
    {
        if i < gains.len() {
            v.push(gains[i]);
        } else {
            v.push(zero);
        }
        i = i + 1;
    }
    Ok(v)
}

/// The pipeline needs exactly one channel strip per routing output.
pub fn check_strip_count(outputs: usize, strips: usize) -> (r: Result<(), ConfigError>)
    ensures
        (r is Ok) <==> outputs == strips,
        (r matches Err(e) ==> e == (ConfigError::StripCount { outputs, strips })),
{
    if outputs != strips {
        Err(ConfigError::StripCount { outputs, strips })
    } else {
        Ok(())
    }
}

} // verus!
