//! The decisions of the real-time loop: which sources and graphs it accepts,
//! and what it does with a block a source filled only partly.

use vstd::prelude::*;

verus! {

/// Why a source cannot drive a pipeline.
#[derive(Debug, Clone, Copy, PartialEq, Eq)]
pub enum EngineError {
    /// The source delivers `source` channels; the pipeline expects `expected`.
    Channels { source: usize, expected: usize },
    /// The source runs at `source_rate` Hz; the configuration at `config_rate` Hz
    /// (there is no resampler).
    SampleRate { source_rate: u32, config_rate: u32 },
}

/// A source must match the pipeline's input channel count and the configured
/// sample rate; the channel count is checked first.
pub fn check_source(
    source_channels: usize,
    source_rate: u32,
    n_in: usize,
    config_rate: u32,
) -> (r: Result<(), EngineError>)
    ensures
        source_channels != n_in ==> r == Err::<(), EngineError>(
            (EngineError::Channels { source: source_channels, expected: n_in }),
        ),
        source_channels == n_in && source_rate != config_rate ==> r == Err::<(), EngineError>(
            (EngineError::SampleRate { source_rate, config_rate }),
        ),
        source_channels == n_in && source_rate == config_rate ==> r is Ok,
{
    if source_channels != n_in {
        return Err(EngineError::Channels { source: source_channels, expected: n_in });
    }
    if source_rate != config_rate {
        return Err(EngineError::SampleRate { source_rate, config_rate });
    }
    Ok(())
}

/// A running engine swaps in a new graph only when its channel counts match.
pub fn accepts_pipeline(n_in: usize, n_out: usize, new_in: usize, new_out: usize) -> (b: bool)
    ensures
        b == (new_in == n_in && new_out == n_out),
{
    new_in == n_in && new_out == n_out
}

/// A running engine swaps in a new source only when its channel count matches.
pub fn accepts_source(n_in: usize, source_channels: usize) -> (b: bool)
    ensures
        b == (source_channels == n_in),
{
    source_channels == n_in
}

/// What a source's fill of `got` frames out of `frames` means for the block.
#[derive(Debug, Clone, Copy, PartialEq, Eq)]
pub enum BlockFill {
    /// Nothing came: the stream has ended.
    Ended,
    /// Only the first `got` frames came: the rest of the block is silence and
    /// this is the last block of the stream.
    Short { got: usize },
    /// The whole block came.
    Full,
}

/// Classify a fill of `got` frames out of `frames`.
pub fn classify_fill(got: usize, frames: usize) -> (b: BlockFill)
    ensures
        got == 0 ==> b == BlockFill::Ended,
        0 < got < frames ==> b == (BlockFill::Short { got }),
        got != 0 && got >= frames ==> b == BlockFill::Full,
{
    if got == 0 {
        BlockFill::Ended
    } else if got < frames {
        BlockFill::Short { got }
    } else {
        BlockFill::Full
    }
}

/// The live loop never ends on a drained source: after a fill of `got`
/// frames out of `frames` it plays the block with everything from the
/// returned frame on replaced by silence, so a source that produced nothing
/// plays a silent block and a full block is played as it came.
pub fn live_pad_from(got: usize, frames: usize) -> (from: usize)
    ensures
        from == if got < frames {
            got
        } else {
            frames
        },
        from <= frames,
{
    if got < frames {
        got
    } else {
        frames
    }
}

/// The per-block meter payload is refreshed on every sixth tick.
pub fn full_snapshot_tick(n: u32) -> (b: bool)
    ensures
        b == (n % 6 == 0),
{
    n % 6 == 0
}

} // verus!
