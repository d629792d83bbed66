//! The bookkeeping of overlap-save FIR convolution: block and FFT sizing, the
//! segment/overlap shuffle, per-channel bank assignment and the interleaved
//! channel access the bank uses.

use vstd::prelude::*;
use crate::pow2::{next_pow2, is_next_pow2};

verus! {

/// Longest impulse response kept from an upload (16384 taps, about 341 ms at
/// 48 kHz).
pub const MAX_TAPS: usize = 16384;

/// Sizes of an overlap-save convolver.
#[derive(Debug, Clone, Copy, PartialEq, Eq)]
pub struct FirLayout {
    /// Samples per processed block (at least 1).
    pub block: usize,
    /// Impulse-response length (at least 1; an empty response is the identity).
    pub taps: usize,
    /// FFT size: the next power of two `>= block + taps - 1`.
    pub fft_len: usize,
    /// Input samples retained between blocks: `fft_len - block`.
    pub overlap: usize,
}

pub open spec fn at_least_one(x: int) -> int {
    if x >= 1 {
        x
    } else {
        1
    }
}

impl FirLayout {
    /// Size a convolver for `coeff_len` impulse-response taps and the engine's
    /// `block` size.
    pub fn plan(coeff_len: usize, block: usize) -> (l: FirLayout)
        requires
            coeff_len <= usize::MAX / 4,
            block <= usize::MAX / 4,
        ensures
            l.block == at_least_one(block as int),
            l.taps == at_least_one(coeff_len as int),
            is_next_pow2(l.block + l.taps - 1, l.fft_len as int),
            l.overlap == l.fft_len - l.block,
            l.fft_len >= l.block + l.taps - 1,
    {
        let block = if block > 1 {
            block
        } else {
            1
        };
        let taps = if coeff_len > 1 {
            coeff_len
        } else {
            1
        };
        let fft_len = next_pow2(block + taps - 1);
        FirLayout { block, taps, fft_len, overlap: fft_len - block }
    }
}

/// One FIR slot per output channel: the first `channels` entries of
/// `per_channel`, with `None` for channels it does not reach.
pub fn assign_channels<T>(per_channel: Vec<Option<T>>, channels: usize) -> (r: Vec<Option<T>>)
    ensures
        r@.len() == channels,
        forall|c: int|
            0 <= c < channels ==> #[trigger] r@[c] == if c < per_channel@.len() {
                per_channel@[c]
            } else {
                None
            },
{
    let mut r = per_channel;
    let ghost orig = r@;
    r.truncate(channels);
    while r.len() < channels
        invariant
            r@.len() <= channels,
            r@.len() >= (if orig.len() < channels {
                orig.len()
            } else {
                channels as nat
            }),
            forall|c: int|
                0 <= c < r@.len() ==> #[trigger] r@[c] == if c < orig.len() {
                    orig[c]
                } else {
                    None
                },
        decreases channels - r@.len(),
    {
        r.push(None);
    }
    r
}

/// `true` when at least one slot is filled.
pub fn any_filled<T>(slots: &Vec<Option<T>>) -> (b: bool)
    ensures
        b <==> exists|c: int| 0 <= c < slots@.len() && #[trigger] slots@[c] is Some,
{
    let mut c: usize = 0;
    while c < slots.len()
        invariant
            c <= slots@.len(),
            forall|d: int| 0 <= d < c ==> !(#[trigger] slots@[d] is Some),
        decreases slots@.len() - c,
    {
        if slots[c].is_some() {
            return true;
        }
        c = c + 1;
    }
    false
}

/// Index of channel `c` of frame `f` in an interleaved buffer of `n` channels.
pub open spec fn interleaved(f: int, n: int, c: int) -> int {
    f * n + c
}

proof fn lemma_interleaved_bounds(f: int, frames: int, n: int, c: int)
    requires
        0 <= f < frames,
        0 <= c < n,
    ensures
        0 <= f * n + c < frames * n,
{
    assert(f * n + n <= frames * n) by (nonlinear_arith)
        requires
            f < frames,
            n >= 0,
    ;
    assert(f * n >= 0) by (nonlinear_arith)
        requires
            f >= 0,
            n >= 0,
    ;
}

proof fn lemma_interleaved_injective(f: int, g: int, n: int, c: int, d: int)
    requires
        0 <= f,
        0 <= g,
        0 <= c < n,
        0 <= d < n,
        f * n + c == g * n + d,
    ensures
        f == g,
        c == d,
{
    if f < g {
        assert(f * n + n <= g * n) by (nonlinear_arith)
            requires
                f < g,
                n >= 0,
        ;
    } else if g < f {
        assert(g * n + n <= f * n) by (nonlinear_arith)
            requires
                g < f,
                n >= 0,
        ;
    }
}

/// Copy channel `c` of the first `frames` interleaved frames of `buf` into
/// `out[0..frames]`.
pub fn read_channel<T: Copy>(buf: &Vec<T>, frames: usize, n: usize, c: usize, out: &mut Vec<T>)
    requires
        c < n,
        frames * n <= buf@.len(),
        frames <= old(out)@.len(),
    ensures
        final(out)@.len() == old(out)@.len(),
        forall|f: int|
            0 <= f < frames ==> #[trigger] final(out)@[f] == buf@[interleaved(f, n as int, c as int)],
        forall|f: int| frames <= f < old(out)@.len() ==> #[trigger] final(out)@[f] == old(out)@[f],
{
    let blen = buf.len();
    let mut f: usize = 0;
    while f < frames
        invariant
            blen == buf@.len(),
            c < n,
            frames * n <= buf@.len(),
            frames <= out@.len(),
            out@.len() == old(out)@.len(),
            f <= frames,
            forall|g: int| 0 <= g < f ==> #[trigger] out@[g] == buf@[interleaved(g, n as int, c as int)],
            forall|g: int| f <= g < out@.len() ==> #[trigger] out@[g] == old(out)@[g],
        decreases frames - f,
    {
        proof {
            lemma_interleaved_bounds(f as int, frames as int, n as int, c as int);
        }
        let x = buf[f * n + c];
        out.set(f, x);
        f = f + 1;
    }
}

/// Write `src[0..frames]` into channel `c` of the first `frames` interleaved
/// frames of `buf`, leaving every other sample of `buf` unchanged.
pub fn write_channel<T: Copy>(buf: &mut Vec<T>, frames: usize, n: usize, c: usize, src: &Vec<T>)
    requires
        c < n,
        frames * n <= old(buf)@.len(),
        frames <= src@.len(),
    ensures
        final(buf)@.len() == old(buf)@.len(),
        forall|f: int|
            0 <= f < frames ==> #[trigger] final(buf)@[interleaved(f, n as int, c as int)] == src@[f],
        forall|i: int|
            0 <= i < old(buf)@.len() && !(exists|f: int|
                0 <= f < frames && i == #[trigger] interleaved(f, n as int, c as int)) ==> #[trigger] final(buf)@[i] == old(buf)@[i],
{
    let blen = buf.len();
    let mut f: usize = 0;
    while f < frames
        invariant
            blen == buf@.len(),
            c < n,
            frames * n <= buf@.len(),
            frames <= src@.len(),
            buf@.len() == old(buf)@.len(),
            f <= frames,
            forall|g: int|
                0 <= g < f ==> #[trigger] buf@[interleaved(g, n as int, c as int)] == src@[g],
            forall|i: int|
                0 <= i < buf@.len() && !(exists|g: int|
                    0 <= g < f && i == #[trigger] interleaved(g, n as int, c as int)) ==> #[trigger] buf@[i]
                    == old(buf)@[i],
        decreases frames - f,
    {
        proof {
            lemma_interleaved_bounds(f as int, frames as int, n as int, c as int);
        }
        let ghost prev = buf@;
        let x = src[f];
        buf.set(f * n + c, x);
        proof {
            assert forall|g: int|
                0 <= g < f + 1 implies #[trigger] buf@[interleaved(g, n as int, c as int)]
                == src@[g] by {
                if g < f {
                    lemma_interleaved_bounds(g, frames as int, n as int, c as int);
                    if interleaved(g, n as int, c as int) == f * n + c {
                        lemma_interleaved_injective(g, f as int, n as int, c as int, c as int);
                    }
                }
            }
            assert forall|i: int|
                0 <= i < buf@.len() && !(exists|g: int|
                    0 <= g < f + 1 && i == #[trigger] interleaved(
                        g,
                        n as int,
                        c as int,
                    )) implies #[trigger] buf@[i] == old(buf)@[i] by {
                assert(i != interleaved(f as int, n as int, c as int));
                if exists|g: int| 0 <= g < f && i == #[trigger] interleaved(g, n as int, c as int) {
                    let g = choose|g: int| 0 <= g < f && i == #[trigger] interleaved(g, n as int, c as int);
                    assert(0 <= g < f + 1);
                }
            }
        }
        f = f + 1;
    }
}

/// Law: reading channel `c` of `buf` (giving `col`, as `read_channel` does)
/// and writing `col` back into the same channel (giving `back`, as
/// `write_channel` does) leaves the buffer exactly as it was.
pub proof fn law_channel_read_then_write<T>(
    buf: Seq<T>,
    frames: int,
    n: int,
    c: int,
    col: Seq<T>,
    back: Seq<T>,
)
    requires
        0 <= c < n,
        frames * n <= buf.len(),
        0 <= frames <= col.len(),
        forall|f: int| 0 <= f < frames ==> #[trigger] col[f] == buf[interleaved(f, n, c)],
        back.len() == buf.len(),
        forall|f: int| 0 <= f < frames ==> #[trigger] back[interleaved(f, n, c)] == col[f],
        forall|i: int|
            0 <= i < buf.len() && !(exists|f: int| 0 <= f < frames && i == #[trigger] interleaved(f, n, c))
                ==> #[trigger] back[i] == buf[i],
    ensures
        back == buf,
{
    assert forall|i: int| 0 <= i < buf.len() implies #[trigger] back[i] == buf[i] by {
        if exists|f: int| 0 <= f < frames && i == #[trigger] interleaved(f, n, c) {
            let f = choose|f: int| 0 <= f < frames && i == #[trigger] interleaved(f, n, c);
            assert(back[interleaved(f, n, c)] == col[f]);
            assert(col[f] == buf[interleaved(f, n, c)]);
        }
    }
    assert(back =~= buf);
}

/// Law: writing `src` into channel `c` of `buf` (giving `after`, as
/// `write_channel` does) and reading that channel back (giving `col`, as
/// `read_channel` does) gives back the first `frames` samples of `src`.
pub proof fn law_channel_write_then_read<T>(
    buf: Seq<T>,
    frames: int,
    n: int,
    c: int,
    src: Seq<T>,
    after: Seq<T>,
    col: Seq<T>,
)
    requires
        0 <= c < n,
        frames * n <= buf.len(),
        0 <= frames <= src.len(),
        after.len() == buf.len(),
        forall|f: int| 0 <= f < frames ==> #[trigger] after[interleaved(f, n, c)] == src[f],
        forall|f: int| 0 <= f < frames ==> #[trigger] col[f] == after[interleaved(f, n, c)],
    ensures
        forall|f: int| 0 <= f < frames ==> #[trigger] col[f] == src[f],
{
    assert forall|f: int| 0 <= f < frames implies #[trigger] col[f] == src[f] by {
        assert(col[f] == after[interleaved(f, n, c)]);
    }
}

/// Channel 0 of an interleaved buffer of `channels` channels (at least 1):
/// every `channels`-th sample, starting with the first.
pub fn first_channel<T: Copy>(samples: &Vec<T>, channels: usize) -> (r: Vec<T>)
    ensures
        r@.len() == if samples@.len() == 0 {
            0
        } else {
            (samples@.len() - 1) / at_least_one(channels as int) + 1
        },
        forall|i: int|
            0 <= i < r@.len() ==> #[trigger] r@[i] == samples@[i * at_least_one(channels as int)],
{
    let step = if channels > 1 {
        channels
    } else {
        1
    };
    let len = samples.len();
    let mut r: Vec<T> = Vec::new();
    if len == 0 {
        return r;
    }
    let mut i: usize = 0;
    let mut k: usize = 0;
    loop
        invariant
            step == at_least_one(channels as int),
            step >= 1,
            len == samples@.len(),
            len > 0,
            i == k * step,
            i < len,
            r@.len() == k,
            forall|j: int| 0 <= j < k ==> #[trigger] r@[j] == samples@[j * step],
        decreases len - i,
    {
        r.push(samples[i]);
        if len - i <= step {
            proof {
                vstd::arithmetic::div_mod::lemma_fundamental_div_mod_converse(
                    (len - 1) as int,
                    step as int,
                    k as int,
                    (len - 1 - i) as int,
                );
            }
            return r;
        }
        proof {
            assert((k + 1) * step == k * step + step) by (nonlinear_arith);
            assert(k <= k * step) by (nonlinear_arith)
                requires
                    step >= 1,
            ;
        }
        i = i + step;
        k = k + 1;
    }
}

/// Keep at most `MAX_TAPS` taps of an impulse response; an empty one is
/// refused. Returns the number of taps kept.
pub fn limit_taps<T>(coeffs: &mut Vec<T>) -> (r: Option<usize>)
    ensures
        old(coeffs)@.len() == 0 <==> r is None,
        r is None ==> final(coeffs)@ == old(coeffs)@,
        r matches Some(n) ==> n == final(coeffs)@.len() && final(coeffs)@ == old(coeffs)@.take(
            if old(coeffs)@.len() <= MAX_TAPS {
                old(coeffs)@.len() as int
            } else {
                MAX_TAPS as int
            },
        ),
{
    if coeffs.len() == 0 {
        return None;
    }
    let ghost orig = coeffs@;
    if coeffs.len() > MAX_TAPS {
        coeffs.truncate(MAX_TAPS);
    }
    assert(orig.len() <= MAX_TAPS ==> coeffs@ =~= orig.take(orig.len() as int));
    Some(coeffs.len())
}

/// Assemble an overlap-save segment: the retained `overlap` followed by the
/// new `block`; afterwards `overlap` holds the segment's last `overlap.len()`
/// samples, ready for the next block.
pub fn splice_segment<T: Copy>(overlap: &mut Vec<T>, block: &Vec<T>) -> (segment: Vec<T>)
    requires
        old(overlap)@.len() <= usize::MAX - block@.len(),
    ensures
        segment@ == old(overlap)@ + block@,
        final(overlap)@ == segment@.subrange(block@.len() as int, segment@.len() as int),
{
    let mut segment: Vec<T> = Vec::new();
    let mut i: usize = 0;
    while i < overlap.len()
        invariant
            i <= overlap@.len(),
            segment@ == overlap@.subrange(0, i as int),
        decreases overlap@.len() - i,
    {
        segment.push(overlap[i]);
        i = i + 1;
    }
    let mut j: usize = 0;
    while j < block.len()
        invariant
            j <= block@.len(),
            segment@ == overlap@ + block@.subrange(0, j as int),
        decreases block@.len() - j,
    {
        segment.push(block[j]);
        j = j + 1;
    }
    assert(block@.subrange(0, block@.len() as int) =~= block@);
    assert(overlap@.subrange(0, overlap@.len() as int) =~= overlap@);
    let ov = overlap.len();
    let b = block.len();
    let slen = segment.len();
    let mut k: usize = 0;
    while k < ov
        invariant
            ov == overlap@.len(),
            b == block@.len(),
            slen == segment@.len(),
            segment@.len() == ov + b,
            k <= ov,
            forall|t: int| 0 <= t < k ==> #[trigger] overlap@[t] == segment@[b + t],
        decreases ov - k,
    {
        let x = segment[b + k];
        overlap.set(k, x);
        k = k + 1;
    }
    assert(overlap@ =~= segment@.subrange(b as int, segment@.len() as int));
    segment
}

} // verus!
