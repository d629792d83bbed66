//! Audio sources whose logic is sample bookkeeping: silence, impulses, and
//! playback of decoded WAV samples. Every source fills interleaved frames of
//! `channels` samples and reports how many frames it produced.

use vstd::prelude::*;
use crate::fir::interleaved;

verus! {

proof fn lemma_frame_index(f: int, frames: int, n: int, c: int)
    requires
        0 <= f < frames,
        0 <= c < n,
    ensures
        0 <= f * n + c < frames * n,
        f * n + n <= frames * n,
        0 <= f * n,
{
    assert(f * n + n <= frames * n) by (nonlinear_arith)
        requires
            f < frames,
            n >= 0,
    ;
    assert(f * n >= 0) by (nonlinear_arith)
        requires
            f >= 0,
            n >= 0,
    ;
}

/// Default capture device: the ALSA loopback that network players feed.
pub fn def_loopback() -> (s: String)
    ensures
        s@ == "plughw:Loopback,1,0"@,
{
    String::from_str("plughw:Loopback,1,0")
}

/// Zero the samples of `buf` from frame `from` (of `n` channels) to the end:
/// a short final block is padded with silence.
pub fn pad_tail<T: Copy>(buf: &mut Vec<T>, from: usize, n: usize, zero: T)
    requires
        from * n <= old(buf)@.len(),
    ensures
        final(buf)@.len() == old(buf)@.len(),
        forall|i: int|
            0 <= i < old(buf)@.len() ==> #[trigger] final(buf)@[i] == if i < from * n {
                old(buf)@[i]
            } else {
                zero
            },
{
    let blen = buf.len();
    let start = from * n;
    let mut i = start;
    while i < buf.len()
        invariant
            start == from * n,
            start <= i <= buf@.len(),
            buf@.len() == old(buf)@.len(),
            forall|j: int|
                0 <= j < buf@.len() ==> #[trigger] buf@[j] == if j < start || j >= i {
                    old(buf)@[j]
                } else {
                    zero
                },
        decreases buf@.len() - i,
    {
        buf.set(i, zero);
        i = i + 1;
    }
}

/// A silent source.
pub struct Silence {
    fs: u32,
    channels: usize,
}

impl Silence {
    pub closed spec fn spec_channels(&self) -> usize {
        self.channels
    }

    pub closed spec fn spec_sample_rate(&self) -> u32 {
        self.fs
    }

    pub fn new(fs: u32, channels: usize) -> (s: Silence)
        ensures
            s.spec_sample_rate() == fs,
            s.spec_channels() == channels,
    {
        Silence { fs, channels }
    }

    pub fn sample_rate(&self) -> (r: u32)
        ensures
            r == self.spec_sample_rate(),
    {
        self.fs
    }

    pub fn channels(&self) -> (r: usize)
        ensures
            r == self.spec_channels(),
    {
        self.channels
    }

    /// Write `frames` frames of `zero`; the rest of `buf` is untouched.
    pub fn fill<T: Copy>(&self, buf: &mut Vec<T>, frames: usize, zero: T) -> (produced: usize)
        requires
            frames * self.spec_channels() <= old(buf)@.len(),
        ensures
            produced == frames,
            final(buf)@.len() == old(buf)@.len(),
            forall|i: int|
                0 <= i < old(buf)@.len() ==> #[trigger] final(buf)@[i] == if i < frames
                    * self.spec_channels() {
                    zero
                } else {
                    old(buf)@[i]
                },
    {
        let blen = buf.len();
        let end = frames * self.channels;
        let mut i: usize = 0;
        while i < end
            invariant
                end == frames * self.spec_channels(),
                end <= buf@.len(),
                i <= end,
                buf@.len() == old(buf)@.len(),
                forall|j: int|
                    0 <= j < buf@.len() ==> #[trigger] buf@[j] == if j < i {
                        zero
                    } else {
                        old(buf)@[j]
                    },
            decreases end - i,
        {
            buf.set(i, zero);
            i = i + 1;
        }
        frames
    }
}

/// Whether frame number `n` of an impulse train carries the impulse: every
/// `p`-th frame with a period `p`, otherwise only the very first frame.
pub open spec fn impulse_hit(n: int, period: Option<u64>) -> bool {
    match period {
        Some(p) => n % (p as int) == 0,
        None => n == 0,
    }
}

/// A single impulse of amplitude `amp` followed by silence, or an impulse
/// every `period` frames.
pub struct Impulse<T> {
    fs: u32,
    channels: usize,
    amp: T,
    n: u64,
    period: Option<u64>,
}

impl<T: Copy> Impulse<T> {
    /// Frames produced so far.
    pub closed spec fn spec_position(&self) -> u64 {
        self.n
    }

    pub closed spec fn spec_period(&self) -> Option<u64> {
        self.period
    }

    pub closed spec fn spec_amp(&self) -> T {
        self.amp
    }

    pub closed spec fn spec_channels(&self) -> usize {
        self.channels
    }

    pub closed spec fn spec_sample_rate(&self) -> u32 {
        self.fs
    }

    pub fn new(fs: u32, channels: usize, amplitude: T, period_frames: Option<u64>) -> (s: Self)
        ensures
            s.spec_sample_rate() == fs,
            s.spec_channels() == channels,
            s.spec_amp() == amplitude,
            s.spec_period() == period_frames,
            s.spec_position() == 0,
    {
        Impulse { fs, channels, amp: amplitude, n: 0, period: period_frames }
    }

    pub fn sample_rate(&self) -> (r: u32)
        ensures
            r == self.spec_sample_rate(),
    {
        self.fs
    }

    pub fn channels(&self) -> (r: usize)
        ensures
            r == self.spec_channels(),
    {
        self.channels
    }

    /// Write `frames` frames: frame `f` holds the amplitude on every channel
    /// when frame number `position + f` is a hit, `zero` otherwise.
    pub fn fill(&mut self, buf: &mut Vec<T>, frames: usize, zero: T) -> (produced: usize)
        requires
            frames * old(self).spec_channels() <= old(buf)@.len(),
            old(self).spec_position() + frames <= u64::MAX,
            old(self).spec_period() != Some(0u64),
        ensures
            produced == frames,
            final(self).spec_position() == old(self).spec_position() + frames,
            final(self).spec_period() == old(self).spec_period(),
            final(self).spec_amp() == old(self).spec_amp(),
            final(self).spec_channels() == old(self).spec_channels(),
            final(self).spec_sample_rate() == old(self).spec_sample_rate(),
            final(buf)@.len() == old(buf)@.len(),
            forall|f: int, c: int|
                0 <= f < frames && 0 <= c < old(self).spec_channels() ==> #[trigger] final(buf)@[interleaved(
                    f,
                    old(self).spec_channels() as int,
                    c,
                )] == if impulse_hit(old(self).spec_position() + f, old(self).spec_period()) {
                    old(self).spec_amp()
                } else {
                    zero
                },
            forall|i: int|
                frames * old(self).spec_channels() <= i < old(buf)@.len() ==> #[trigger] final(buf)@[i]
                    == old(buf)@[i],
    {
        let ch = self.channels;
        let blen = buf.len();
        let n0 = self.n;
        let mut f: usize = 0;
        while f < frames
            invariant
                ch == self.channels,
                blen == buf@.len(),
                frames * ch <= buf@.len(),
                buf@.len() == old(buf)@.len(),
                self.period == old(self).period,
                self.period != Some(0u64),
                self.amp == old(self).amp,
                self.channels == old(self).channels,
                self.fs == old(self).fs,
                n0 == old(self).n,
                n0 + frames <= u64::MAX,
                f <= frames,
                self.n == n0 + f,
                forall|g: int, c: int|
                    0 <= g < f && 0 <= c < ch ==> #[trigger] buf@[interleaved(g, ch as int, c)]
                        == if impulse_hit(n0 + g, self.period) {
                        self.amp
                    } else {
                        zero
                    },
                forall|i: int| f * ch <= i < buf@.len() ==> #[trigger] buf@[i] == old(buf)@[i],
            decreases frames - f,
        {
            let hit = match self.period {
                Some(p) => self.n % p == 0,
                None => self.n == 0,
            };
            let s = if hit {
                self.amp
            } else {
                zero
            };
            let mut c: usize = 0;
            while c < ch
                invariant
                    ch == self.channels,
                    blen == buf@.len(),
                    frames * ch <= buf@.len(),
                    buf@.len() == old(buf)@.len(),
                    f < frames,
                    c <= ch,
                    self.period == old(self).period,
                    self.amp == old(self).amp,
                    self.n == n0 + f,
                    s == if impulse_hit(n0 + f, self.period) {
                        self.amp
                    } else {
                        zero
                    },
                    forall|g: int, d: int|
                        0 <= g < f && 0 <= d < ch ==> #[trigger] buf@[interleaved(g, ch as int, d)]
                            == if impulse_hit(n0 + g, self.period) {
                            self.amp
                        } else {
                            zero
                        },
                    forall|d: int| 0 <= d < c ==> #[trigger] buf@[interleaved(f as int, ch as int, d)] == s,
                    forall|i: int| f * ch + c <= i < buf@.len() ==> #[trigger] buf@[i] == old(buf)@[i],
                decreases ch - c,
            {
                proof {
                    lemma_frame_index(f as int, frames as int, ch as int, c as int);
                }
                buf.set(f * ch + c, s);
                proof {
                    assert forall|g: int, d: int|
                        0 <= g < f && 0 <= d < ch implies #[trigger] buf@[interleaved(g, ch as int, d)]
                        == if impulse_hit(n0 + g, self.period) {
                        self.amp
                    } else {
                        zero
                    } by {
                        lemma_frame_index(g, f as int, ch as int, d);
                    }
                }
                c = c + 1;
            }
            self.n = self.n + 1;
            f = f + 1;
            proof {
                assert((f - 1) * ch + ch == f * ch) by (nonlinear_arith);
            }
        }
        frames
    }
}

// ----- WAV playback -----

/// Where the frame read from position `p` starts: a frame that would run past
/// the end restarts at 0 when looping over a non-empty recording.
pub open spec fn wav_wrap(p: int, sc: int, len: int, looping: bool) -> int {
    if p + sc > len && looping && len > 0 {
        0
    } else {
        p
    }
}

/// Start of the frame read as frame `f` of a block that began at position `p0`.
pub open spec fn wav_start(p0: int, f: nat, sc: int, len: int, looping: bool) -> int
    decreases f,
{
    if f == 0 {
        wav_wrap(p0, sc, len, looping)
    } else {
        wav_wrap(wav_start(p0, (f - 1) as nat, sc, len, looping) + sc, sc, len, looping)
    }
}

/// Frame `f` of the block can be read: it and every frame before it fit.
pub open spec fn wav_readable(p0: int, f: nat, sc: int, len: int, looping: bool) -> bool {
    forall|g: nat| g <= f ==> #[trigger] wav_start(p0, g, sc, len, looping) + sc <= len
}

/// Output sample for channel `c` of the source frame starting at `start`: a
/// mono source feeds every channel; otherwise channel `c` maps to source
/// channel `c`, and channels the source lacks are `zero`.
pub open spec fn wav_sample<T>(samples: Seq<T>, start: int, sc: int, c: int, zero: T) -> T {
    if sc == 1 {
        samples[start]
    } else if c < sc {
        samples[start + c]
    } else {
        zero
    }
}

/// Playback of decoded WAV samples (interleaved, `src_channels` per frame),
/// optionally looping, mapped onto `channels` output channels.
pub struct WavFile<T> {
    fs: u32,
    channels: usize,
    src_channels: usize,
    samples: Vec<T>,
    pos: usize,
    looping: bool,
}

impl<T: Copy> WavFile<T> {
    pub closed spec fn wf(&self) -> bool {
        &&& self.pos <= self.samples@.len()
        &&& self.src_channels <= 65535
        &&& self.samples@.len() <= usize::MAX / 2
    }

    pub closed spec fn spec_position(&self) -> int {
        self.pos as int
    }

    pub closed spec fn spec_samples(&self) -> Seq<T> {
        self.samples@
    }

    pub closed spec fn spec_src_channels(&self) -> int {
        self.src_channels as int
    }

    pub closed spec fn spec_channels(&self) -> usize {
        self.channels
    }

    pub closed spec fn spec_looping(&self) -> bool {
        self.looping
    }

    pub closed spec fn spec_sample_rate(&self) -> u32 {
        self.fs
    }

    /// Playback of `samples`, starting at the beginning.
    pub fn new(
        fs: u32,
        out_channels: usize,
        src_channels: u16,
        samples: Vec<T>,
        looping: bool,
    ) -> (w: Self)
        requires
            samples@.len() <= usize::MAX / 2,
        ensures
            w.wf(),
            w.spec_position() == 0,
            w.spec_samples() == samples@,
            w.spec_src_channels() == src_channels,
            w.spec_channels() == out_channels,
            w.spec_looping() == looping,
            w.spec_sample_rate() == fs,
    {
        WavFile {
            fs,
            channels: out_channels,
            src_channels: src_channels as usize,
            samples,
            pos: 0,
            looping,
        }
    }

    pub fn sample_rate(&self) -> (r: u32)
        ensures
            r == self.spec_sample_rate(),
    {
        self.fs
    }

    pub fn channels(&self) -> (r: usize)
        ensures
            r == self.spec_channels(),
    {
        self.channels
    }

    /// Fill up to `frames` frames. Playback stops early (returning the number
    /// of frames written) when the next frame would run past the end of a
    /// non-looping or empty recording; a looping recording restarts at 0.
    pub fn fill(&mut self, buf: &mut Vec<T>, frames: usize, zero: T) -> (produced: usize)
        requires
            old(self).wf(),
            frames * old(self).spec_channels() <= old(buf)@.len(),
            !(old(self).spec_looping() && 0 < old(self).spec_samples().len()
                < old(self).spec_src_channels()),
        ensures
            final(self).wf(),
            final(self).spec_samples() == old(self).spec_samples(),
            final(self).spec_src_channels() == old(self).spec_src_channels(),
            final(self).spec_channels() == old(self).spec_channels(),
            final(self).spec_looping() == old(self).spec_looping(),
            final(self).spec_sample_rate() == old(self).spec_sample_rate(),
            produced <= frames,
            final(self).spec_position() == if produced == 0 {
                old(self).spec_position()
            } else {
                wav_start(
                    old(self).spec_position(),
                    (produced - 1) as nat,
                    old(self).spec_src_channels(),
                    old(self).spec_samples().len() as int,
                    old(self).spec_looping(),
                ) + old(self).spec_src_channels()
            },
            final(buf)@.len() == old(buf)@.len(),
            forall|f: nat|
                f < produced ==> wav_readable(
                    old(self).spec_position(),
                    f,
                    old(self).spec_src_channels(),
                    old(self).spec_samples().len() as int,
                    old(self).spec_looping(),
                ),
            produced < frames ==> !wav_readable(
                old(self).spec_position(),
                produced as nat,
                old(self).spec_src_channels(),
                old(self).spec_samples().len() as int,
                old(self).spec_looping(),
            ),
            forall|f: int, c: int|
                0 <= f < produced && 0 <= c < old(self).spec_channels() ==> #[trigger] final(buf)@[interleaved(
                    f,
                    old(self).spec_channels() as int,
                    c,
                )] == wav_sample(
                    old(self).spec_samples(),
                    wav_start(
                        old(self).spec_position(),
                        f as nat,
                        old(self).spec_src_channels(),
                        old(self).spec_samples().len() as int,
                        old(self).spec_looping(),
                    ),
                    old(self).spec_src_channels(),
                    c,
                    zero,
                ),
            forall|i: int|
                produced * old(self).spec_channels() <= i < old(buf)@.len() ==> #[trigger] final(buf)@[i]
                    == old(buf)@[i],
    {
        let sc = self.src_channels;
        let ch = self.channels;
        let len = self.samples.len();
        let blen = buf.len();
        let looping = self.looping;
        let ghost p0 = self.pos as int;
        let ghost s0 = self.samples@;
        let mut f: usize = 0;
        while f < frames
            invariant
                self.wf(),
                sc == self.src_channels,
                ch == self.channels,
                len == self.samples@.len(),
                looping == self.looping,
                self.samples@ == s0,
                self.samples@ == old(self).samples@,
                self.src_channels == old(self).src_channels,
                self.channels == old(self).channels,
                self.looping == old(self).looping,
                self.fs == old(self).fs,
                p0 == old(self).pos,
                !(looping && 0 < len < sc),
                blen == buf@.len(),
                frames * ch <= buf@.len(),
                buf@.len() == old(buf)@.len(),
                f <= frames,
                f > 0 ==> wav_readable(p0, (f - 1) as nat, sc as int, len as int, looping),
                f > 0 ==> self.pos == wav_start(p0, (f - 1) as nat, sc as int, len as int, looping)
                    + sc,
                f == 0 ==> self.pos == p0,
                forall|g: int, c: int|
                    0 <= g < f && 0 <= c < ch ==> #[trigger] buf@[interleaved(g, ch as int, c)]
                        == wav_sample(s0, wav_start(p0, g as nat, sc as int, len as int, looping), sc as int, c, zero),
                forall|i: int| f * ch <= i < buf@.len() ==> #[trigger] buf@[i] == old(buf)@[i],
            decreases frames - f,
        {
            let ghost pos_before = self.pos as int;
            if self.pos + sc > len {
                if looping && len > 0 {
                    self.pos = 0;
                } else {
                    proof {
                        assert(wav_start(p0, f as nat, sc as int, len as int, looping) == pos_before);
                        assert(!wav_readable(p0, f as nat, sc as int, len as int, looping)) by {
                            assert(wav_start(p0, f as nat, sc as int, len as int, looping) + sc > len);
                        }
                        assert forall|g: nat| g < f implies wav_readable(
                            p0,
                            g,
                            sc as int,
                            len as int,
                            looping,
                        ) by {
                            assert forall|h: nat| h <= g implies #[trigger] wav_start(
                                p0,
                                h,
                                sc as int,
                                len as int,
                                looping,
                            ) + sc <= len by {
                                assert(h <= (f - 1) as nat);
                            }
                        }
                    }
                    return f;
                }
            }
            let start = self.pos;
            proof {
                assert(start as int == wav_start(p0, f as nat, sc as int, len as int, looping));
                assert(start + sc <= len);
                assert(wav_readable(p0, f as nat, sc as int, len as int, looping)) by {
                    assert forall|h: nat| h <= f as nat implies #[trigger] wav_start(
                        p0,
                        h,
                        sc as int,
                        len as int,
                        looping,
                    ) + sc <= len by {
                        if h < f {
                            assert(h <= (f - 1) as nat);
                        }
                    }
                }
            }
            let mut c: usize = 0;
            while c < ch
                invariant
                    sc == self.src_channels,
                    ch == self.channels,
                    len == self.samples@.len(),
                    self.samples@ == s0,
                    start + sc <= len,
                    blen == buf@.len(),
                    frames * ch <= buf@.len(),
                    buf@.len() == old(buf)@.len(),
                    f < frames,
                    c <= ch,
                    forall|g: int, d: int|
                        0 <= g < f && 0 <= d < ch ==> #[trigger] buf@[interleaved(g, ch as int, d)]
                            == wav_sample(s0, wav_start(p0, g as nat, sc as int, len as int, looping), sc as int, d, zero),
                    forall|d: int|
                        0 <= d < c ==> #[trigger] buf@[interleaved(f as int, ch as int, d)] == wav_sample(
                            s0,
                            start as int,
                            sc as int,
                            d,
                            zero,
                        ),
                    forall|i: int| f * ch + c <= i < buf@.len() ==> #[trigger] buf@[i] == old(buf)@[i],
                decreases ch - c,
            {
                let v = if sc == 1 {
                    self.samples[start]
                } else if c < sc {
                    self.samples[start + c]
                } else {
                    zero
                };
                proof {
                    lemma_frame_index(f as int, frames as int, ch as int, c as int);
                }
                buf.set(f * ch + c, v);
                proof {
                    assert forall|g: int, d: int|
                        0 <= g < f && 0 <= d < ch implies #[trigger] buf@[interleaved(g, ch as int, d)]
                        == wav_sample(s0, wav_start(p0, g as nat, sc as int, len as int, looping), sc as int, d, zero) by {
                        lemma_frame_index(g, f as int, ch as int, d);
                    }
                }
                c = c + 1;
            }
            self.pos = start + sc;
            f = f + 1;
            proof {
                assert((f - 1) * ch + ch == f * ch) by (nonlinear_arith);
                assert forall|g: int, d: int|
                    0 <= g < f && 0 <= d < ch implies #[trigger] buf@[interleaved(g, ch as int, d)]
                    == wav_sample(s0, wav_start(p0, g as nat, sc as int, len as int, looping), sc as int, d, zero) by {
                    if g == f - 1 {
                    }
                }
            }
        }
        frames
    }
}

} // verus!
