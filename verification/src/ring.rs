//! Ring buffers behind the time-alignment delay and the limiter's look-ahead.

use vstd::prelude::*;
use crate::pow2::{next_pow2, is_next_pow2};

verus! {

/// Position of the `i`-th oldest slot when the oldest slot is `start`.
pub open spec fn ring_slot(start: int, i: int, cap: int) -> int {
    if start + i < cap {
        start + i
    } else {
        start + i - cap
    }
}

/// A sample history of fixed length, oldest first: pushing drops the oldest
/// sample and appends the new one.
pub open spec fn shift_in<T>(window: Seq<T>, x: T) -> Seq<T> {
    window.drop_first().push(x)
}

/// The window after pushing every sample of `xs` in order.
pub open spec fn shift_all<T>(window: Seq<T>, xs: Seq<T>) -> Seq<T>
    decreases xs.len(),
{
    if xs.len() == 0 {
        window
    } else {
        shift_in(shift_all(window, xs.drop_last()), xs.last())
    }
}

/// Sample delay line of power-of-two capacity (at least 8 slots).
///
/// Its view is the window of the last `capacity` samples, oldest first; slots
/// never written hold the zero value it was built with.
pub struct DelayLine<T> {
    buf: Vec<T>,
    write: usize,
}

impl<T> View for DelayLine<T> {
    type V = Seq<T>;

    closed spec fn view(&self) -> Seq<T> {
        Seq::new(
            self.buf@.len(),
            |i: int| self.buf@[ring_slot(self.write as int, i, self.buf@.len() as int)],
        )
    }
}

impl<T: Copy> DelayLine<T> {
    /// Internal consistency: the write position is a slot of the buffer.
    pub closed spec fn wf(&self) -> bool {
        &&& self.buf@.len() >= 8
        &&& self.write < self.buf@.len()
        &&& self.buf@.len() <= usize::MAX / 2
    }

    /// Number of slots.
    pub closed spec fn spec_capacity(&self) -> nat {
        self.buf@.len()
    }

    /// A line with room for `need` samples: `max(next_pow2(need), 8)` slots,
    /// all holding `zero`.
    pub fn new(need: usize, zero: T) -> (d: Self)
        requires
            need <= usize::MAX / 4,
        ensures
            d.wf(),
            d.spec_capacity() >= 8,
            d.spec_capacity() >= need,
            d.spec_capacity() == 8 || is_next_pow2(need as int, d.spec_capacity() as int),
            d@ == Seq::new(d.spec_capacity(), |i: int| zero),
    {
        let p = next_pow2(need);
        let cap = if p < 8 {
            8
        } else {
            p
        };
        let mut buf: Vec<T> = Vec::new();
        let mut i: usize = 0;
        while i < cap
            invariant
                i <= cap,
                buf@.len() == i,
                forall|j: int| 0 <= j < i ==> buf@[j] == zero,
            decreases cap - i,
        {
            buf.push(zero);
            i = i + 1;
        }
        let d = DelayLine { buf, write: 0 };
        assert(d@ =~= Seq::new(cap as nat, |i: int| zero));
        d
    }

    /// Number of slots.
    pub fn capacity(&self) -> (n: usize)
        ensures
            n == self.spec_capacity(),
            n == self@.len(),
    {
        self.buf.len()
    }

    /// Append a sample, dropping the oldest one.
    pub fn push(&mut self, x: T)
        requires
            old(self).wf(),
        ensures
            final(self).wf(),
            final(self).spec_capacity() == old(self).spec_capacity(),
            final(self)@ == shift_in(old(self)@, x),
    {
        let ghost before = self@;
        let cap = self.buf.len();
        let w = self.write;
        self.buf.set(w, x);
        self.write = if w + 1 == cap {
            0
        } else {
            w + 1
        };
        assert(self@ =~= shift_in(before, x));
    }

    /// The sample pushed `back` pushes ago (`0` is the most recent one).
    pub fn tap(&self, back: usize) -> (x: T)
        requires
            self.wf(),
            back < self.spec_capacity(),
        ensures
            x == self@[self@.len() - 1 - back],
    {
        let cap = self.buf.len();
        let idx = if self.write > back {
            self.write - 1 - back
        } else {
            self.write + cap - 1 - back
        };
        self.buf[idx]
    }

    /// Set every slot back to `zero`.
    pub fn clear(&mut self, zero: T)
        requires
            old(self).wf(),
        ensures
            final(self).wf(),
            final(self).spec_capacity() == old(self).spec_capacity(),
            final(self)@ == Seq::new(old(self).spec_capacity(), |i: int| zero),
    {
        let cap = self.buf.len();
        let mut i: usize = 0;
        while i < cap
            invariant
                cap == self.buf@.len(),
                i <= cap,
                cap >= 8,
                cap <= usize::MAX / 2,
                forall|j: int| 0 <= j < i ==> self.buf@[j] == zero,
            decreases cap - i,
        {
            self.buf.set(i, zero);
            i = i + 1;
        }
        self.write = 0;
        assert(self@ =~= Seq::new(cap as nat, |i: int| zero));
    }
}

/// Law: a delay line gives back exactly what was written: after pushing the
/// samples `xs`, the sample `back` pushes ago (within the capacity) is
/// `xs[xs.len() - 1 - back]` when that many were pushed, and otherwise what
/// the line held before.
pub proof fn law_delay_line_reads_back<T>(window: Seq<T>, xs: Seq<T>, back: int)
    requires
        0 <= back < window.len(),
    ensures
        shift_all(window, xs).len() == window.len(),
        back < xs.len() ==> shift_all(window, xs)[window.len() - 1 - back] == xs[xs.len() - 1
            - back],
        back >= xs.len() ==> shift_all(window, xs)[window.len() - 1 - back] == window[
            window.len() - 1 - back + xs.len()
        ],
    decreases xs.len(),
{
    if xs.len() > 0 {
        let prev = shift_all(window, xs.drop_last());
        if back >= 1 {
            law_delay_line_reads_back(window, xs.drop_last(), back - 1);
        } else {
            law_delay_line_reads_back(window, xs.drop_last(), 0);
        }
        assert(shift_all(window, xs) == shift_in(prev, xs.last()));
    }
}

/// A look-ahead frame delay: holds `frames` interleaved frames of `channels`
/// samples and hands each incoming frame back out `frames` exchanges later.
///
/// Its view is the queue of held frames, oldest first.
pub struct LookAhead<T> {
    channels: usize,
    frames: usize,
    delay: Vec<T>,
    wpos: usize,
}

/// Frame `s` of a flat interleaved buffer with `n` channels.
pub open spec fn frame_of<T>(buf: Seq<T>, s: int, n: int) -> Seq<T> {
    buf.subrange(s * n, s * n + n)
}

impl<T> View for LookAhead<T> {
    type V = Seq<Seq<T>>;

    closed spec fn view(&self) -> Seq<Seq<T>> {
        Seq::new(
            self.frames as nat,
            |i: int|
                frame_of(
                    self.delay@,
                    ring_slot(self.wpos as int, i, self.frames as int),
                    self.channels as int,
                ),
        )
    }
}

proof fn lemma_slot_index(s: int, c: int, n: int, la: int)
    requires
        0 <= s < la,
        0 <= c < n,
    ensures
        0 <= s * n + c < la * n,
        s * n + c < s * n + n,
        s * n + n <= la * n,
        la * n == n * la,
        s * n >= 0,
{
    assert(la * n == n * la) by (nonlinear_arith);
    assert(s * n + n <= la * n) by (nonlinear_arith)
        requires
            s < la,
            n >= 0,
    ;
    assert(s * n >= 0) by (nonlinear_arith)
        requires
            s >= 0,
            n >= 0,
    ;
}

proof fn lemma_slots_disjoint(s: int, t: int, c: int, n: int)
    requires
        0 <= s,
        0 <= t,
        s != t,
        0 <= c < n,
    ensures
        s * n + c < t * n || s * n + c >= t * n + n,
{
    if s < t {
        assert(s * n + n <= t * n) by (nonlinear_arith)
            requires
                s < t,
                n >= 0,
        ;
    } else {
        assert(t * n + n <= s * n) by (nonlinear_arith)
            requires
                t < s,
                n >= 0,
        ;
    }
}

impl<T: Copy> LookAhead<T> {
    pub closed spec fn wf(&self) -> bool {
        &&& self.channels >= 1
        &&& self.frames >= 1
        &&& self.wpos < self.frames
        &&& self.delay@.len() == self.channels * self.frames
        &&& self.channels * self.frames <= usize::MAX
    }

    /// Samples per frame.
    pub closed spec fn spec_channels(&self) -> nat {
        self.channels as nat
    }

    /// Frames held, which is the latency in frames.
    pub closed spec fn spec_frames(&self) -> nat {
        self.frames as nat
    }

    /// A look-ahead of `max(frames, 1)` frames of `max(channels, 1)` samples,
    /// initially all `zero`.
    pub fn new(channels: usize, frames: usize, zero: T) -> (la: Self)
        requires
            (if channels > 1 {
                channels
            } else {
                1
            }) * (if frames > 1 {
                frames
            } else {
                1
            }) <= usize::MAX,
        ensures
            la.wf(),
            la.spec_channels() == if channels > 1 {
                channels
            } else {
                1
            },
            la.spec_frames() == if frames > 1 {
                frames
            } else {
                1
            },
            forall|i: int, c: int|
                0 <= i < la.spec_frames() && 0 <= c < la.spec_channels() ==> #[trigger] la@[i][c]
                    == zero,
            forall|i: int| 0 <= i < la.spec_frames() ==> #[trigger] la@[i].len() == la.spec_channels(),
    {
        let n = if channels > 1 {
            channels
        } else {
            1
        };
        let f = if frames > 1 {
            frames
        } else {
            1
        };
        let total = n * f;
        let mut delay: Vec<T> = Vec::new();
        let mut i: usize = 0;
        while i < total
            invariant
                i <= total,
                delay@.len() == i,
                forall|j: int| 0 <= j < i ==> delay@[j] == zero,
            decreases total - i,
        {
            delay.push(zero);
            i = i + 1;
        }
        let la = LookAhead { channels: n, frames: f, delay, wpos: 0 };
        assert forall|i: int, c: int|
            0 <= i < f && 0 <= c < n implies #[trigger] la@[i][c] == zero by {
            lemma_slot_index(i, c, n as int, f as int);
            assert(ring_slot(0, i, f as int) == i);
            assert(la@[i] == frame_of(la.delay@, i, n as int));
        }
        assert forall|i: int| 0 <= i < f implies #[trigger] la@[i].len() == n by {
            lemma_slot_index(i, 0, n as int, f as int);
            assert(la@[i] == frame_of(la.delay@, i, n as int));
        }
        la
    }

    /// Latency in frames.
    pub fn frames(&self) -> (f: usize)
        ensures
            f == self.spec_frames(),
    {
        self.frames
    }

    /// Output latency in frames of a limiter using this look-ahead: the
    /// look-ahead when the limiter is enabled, none when it passes audio
    /// through.
    pub fn latency(&self, enabled: bool) -> (n: usize)
        ensures
            n == if enabled {
                self.spec_frames()
            } else {
                0
            },
    {
        if enabled {
            self.frames
        } else {
            0
        }
    }

    /// Samples per frame.
    pub fn channels(&self) -> (n: usize)
        ensures
            n == self.spec_channels(),
    {
        self.channels
    }

    /// Exchange one frame: `frame` (one sample per channel) goes into the
    /// queue and the oldest held frame comes back out in its place.
    pub fn exchange(&mut self, frame: &mut Vec<T>)
        requires
            old(self).wf(),
            old(frame)@.len() == old(self).spec_channels(),
        ensures
            final(self).wf(),
            final(self).spec_channels() == old(self).spec_channels(),
            final(self).spec_frames() == old(self).spec_frames(),
            final(frame)@ == old(self)@[0],
            final(self)@ == old(self)@.drop_first().push(old(frame)@),
    {
        let ghost q0 = self@;
        let ghost input = frame@;
        let n = self.channels;
        proof {
            lemma_slot_index(self.wpos as int, 0, n as int, self.frames as int);
        }
        let base = self.wpos * n;
        let mut c: usize = 0;
        while c < n
            invariant
                n == self.channels,
                self.wf(),
                n == frame@.len(),
                n == input.len(),
                base == self.wpos * n,
                base + n <= self.delay@.len(),
                q0 == old(self)@,
                self.frames == old(self).frames,
                self.wpos == old(self).wpos,
                self.channels == old(self).channels,
                0 <= c <= n,
                forall|j: int| 0 <= j < c ==> #[trigger] frame@[j] == old(self).delay@[base + j],
                forall|j: int| c <= j < n ==> #[trigger] frame@[j] == input[j],
                forall|j: int|
                    0 <= j < self.delay@.len() ==> #[trigger] self.delay@[j] == if base <= j < base
                        + c {
                        input[j - base]
                    } else {
                        old(self).delay@[j]
                    },
            decreases n - c,
        {
            let held = self.delay[base + c];
            let incoming = frame[c];
            self.delay.set(base + c, incoming);
            frame.set(c, held);
            c = c + 1;
        }
        let f = self.frames;
        self.wpos = if self.wpos + 1 == f {
            0
        } else {
            self.wpos + 1
        };
        proof {
            let w0 = old(self).wpos as int;
            let q1 = self@;
            assert(frame@ =~= q0[0]) by {
                assert(ring_slot(w0, 0, f as int) == w0);
            }
            assert forall|i: int| 0 <= i < f implies #[trigger] q1[i] =~= q0.drop_first().push(
                input,
            )[i] by {
                let s = ring_slot(self.wpos as int, i, f as int);
                lemma_slot_index(s, 0, n as int, f as int);
                if i < f - 1 {
                    let s0 = ring_slot(w0, i + 1, f as int);
                    assert(s == s0);
                    assert(q1[i] == frame_of(self.delay@, s, n as int));
                    assert(q0[i + 1] == frame_of(old(self).delay@, s, n as int));
                    assert forall|c: int| 0 <= c < n implies q1[i][c] == q0[i + 1][c] by {
                        lemma_slot_index(s, c, n as int, f as int);
                        lemma_slots_disjoint(s, w0, c, n as int);
                        assert(self.delay@[s * n + c] == old(self).delay@[s * n + c]);
                    }
                } else {
                    assert(s == w0);
                    assert(q1[i] == frame_of(self.delay@, s, n as int));
                    assert forall|c: int| 0 <= c < n implies q1[i][c] == input[c] by {
                        lemma_slot_index(s, c, n as int, f as int);
                        assert(self.delay@[s * n + c] == input[c]);
                    }
                }
            }
            assert(q1 =~= q0.drop_first().push(input));
        }
    }
}

/// Law: the look-ahead is a first-in first-out queue of `frames` frames: after
/// pushing the frames `xs`, it holds the last `frames` frames of the old queue
/// followed by `xs`, so every frame comes back out exactly `frames` exchanges
/// after it went in.
pub proof fn law_look_ahead_fifo<T>(queue: Seq<Seq<T>>, xs: Seq<Seq<T>>)
    requires
        queue.len() >= 1,
    ensures
        shift_all(queue, xs) == (queue + xs).subrange(
            xs.len() as int,
            (queue.len() + xs.len()) as int,
        ),
    decreases xs.len(),
{
    if xs.len() > 0 {
        law_look_ahead_fifo(queue, xs.drop_last());
        let prev = shift_all(queue, xs.drop_last());
        assert(queue + xs.drop_last() =~= (queue + xs).drop_last());
        assert(shift_in(prev, xs.last()) =~= (queue + xs).subrange(
            xs.len() as int,
            (queue.len() + xs.len()) as int,
        ));
    } else {
        assert((queue + xs).subrange(0, queue.len() as int) =~= queue);
    }
}

} // verus!
