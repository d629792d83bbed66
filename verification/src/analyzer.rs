//! The sample ring of the spectrum analyzer: the real-time thread appends
//! mono output samples without locking, and the analysis thread copies out
//! the most recent window.

use vstd::prelude::*;
use std::sync::atomic::{AtomicU32, AtomicUsize, Ordering};

verus! {

/// Slots in the ring.
pub const RING: usize = 16384;

/// Samples per analysis window.
pub const FFT_SIZE: usize = 4096;

/// Bands reported by the analyzer (the ISO 1/3-octave grid).
pub const N_BANDS: usize = 30;

/// Slot holding sample `i` of the window that ends just before write
/// position `end`: `(end - FFT_SIZE + i) mod RING`.
pub fn window_slot(end: usize, i: usize) -> (s: usize)
    requires
        i < FFT_SIZE,
    ensures
        s == (end - FFT_SIZE + i) % (RING as int),
        s < RING,
{
    let e = end % RING;
    let s = (e + RING - FFT_SIZE + i) % RING;
    proof {
        vstd::arithmetic::div_mod::lemma_fundamental_div_mod(end as int, RING as int);
        let q = (end as int) / (RING as int);
        vstd::arithmetic::div_mod::lemma_mod_multiples_vanish(
            q - 1,
            (e + RING - FFT_SIZE + i) as int,
            RING as int,
        );
        assert((end - FFT_SIZE + i) == (q - 1) * (RING as int) + (e + RING - FFT_SIZE + i)) by (nonlinear_arith)
            requires
                end == (RING as int) * q + e,
        ;
    }
    s
}

/// Lock-free single-producer ring of recent samples, each stored as the bits
/// of an `f32`. The producer and the reader run concurrently, so nothing is
/// promised of the values a snapshot sees.
pub struct Ring {
    buf: Vec<AtomicU32>,
    wpos: AtomicUsize,
}

impl Ring {
    pub closed spec fn spec_len(&self) -> nat {
        self.buf@.len()
    }

    /// An empty ring of `RING` slots.
    pub fn new() -> (r: Ring)
        ensures
            r.spec_len() == RING,
    {
        let mut buf: Vec<AtomicU32> = Vec::new();
        let mut i: usize = 0;
        while i < RING
            invariant
                i <= RING,
                buf@.len() == i,
            decreases RING - i,
        {
            buf.push(AtomicU32::new(0));
            i = i + 1;
        }
        Ring { buf, wpos: AtomicUsize::new(0) }
    }

    /// Append one sample (real-time thread).
    pub fn push_bits(&self, bits: u32)
        requires
            self.spec_len() == RING,
    {
        let i = self.wpos.fetch_add(1, Ordering::Relaxed);
        self.buf[i % RING].store(bits, Ordering::Relaxed);
    }

    /// Copy the most recent `FFT_SIZE` samples, oldest first.
    pub fn snapshot_bits(&self, out: &mut Vec<u32>)
        requires
            self.spec_len() == RING,
            old(out)@.len() == FFT_SIZE,
        ensures
            final(out)@.len() == FFT_SIZE,
    {
        let end = self.wpos.load(Ordering::Relaxed);
        let mut i: usize = 0;
        while i < FFT_SIZE
            invariant
                self.spec_len() == RING,
                out@.len() == FFT_SIZE,
                i <= FFT_SIZE,
            decreases FFT_SIZE - i,
        {
            let s = window_slot(end, i);
            let v = self.buf[s].load(Ordering::Relaxed);
            out.set(i, v);
            i = i + 1;
        }
    }
}

} // verus!
