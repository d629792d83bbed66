//! Lock-free per-output level meters and the engine's stop flag, shared
//! between the real-time thread and its controllers.

use vstd::prelude::*;
use std::sync::Arc;
use std::sync::atomic::{AtomicBool, AtomicU32, Ordering};

verus! {

/// Per-output-channel peak meters, one atomic cell per channel holding the
/// bits of an `f32` level. The cells are written by the real-time thread and
/// read by any other, so a read promises only one value per channel.
pub struct Meters {
    peaks: Vec<AtomicU32>,
}

impl Meters {
    pub closed spec fn spec_len(&self) -> nat {
        self.peaks@.len()
    }

    /// `n` meters, all at level zero.
    pub fn new(n: usize) -> (m: Meters)
        ensures
            m.spec_len() == n,
    {
        let mut peaks: Vec<AtomicU32> = Vec::new();
        let mut i: usize = 0;
        while i < n
            invariant
                i <= n,
                peaks@.len() == i,
            decreases n - i,
        {
            peaks.push(AtomicU32::new(0));
            i = i + 1;
        }
        Meters { peaks }
    }

    /// Number of meters.
    pub fn len(&self) -> (n: usize)
        ensures
            n == self.spec_len(),
    {
        self.peaks.len()
    }

    /// Publish the level bits of channel `ch`.
    pub fn store_bits(&self, ch: usize, bits: u32)
        requires
            ch < self.spec_len(),
    {
        self.peaks[ch].store(bits, Ordering::Relaxed);
    }

    /// The current level bits of every channel.
    pub fn read_bits(&self) -> (r: Vec<u32>)
        ensures
            r@.len() == self.spec_len(),
    {
        let mut r: Vec<u32> = Vec::new();
        let mut i: usize = 0;
        while i < self.peaks.len()
            invariant
                i <= self.peaks@.len(),
                r@.len() == i,
            decreases self.peaks@.len() - i,
        {
            r.push(self.peaks[i].load(Ordering::Relaxed));
            i = i + 1;
        }
        r
    }
}

/// A fresh shared stop flag (initially not set).
pub fn stop_flag() -> Arc<AtomicBool> {
    Arc::new(AtomicBool::new(false))
}

} // verus!
