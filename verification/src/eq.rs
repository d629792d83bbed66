//! The band gains of the 30-band ISO 1/3-octave graphic EQ.

use vstd::prelude::*;

verus! {

/// Gains of a 30-band graphic EQ, one per ISO 1/3-octave band (20 Hz to
/// 16 kHz, lowest first).
#[derive(Debug, Clone)]
pub struct GraphicEq30<T> {
    gains_db: [T; 30],
}

impl<T: Copy> GraphicEq30<T> {
    pub closed spec fn spec_gains(&self) -> Seq<T> {
        self.gains_db@
    }

    /// Every band at `zero` (flat).
    pub fn flat(zero: T) -> (eq: Self)
        ensures
            eq.spec_gains() == Seq::new(30, |i: int| zero),
    {
        let gains_db = [zero; 30];
        let eq = GraphicEq30 { gains_db };
        assert(eq.spec_gains() =~= Seq::new(30, |i: int| zero));
        eq
    }

    /// The given gains, band by band.
    pub fn from_gains(gains_db: [T; 30]) -> (eq: Self)
        ensures
            eq.spec_gains() == gains_db@,
    {
        GraphicEq30 { gains_db }
    }

    /// Set band `index`; an index past the last band is ignored.
    pub fn set_band(&mut self, index: usize, gain_db: T)
        ensures
            final(self).spec_gains() == if index < 30 {
                old(self).spec_gains().update(index as int, gain_db)
            } else {
                old(self).spec_gains()
            },
    {
        if index < 30 {
            self.gains_db[index] = gain_db;
        }
    }

    /// The band gains.
    pub fn gains(&self) -> (g: &[T; 30])
        ensures
            g@ == self.spec_gains(),
    {
        &self.gains_db
    }

    /// Gain of band `index`.
    pub fn gain(&self, index: usize) -> (g: T)
        requires
            index < 30,
        ensures
            g == self.spec_gains()[index as int],
    {
        self.gains_db[index]
    }
}

} // verus!
