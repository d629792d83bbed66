//! Channel layout of bass management: which output carries the summed bass,
//! and how many main channels feed the mono sum.

use vstd::prelude::*;

verus! {

/// Outputs of a bass manager: `channels` outputs (at least 1), optionally one
/// of them a dedicated sub channel.
#[derive(Debug, Clone, Copy, PartialEq, Eq)]
pub struct BassLayout {
    pub channels: usize,
    pub sub_channel: Option<usize>,
}

impl BassLayout {
    /// Layout for `channels` outputs (at least 1); a sub channel index that is
    /// not an output is dropped, and the bass then folds into the mains.
    pub fn new(channels: usize, sub_channel: Option<usize>) -> (l: BassLayout)
        ensures
            l.channels == if channels > 1 {
                channels
            } else {
                1
            },
            l.sub_channel == match sub_channel {
                Some(c) => if c < l.channels {
                    Some(c)
                } else {
                    None
                },
                None => None,
            },
    {
        let channels = if channels > 1 {
            channels
        } else {
            1
        };
        let sub_channel = match sub_channel {
            Some(c) => if c < channels {
                Some(c)
            } else {
                None
            },
            None => None,
        };
        BassLayout { channels, sub_channel }
    }

    /// Output `c` is the dedicated sub channel.
    pub fn is_sub(&self, c: usize) -> (b: bool)
        ensures
            b == (self.sub_channel == Some(c)),
    {
        match self.sub_channel {
            Some(s) => s == c,
            None => false,
        }
    }

    /// Number of main (non-sub) channels, which are mono-summed.
    pub fn mains(&self) -> (n: usize)
        requires
            self.sub_channel matches Some(c) ==> c < self.channels,
        ensures
            n == self.channels - if self.sub_channel is Some {
                1int
            } else {
                0
            },
    {
        match self.sub_channel {
            Some(_) => self.channels - 1,
            None => self.channels,
        }
    }
}

} // verus!
