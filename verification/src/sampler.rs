//! Periodic sampling of the rate of a transfer.
//!
//! A sampler is told of every chunk that moved and answers, whenever the bytes
//! since the last sample make up a step, with the size of the interval. The
//! caller divides by the time the interval took. Samples are for reporting
//! alone: the measurement of the whole transfer rests on other counts.

use crate::MB;
use vstd::prelude::*;

verus! {

/// The step between samples of a transfer of `total` bytes: a thirty-second
/// of the transfer, and a mebibyte at least.
pub open spec fn sample_step(total: nat) -> nat {
    if total / 32 >= MB {
        total / 32
    } else {
        MB as nat
    }
}

/// The bytes of a transfer of `size` mebibytes.
pub open spec fn transfer_bytes(size: nat) -> nat {
    size * (MB as nat)
}

/// The bytes of a transfer of `size` mebibytes, where the machine's sizes hold them.
pub fn transfer_size(size: usize) -> (bytes: Option<usize>)
    ensures
        bytes is Some <==> transfer_bytes(size as nat) <= usize::MAX,
        bytes matches Some(b) ==> b == transfer_bytes(size as nat),
{
    size.checked_mul(MB)
}

/// Bytes moved since the last sample, and the step at which a sample is due.
#[derive(Clone, Copy, Debug, PartialEq, Eq, Structural)]
pub struct RateSampler {
    /// Bytes that make a sample due.
    pub step: usize,
    /// Bytes moved since the last sample.
    pub pending: usize,
}

impl RateSampler {
    /// Bytes since the last sample once `bytes` more have moved, held at the
    /// largest size where they would pass it.
    pub open spec fn gathered(self, bytes: usize) -> usize {
        if self.pending + bytes <= usize::MAX {
            (self.pending + bytes) as usize
        } else {
            usize::MAX
        }
    }

    /// The interval to report once `bytes` more have moved, if a sample is due.
    pub open spec fn sample(self, bytes: usize) -> Option<usize> {
        if self.gathered(bytes) >= self.step {
            Some(self.gathered(bytes))
        } else {
            None
        }
    }

    /// The sampler once `bytes` more have moved.
    pub open spec fn after(self, bytes: usize) -> RateSampler {
        RateSampler {
            step: self.step,
            pending: if self.gathered(bytes) >= self.step {
                0
            } else {
                self.gathered(bytes)
            },
        }
    }

    /// The sampler for a transfer of `total` bytes, before anything has moved.
    pub open spec fn new_spec(total: usize) -> RateSampler {
        RateSampler { step: sample_step(total as nat) as usize, pending: 0 }
    }

    /// A sampler for a transfer of `total` bytes.
    pub fn new(total: usize) -> (s: RateSampler)
        ensures
            s == Self::new_spec(total),
            s.step == sample_step(total as nat),
            s.pending == 0,
    {
        let step = if total / 32 >= MB {
            total / 32
        } else {
            MB
        };
        RateSampler { step, pending: 0 }
    }

    /// Notes that `bytes` more have moved. Answers with the size of the
    /// interval when a sample is due, and begins a new interval then.
    pub fn record(&mut self, bytes: usize) -> (due: Option<usize>)
        ensures
            due == old(self).sample(bytes),
            *final(self) == old(self).after(bytes),
    {
        let gathered = match self.pending.checked_add(bytes) {
            Some(g) => g,
            None => usize::MAX,
        };
        if gathered >= self.step {
            self.pending = 0;
            Some(gathered)
        } else {
            self.pending = gathered;
            None
        }
    }
}

} // verus!
