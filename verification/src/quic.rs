//! What a download over QUIC decides for itself: how much has arrived, when a
//! sample is due, when the connection is to be closed, and what the run
//! amounts to. The transport is the caller's.

use crate::sampler::RateSampler;
use crate::{Elapsed, Failure, Measurement};
use vstd::prelude::*;

verus! {

/// The stream on which the download is asked for and delivered.
pub const DOWNLOAD_STREAM: u64 = 3;

/// The largest datagram that is sent.
pub const MAX_DATAGRAM_SIZE: usize = 1350;

/// What the caller does after a read on a stream.
#[derive(Clone, Copy, Debug, PartialEq, Eq, Structural)]
pub struct QuicStep {
    /// The size of the interval to report, when a sample is due.
    pub sample: Option<usize>,
    /// Whether to close the connection: the download has been delivered.
    pub close: bool,
}

/// A download over QUIC in progress.
#[derive(Clone, Copy, Debug, PartialEq, Eq, Structural)]
pub struct QuicDownload {
    /// Bytes that have arrived, on whatever stream.
    pub received: usize,
    /// The sampler of the rate.
    pub sampler: RateSampler,
}

impl QuicDownload {
    /// Bytes that have arrived once `len` more have, held at the largest size
    /// where they would pass it.
    pub open spec fn received_after(self, len: usize) -> usize {
        if self.received + len <= usize::MAX {
            (self.received + len) as usize
        } else {
            usize::MAX
        }
    }

    /// What the run amounts to after `elapsed`: the bytes that arrived in that
    /// time where the connection has been closed, a violation of the protocol
    /// where it has not.
    pub open spec fn outcome(self, closed: bool, elapsed: Elapsed) -> Result<Measurement, Failure> {
        if closed {
            Ok(Measurement::Speed(self.received, elapsed))
        } else {
            Err(Failure::ProtocolViolation)
        }
    }

    /// A download of `total` bytes of which nothing has arrived.
    pub fn new(total: usize) -> (d: QuicDownload)
        ensures
            d.received == 0,
            d.sampler == RateSampler::new_spec(total),
    {
        QuicDownload { received: 0, sampler: RateSampler::new(total) }
    }

    /// Takes a read of `len` bytes on `stream`; `fin` tells whether they were
    /// the stream's last.
    pub fn on_read(&mut self, stream: u64, len: usize, fin: bool) -> (step: QuicStep)
        ensures
            final(self).received == old(self).received_after(len),
            final(self).sampler == old(self).sampler.after(len),
            step.sample == old(self).sampler.sample(len),
            step.close == (stream == DOWNLOAD_STREAM && fin),
    {
        self.received = match self.received.checked_add(len) {
            Some(n) => n,
            None => usize::MAX,
        };
        let mut sampler = self.sampler;
        let sample = sampler.record(len);
        self.sampler = sampler;
        QuicStep { sample, close: stream == DOWNLOAD_STREAM && fin }
    }

    /// What the run amounts to after `elapsed`; `closed` tells whether the
    /// connection has been closed.
    pub fn finish(&self, closed: bool, elapsed: Elapsed) -> (r: Result<Measurement, Failure>)
        ensures
            r == self.outcome(closed, elapsed),
    {
        if closed {
            Ok(Measurement::Speed(self.received, elapsed))
        } else {
            Err(Failure::ProtocolViolation)
        }
    }
}

} // verus!
