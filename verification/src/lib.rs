//! A network measurement toolkit.
//!
//! The library holds the rules of the toolkit as verified code: the line
//! protocol spoken between client and server, the byte-exact framing of
//! downloads, the accounting of uploads, the extended ICMP echo header, the
//! periodic rate sampling of throughput probes and the statistics computed
//! over a batch of probe results. Sockets, clocks and schedulers stay with the
//! caller, which hands the library plain values and acts on what it returns.

use vstd::prelude::*;

pub mod bytes;
pub mod counter;
pub mod download;
pub mod frame;
pub mod icmp;
pub mod pool;
pub mod probe;
pub mod protocol;
pub mod quic;
pub mod random;
pub mod sampler;
pub mod server;
pub mod session;
pub mod speedtest;
pub mod stats;
pub mod text;
pub mod upload;

verus! {

/// One mebibyte: the unit of transfer sizes and the bound on a single chunk.
pub const MB: usize = 1048576;

/// Nanoseconds in one second.
pub const NANOS_PER_SEC: u64 = 1_000_000_000;

/// A span of time in whole nanoseconds.
#[derive(Clone, Copy, Debug, PartialEq, Eq, Structural)]
pub struct Elapsed {
    pub nanos: u64,
}

impl Elapsed {
    /// The span of `nanos` nanoseconds.
    pub fn from_nanos(nanos: u64) -> (e: Elapsed)
        ensures
            e.nanos == nanos,
    {
        Elapsed { nanos }
    }

    /// The span of `secs` seconds, or the longest span that can be held where
    /// that many seconds do not fit.
    pub fn from_secs(secs: u64) -> (e: Elapsed)
        ensures
            e.nanos == if secs * NANOS_PER_SEC <= u64::MAX {
                secs * NANOS_PER_SEC
            } else {
                u64::MAX as int
            },
    {
        if secs <= u64::MAX / NANOS_PER_SEC {
            Elapsed { nanos: secs * NANOS_PER_SEC }
        } else {
            Elapsed { nanos: u64::MAX }
        }
    }

    /// Whole microseconds in the span.
    pub fn as_micros(&self) -> (m: u64)
        ensures
            m == self.nanos / 1000,
    {
        self.nanos / 1000
    }
}

/// What one run of a task measured.
#[derive(Clone, Copy, Debug, PartialEq, Eq, Structural)]
pub enum Measurement {
    /// A latency: the time one exchange took.
    Time(Elapsed),
    /// A throughput: bytes transferred and the time the whole transfer took.
    Speed(usize, Elapsed),
}

/// Why a single probe, or the setup of a task, did not produce a measurement.
#[derive(Clone, Copy, Debug, PartialEq, Eq, Structural)]
pub enum Failure {
    /// The target has no resolvable address.
    AddressResolution,
    /// The raw socket could not be opened for want of permission.
    PermissionDenied,
    /// A socket could not be bound, connected or configured.
    SocketSetup,
    /// The peer answered with something the protocol does not allow.
    ProtocolViolation,
    /// The deadline passed before the exchange completed.
    Timeout,
    /// Declared and observed byte counts differ.
    SizeMismatch,
    /// The server was sent a command it does not know.
    UnknownCommand,
    /// The transport failed in some other way.
    Transport,
    /// The caller asked for what cannot be done, such as no probe at all.
    Usage,
}

impl Failure {
    /// What the user is told of the failure. Want of permission comes with
    /// the way to mend it.
    pub open spec fn text(self) -> Seq<char> {
        match self {
            Failure::AddressResolution => "Can't resolve IP address"@,
            Failure::PermissionDenied =>
                "Permission denied, you need to run `sudo sysctl -w net.ipv4.ping_group_range='0 1000'`"@,
            Failure::SocketSetup => "Failed to set up the socket"@,
            Failure::ProtocolViolation => "Received data isn't what the protocol allows"@,
            Failure::Timeout => "Timed out"@,
            Failure::SizeMismatch => "Sent and received sizes differ"@,
            Failure::UnknownCommand => "unknown command"@,
            Failure::Transport => "Failed to send or receive"@,
            Failure::Usage => "count = 0 means don't run anything"@,
        }
    }

    /// What the user is told of the failure.
    pub fn message(self) -> (m: &'static str)
        ensures
            m@ == self.text(),
    {
        match self {
            Failure::AddressResolution => "Can't resolve IP address",
            Failure::PermissionDenied =>
                "Permission denied, you need to run `sudo sysctl -w net.ipv4.ping_group_range='0 1000'`",
            Failure::SocketSetup => "Failed to set up the socket",
            Failure::ProtocolViolation => "Received data isn't what the protocol allows",
            Failure::Timeout => "Timed out",
            Failure::SizeMismatch => "Sent and received sizes differ",
            Failure::UnknownCommand => "unknown command",
            Failure::Transport => "Failed to send or receive",
            Failure::Usage => "count = 0 means don't run anything",
        }
    }
}

/// A measurement task: each run makes one probe.
pub trait Task {
    fn run(&mut self) -> Result<Measurement, Failure>;
}

} // verus!
