//! What the probes decide for themselves: the payload of a UDP echo, whether
//! an echo came back whole, and what a failed socket call amounts to.

use crate::bytes::{le64, push_le64};
use crate::random::{alphanumeric_stream, draw_alphanumeric, is_alphanumeric};
use crate::Failure;
use vstd::prelude::*;

verus! {

/// Bytes that the time stamp takes at the front of a UDP echo.
pub const STAMP_LEN: usize = 8;

/// How a call on a socket failed, as far as the probes tell failures apart.
#[derive(Clone, Copy, Debug, PartialEq, Eq, Structural)]
pub enum IoFault {
    /// The call would have blocked beyond its deadline.
    WouldBlock,
    /// The deadline passed.
    TimedOut,
    /// The system refused for want of permission.
    PermissionDenied,
    /// Anything else.
    Other,
}

/// What a failed receive amounts to: a timeout where the deadline passed, a
/// failure of the transport otherwise.
pub open spec fn receive_failure(fault: IoFault) -> Failure {
    match fault {
        IoFault::WouldBlock => Failure::Timeout,
        IoFault::TimedOut => Failure::Timeout,
        IoFault::PermissionDenied => Failure::Transport,
        IoFault::Other => Failure::Transport,
    }
}

/// What a failed attempt to open a socket amounts to: want of permission is
/// told apart from every other failure, because the user can mend it.
pub open spec fn setup_failure(fault: IoFault) -> Failure {
    match fault {
        IoFault::PermissionDenied => Failure::PermissionDenied,
        IoFault::WouldBlock => Failure::SocketSetup,
        IoFault::TimedOut => Failure::SocketSetup,
        IoFault::Other => Failure::SocketSetup,
    }
}

/// What a failed connect, send or receive on a stream amounts to.
pub fn classify_receive(fault: IoFault) -> (f: Failure)
    ensures
        f == receive_failure(fault),
{
    match fault {
        IoFault::WouldBlock => Failure::Timeout,
        IoFault::TimedOut => Failure::Timeout,
        IoFault::PermissionDenied => Failure::Transport,
        IoFault::Other => Failure::Transport,
    }
}

/// What a failed attempt to open a socket amounts to.
pub fn classify_setup(fault: IoFault) -> (f: Failure)
    ensures
        f == setup_failure(fault),
{
    match fault {
        IoFault::PermissionDenied => Failure::PermissionDenied,
        IoFault::WouldBlock => Failure::SocketSetup,
        IoFault::TimedOut => Failure::SocketSetup,
        IoFault::Other => Failure::SocketSetup,
    }
}

/// The sequence number of the next probe: one more, and zero after the largest.
pub fn advance_seq(seq: u16) -> (next: u16)
    ensures
        next == if seq == u16::MAX {
            0
        } else {
            seq + 1
        },
{
    if seq == u16::MAX {
        0
    } else {
        seq + 1
    }
}

/// The payload of a UDP echo of `size` bytes made at `now` seconds after the
/// epoch: the time stamp, least significant byte first, then alphanumeric
/// filler that the time stamp determines.
pub open spec fn udp_payload_bytes(now: u64, size: usize) -> Seq<u8> {
    le64(now) + alphanumeric_stream(now, (size - STAMP_LEN) as nat)
}

/// The payload of a UDP echo of `size` bytes. A size that does not hold the
/// time stamp cannot be met.
pub fn udp_payload(now: u64, size: usize) -> (payload: Result<Vec<u8>, Failure>)
    ensures
        payload is Ok <==> size >= STAMP_LEN,
        payload matches Ok(p) ==> {
            &&& p@ == udp_payload_bytes(now, size)
            &&& p@.len() == size
            &&& forall|i: int| STAMP_LEN <= i < p@.len() ==> is_alphanumeric(#[trigger] p@[i])
        },
        payload matches Err(e) ==> e == Failure::SizeMismatch,
{
    if size < STAMP_LEN {
        return Err(Failure::SizeMismatch);
    }
    let mut p: Vec<u8> = Vec::with_capacity(size);
    push_le64(&mut p, now);
    let filler = draw_alphanumeric(now, size - STAMP_LEN);
    let ghost head = p@;
    p.extend_from_slice(filler.as_slice());
    proof {
        assert(p@ =~= head + filler@);
        assert forall|i: int| STAMP_LEN <= i < p@.len() implies is_alphanumeric(
            #[trigger] p@[i],
        ) by {
            assert(p@[i] == filler@[i - STAMP_LEN]);
        }
    }
    Ok(p)
}

/// Whether an echo went out whole and came back whole.
pub fn check_echo(size: usize, sent: usize, received: usize) -> (r: Result<(), Failure>)
    ensures
        r is Ok <==> sent == size && received == sent,
        r matches Err(e) ==> e == Failure::SizeMismatch,
{
    if sent == size && received == sent {
        Ok(())
    } else {
        Err(Failure::SizeMismatch)
    }
}

} // verus!
