//! The extended ICMP echo header and the packets of a ping.
//!
//! Sixteen bytes on the wire: type, code, checksum, identifier and sequence
//! number as in an echo message, the last three of them in network byte order,
//! and behind them the second at which the probe was made, least significant
//! byte first. Checksum and identifier are sent as zero; the system fills
//! them in. Filler follows up to the size that was asked for.

use crate::bytes::{
    be16, be16_value, le64, le64_value, lemma_be16_round_trip, lemma_le64_round_trip, push_be16,
    push_le64, read_be16, read_le64,
};
use crate::random::{alphanumeric_stream, draw_alphanumeric, is_alphanumeric};
use crate::Failure;
use vstd::prelude::*;

verus! {

/// Bytes in the extended header.
pub const HEADER_LEN: usize = 16;

/// The kinds of echo message.
#[derive(Clone, Copy, Debug, PartialEq, Eq, Structural)]
pub enum IcmpType {
    EchoReply,
    EchoRequest,
    EchoRequestV6,
    EchoReplyV6,
}

impl IcmpType {
    /// The byte that stands for the kind on the wire.
    pub open spec fn wire(self) -> u8 {
        match self {
            IcmpType::EchoReply => 0,
            IcmpType::EchoRequest => 8,
            IcmpType::EchoRequestV6 => 128,
            IcmpType::EchoReplyV6 => 129,
        }
    }

    /// The kind that a byte stands for, if any.
    pub open spec fn of_wire(byte: u8) -> Option<IcmpType> {
        if byte == 0 {
            Some(IcmpType::EchoReply)
        } else if byte == 8 {
            Some(IcmpType::EchoRequest)
        } else if byte == 128 {
            Some(IcmpType::EchoRequestV6)
        } else if byte == 129 {
            Some(IcmpType::EchoReplyV6)
        } else {
            None
        }
    }

    /// The byte that stands for the kind on the wire.
    pub fn to_byte(self) -> (byte: u8)
        ensures
            byte == self.wire(),
    {
        match self {
            IcmpType::EchoReply => 0,
            IcmpType::EchoRequest => 8,
            IcmpType::EchoRequestV6 => 128,
            IcmpType::EchoReplyV6 => 129,
        }
    }

    /// The kind that a byte stands for. A byte that stands for none has
    /// nothing to do with a ping.
    pub fn try_from(byte: u8) -> (kind: Result<IcmpType, Failure>)
        ensures
            kind == match Self::of_wire(byte) {
                Some(k) => Ok::<IcmpType, Failure>(k),
                None => Err(Failure::ProtocolViolation),
            },
    {
        match byte {
            0 => Ok(IcmpType::EchoReply),
            8 => Ok(IcmpType::EchoRequest),
            128 => Ok(IcmpType::EchoRequestV6),
            129 => Ok(IcmpType::EchoReplyV6),
            _ => Err(Failure::ProtocolViolation),
        }
    }
}

/// The extended echo header.
#[derive(Clone, Copy, Debug, PartialEq, Eq, Structural)]
pub struct Icmphdr {
    pub icmp_type: IcmpType,
    /// Always zero in an echo message.
    pub code: u8,
    /// Computed by the system.
    pub checksum: u16,
    /// Assigned by the system.
    pub id: u16,
    pub seq: u16,
    /// Seconds since the epoch; no part of ICMP itself.
    pub time_stamp: u64,
}

/// The sixteen bytes of a header.
pub open spec fn encoding(h: Icmphdr) -> Seq<u8> {
    seq![h.icmp_type.wire(), h.code] + be16(h.checksum) + be16(h.id) + be16(h.seq) + le64(
        h.time_stamp,
    )
}

/// The header that a buffer begins with. A buffer of fewer than sixteen bytes
/// holds none, nor does one whose first byte is no kind of echo message.
pub open spec fn decoding(b: Seq<u8>) -> Result<Icmphdr, Failure> {
    if b.len() < HEADER_LEN {
        Err(Failure::ProtocolViolation)
    } else {
        match IcmpType::of_wire(b[0]) {
            None => Err(Failure::ProtocolViolation),
            Some(kind) => Ok(
                Icmphdr {
                    icmp_type: kind,
                    code: b[1],
                    checksum: be16_value(b[2], b[3]),
                    id: be16_value(b[4], b[5]),
                    seq: be16_value(b[6], b[7]),
                    time_stamp: le64_value(b.subrange(8, 16)),
                },
            ),
        }
    }
}

/// The sequence number that follows: one more, and zero after the largest.
pub open spec fn next_seq(seq: u16) -> u16 {
    if seq == u16::MAX {
        0
    } else {
        (seq + 1) as u16
    }
}

/// The size of the packet that is sent when `size` bytes are asked for: the
/// header is always sent whole.
pub open spec fn effective_size(size: usize) -> nat {
    if size < HEADER_LEN {
        HEADER_LEN as nat
    } else {
        size as nat
    }
}

/// How much filler stands behind the header when `size` bytes are asked for.
pub open spec fn echo_filler_len(size: usize) -> nat {
    (effective_size(size) - HEADER_LEN) as nat
}

impl Icmphdr {
    /// The header of an echo request with sequence number `seq`, for IPv6 or
    /// for IPv4, made at `now` seconds after the epoch.
    pub fn echo(seq: u16, v6: bool, now: u64) -> (h: Icmphdr)
        ensures
            h == (Icmphdr {
                icmp_type: if v6 {
                    IcmpType::EchoRequestV6
                } else {
                    IcmpType::EchoRequest
                },
                code: 0,
                checksum: 0,
                id: 0,
                seq,
                time_stamp: now,
            }),
    {
        Icmphdr {
            icmp_type: if v6 {
                IcmpType::EchoRequestV6
            } else {
                IcmpType::EchoRequest
            },
            code: 0,
            checksum: 0,
            id: 0,
            seq,
            time_stamp: now,
        }
    }

    /// Readies the header for the next probe, made at `now` seconds after the
    /// epoch: the sequence number moves on, and wraps after the largest.
    pub fn bump(&mut self, now: u64)
        ensures
            *final(self) == (Icmphdr { seq: next_seq(old(self).seq), time_stamp: now, ..*old(self) }),
    {
        self.seq = if self.seq == u16::MAX {
            0
        } else {
            self.seq + 1
        };
        self.time_stamp = now;
    }

    /// The bytes of the header as they go on the wire.
    pub fn vec(&self) -> (bytes: Vec<u8>)
        ensures
            bytes@ == encoding(*self),
            bytes@.len() == HEADER_LEN,
    {
        let mut bytes: Vec<u8> = Vec::with_capacity(HEADER_LEN);
        bytes.push(self.icmp_type.to_byte());
        bytes.push(self.code);
        assert(bytes@ =~= seq![self.icmp_type.wire(), self.code]);
        push_be16(&mut bytes, self.checksum);
        push_be16(&mut bytes, self.id);
        push_be16(&mut bytes, self.seq);
        push_le64(&mut bytes, self.time_stamp);
        bytes
    }

    /// The header that a buffer begins with.
    pub fn try_from(buf: &[u8]) -> (h: Result<Icmphdr, Failure>)
        ensures
            h == decoding(buf@),
    {
        if buf.len() < HEADER_LEN {
            return Err(Failure::ProtocolViolation);
        }
        let kind = match IcmpType::try_from(buf[0]) {
            Ok(k) => k,
            Err(e) => {
                return Err(e);
            },
        };
        Ok(
            Icmphdr {
                icmp_type: kind,
                code: buf[1],
                checksum: read_be16(buf[2], buf[3]),
                id: read_be16(buf[4], buf[5]),
                seq: read_be16(buf[6], buf[7]),
                time_stamp: read_le64(buf, 8),
            },
        )
    }
}

/// Every kind of echo message is read back from its byte.
pub proof fn lemma_kind_round_trip(kind: IcmpType)
    ensures
        IcmpType::of_wire(kind.wire()) == Some(kind),
{
}

/// Decoding the bytes of a header gives the header back: kind, code, checksum,
/// identifier, sequence number and time stamp, each unchanged.
pub proof fn lemma_decode_encode(h: Icmphdr)
    ensures
        encoding(h).len() == HEADER_LEN,
        decoding(encoding(h)) == Ok::<Icmphdr, Failure>(h),
{
    let b = encoding(h);
    lemma_kind_round_trip(h.icmp_type);
    lemma_be16_round_trip(h.checksum);
    lemma_be16_round_trip(h.id);
    lemma_be16_round_trip(h.seq);
    lemma_le64_round_trip(h.time_stamp);
    assert(b.len() == 16);
    assert(b[0] == h.icmp_type.wire());
    assert(b[1] == h.code);
    assert(b[2] == be16(h.checksum)[0] && b[3] == be16(h.checksum)[1]);
    assert(b[4] == be16(h.id)[0] && b[5] == be16(h.id)[1]);
    assert(b[6] == be16(h.seq)[0] && b[7] == be16(h.seq)[1]);
    assert(b.subrange(8, 16) =~= le64(h.time_stamp));
}

/// The packet of one probe. The header moves on to the next sequence number
/// and to the second `now`; behind it stands alphanumeric filler, determined
/// by the second of the probe before, up to `size` bytes in all.
pub fn next_echo_packet(hdr: &mut Icmphdr, size: usize, now: u64) -> (packet: Vec<u8>)
    ensures
        *final(hdr) == (Icmphdr { seq: next_seq(old(hdr).seq), time_stamp: now, ..*old(hdr) }),
        packet@ == encoding(*final(hdr)) + alphanumeric_stream(
            old(hdr).time_stamp,
            echo_filler_len(size),
        ),
        packet@.len() == effective_size(size),
        forall|i: int|
            HEADER_LEN <= i < packet@.len() ==> is_alphanumeric(#[trigger] packet@[i]),
{
    let filler_len = if size < HEADER_LEN {
        0
    } else {
        size - HEADER_LEN
    };
    let filler = draw_alphanumeric(hdr.time_stamp, filler_len);
    hdr.bump(now);
    let mut packet = hdr.vec();
    let ghost head = packet@;
    packet.extend_from_slice(filler.as_slice());
    proof {
        assert(packet@ =~= head + filler@);
        assert forall|i: int| HEADER_LEN <= i < packet@.len() implies is_alphanumeric(
            #[trigger] packet@[i],
        ) by {
            assert(packet@[i] == filler@[i - HEADER_LEN]);
        }
    }
    packet
}

/// Whether the system sent the whole packet.
pub fn check_sent(sent: usize, packet_len: usize) -> (r: Result<(), Failure>)
    ensures
        r is Ok <==> sent == packet_len,
        r matches Err(e) ==> e == Failure::SizeMismatch,
{
    if sent == packet_len {
        Ok(())
    } else {
        Err(Failure::SizeMismatch)
    }
}

/// What a reply must be, for a probe over IPv6 or over IPv4.
pub open spec fn expected_reply(v6: bool) -> IcmpType {
    if v6 {
        IcmpType::EchoReplyV6
    } else {
        IcmpType::EchoReply
    }
}

/// What is made of a received packet: its header, where the packet holds one,
/// is an echo reply of the family of its source and comes from the target;
/// a violation of the protocol otherwise.
pub open spec fn reply_of(received: Seq<u8>, source_v6: bool, from_target: bool) -> Result<
    Icmphdr,
    Failure,
> {
    match decoding(received) {
        Err(e) => Err(e),
        Ok(h) => if h.icmp_type == expected_reply(source_v6) && from_target {
            Ok(h)
        } else {
            Err(Failure::ProtocolViolation)
        },
    }
}

/// Checks a received packet: `source_v6` tells the family of the address it
/// came from, `from_target` whether that address is the target's.
pub fn check_reply(received: &[u8], source_v6: bool, from_target: bool) -> (r: Result<
    Icmphdr,
    Failure,
>)
    ensures
        r == reply_of(received@, source_v6, from_target),
{
    let h = match Icmphdr::try_from(received) {
        Ok(h) => h,
        Err(e) => {
            return Err(e);
        },
    };
    let wanted = if source_v6 {
        IcmpType::EchoReplyV6
    } else {
        IcmpType::EchoReply
    };
    if h.icmp_type == wanted && from_target {
        Ok(h)
    } else {
        Err(Failure::ProtocolViolation)
    }
}

} // verus!
