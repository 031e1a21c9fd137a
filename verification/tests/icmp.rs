use nettest::bytes::{push_be16, push_le64, read_be16};
use nettest::icmp::{check_reply, check_sent, next_echo_packet, IcmpType, Icmphdr, HEADER_LEN};
use nettest::Failure;

fn header(kind: IcmpType, seq: u16, stamp: u64) -> Icmphdr {
    Icmphdr { icmp_type: kind, code: 0, checksum: 0, id: 0, seq, time_stamp: stamp }
}

#[test]
fn kinds_stand_for_their_bytes() {
    assert_eq!(IcmpType::EchoReply.to_byte(), 0);
    assert_eq!(IcmpType::EchoRequest.to_byte(), 8);
    assert_eq!(IcmpType::EchoRequestV6.to_byte(), 128);
    assert_eq!(IcmpType::EchoReplyV6.to_byte(), 129);
    for b in 0u8..=255 {
        match IcmpType::try_from(b) {
            Ok(kind) => assert_eq!(kind.to_byte(), b),
            Err(e) => {
                assert_eq!(e, Failure::ProtocolViolation);
                assert!(!matches!(b, 0 | 8 | 128 | 129));
            }
        }
    }
    assert_eq!(IcmpType::try_from(3), Err(Failure::ProtocolViolation));
}

#[test]
fn echo_header_is_a_request_with_zero_checksum_and_id() {
    assert_eq!(
        Icmphdr::echo(7, false, 1600000000),
        Icmphdr {
            icmp_type: IcmpType::EchoRequest,
            code: 0,
            checksum: 0,
            id: 0,
            seq: 7,
            time_stamp: 1600000000
        }
    );
    assert_eq!(Icmphdr::echo(0, true, 5).icmp_type, IcmpType::EchoRequestV6);
}

#[test]
fn header_layout_is_exact() {
    let h = Icmphdr {
        icmp_type: IcmpType::EchoRequest,
        code: 0,
        checksum: 0x1234,
        id: 0xabcd,
        seq: 0x0102,
        time_stamp: 0x0807060504030201,
    };
    assert_eq!(
        h.vec(),
        vec![8, 0, 0x12, 0x34, 0xab, 0xcd, 0x01, 0x02, 1, 2, 3, 4, 5, 6, 7, 8]
    );
    assert_eq!(h.vec().len(), HEADER_LEN);
    assert_eq!(HEADER_LEN, 16);
    let v6 = Icmphdr::echo(1, true, 0x5f5e1000);
    assert_eq!(
        v6.vec(),
        vec![128, 0, 0, 0, 0, 0, 0, 1, 0x00, 0x10, 0x5e, 0x5f, 0, 0, 0, 0]
    );
}

#[test]
fn decoding_gives_back_what_was_encoded() {
    let kinds = [
        IcmpType::EchoReply,
        IcmpType::EchoRequest,
        IcmpType::EchoRequestV6,
        IcmpType::EchoReplyV6,
    ];
    let numbers = [0u16, 1, 255, 256, 0x1234, u16::MAX];
    let stamps = [0u64, 1, 255, 256, 1600000000, 0x0102030405060708, u64::MAX];
    for kind in kinds {
        for n in numbers {
            for stamp in stamps {
                let h = Icmphdr {
                    icmp_type: kind,
                    code: (n % 256) as u8,
                    checksum: n,
                    id: n ^ 0x5555,
                    seq: n.wrapping_mul(3),
                    time_stamp: stamp,
                };
                assert_eq!(Icmphdr::try_from(&h.vec()), Ok(h));
            }
        }
    }
}

#[test]
fn decoding_reads_the_first_sixteen_bytes() {
    let mut bytes = header(IcmpType::EchoReply, 9, 77).vec();
    bytes.extend_from_slice(b"filler behind the header");
    assert_eq!(Icmphdr::try_from(&bytes), Ok(header(IcmpType::EchoReply, 9, 77)));
}

#[test]
fn decoding_refuses_short_or_foreign_buffers() {
    let bytes = header(IcmpType::EchoReply, 9, 77).vec();
    assert_eq!(Icmphdr::try_from(&bytes[..15]), Err(Failure::ProtocolViolation));
    assert_eq!(Icmphdr::try_from(b""), Err(Failure::ProtocolViolation));
    let mut foreign = bytes.clone();
    foreign[0] = 3;
    assert_eq!(Icmphdr::try_from(&foreign), Err(Failure::ProtocolViolation));
}

#[test]
fn bump_moves_on_and_wraps() {
    let mut h = Icmphdr::echo(0, false, 10);
    h.bump(11);
    assert_eq!(h, header(IcmpType::EchoRequest, 1, 11));
    h.seq = u16::MAX - 1;
    h.bump(12);
    assert_eq!(h, header(IcmpType::EchoRequest, u16::MAX, 12));
    h.bump(13);
    assert_eq!(h, header(IcmpType::EchoRequest, 0, 13));
}

#[test]
fn echo_packet_is_header_and_alphanumeric_filler() {
    let mut h = Icmphdr::echo(0, false, 1600000000);
    let p = next_echo_packet(&mut h, 64, 1600000001);
    assert_eq!(h, header(IcmpType::EchoRequest, 1, 1600000001));
    assert_eq!(p.len(), 64);
    assert_eq!(&p[..16], &h.vec()[..]);
    assert!(p[16..].iter().all(|b| b.is_ascii_alphanumeric()));
    assert!(p[16..].iter().any(|b| *b != p[16]));
}

#[test]
fn echo_filler_is_determined_by_the_second_before() {
    let mut a = Icmphdr::echo(0, false, 1600000000);
    let mut b = Icmphdr::echo(5, true, 1600000000);
    let pa = next_echo_packet(&mut a, 200, 1);
    let pb = next_echo_packet(&mut b, 100, 2);
    assert_eq!(&pa[16..100], &pb[16..]);
    let mut c = Icmphdr::echo(0, false, 1600000001);
    let pc = next_echo_packet(&mut c, 200, 1);
    assert_ne!(&pa[16..], &pc[16..]);
}

#[test]
fn echo_packet_is_never_shorter_than_its_header() {
    for size in [0usize, 1, 15, 16] {
        let mut h = Icmphdr::echo(3, true, 5);
        let p = next_echo_packet(&mut h, size, 6);
        assert_eq!(p, header(IcmpType::EchoRequestV6, 4, 6).vec());
    }
    let mut h = Icmphdr::echo(3, true, 5);
    assert_eq!(next_echo_packet(&mut h, 17, 6).len(), 17);
}

#[test]
fn sent_size_must_be_the_packet_size() {
    assert_eq!(check_sent(64, 64), Ok(()));
    assert_eq!(check_sent(63, 64), Err(Failure::SizeMismatch));
    assert_eq!(check_sent(0, 64), Err(Failure::SizeMismatch));
}

#[test]
fn reply_must_be_an_echo_reply_of_its_family_from_the_target() {
    let v4 = header(IcmpType::EchoReply, 4, 9).vec();
    let v6 = header(IcmpType::EchoReplyV6, 4, 9).vec();
    let request = header(IcmpType::EchoRequest, 4, 9).vec();
    assert_eq!(check_reply(&v4, false, true), Ok(header(IcmpType::EchoReply, 4, 9)));
    assert_eq!(check_reply(&v6, true, true), Ok(header(IcmpType::EchoReplyV6, 4, 9)));
    assert_eq!(check_reply(&v4, true, true), Err(Failure::ProtocolViolation));
    assert_eq!(check_reply(&v6, false, true), Err(Failure::ProtocolViolation));
    assert_eq!(check_reply(&request, false, true), Err(Failure::ProtocolViolation));
    assert_eq!(check_reply(&v4, false, false), Err(Failure::ProtocolViolation));
    assert_eq!(check_reply(&v4[..8], false, true), Err(Failure::ProtocolViolation));
}

#[test]
fn numbers_on_the_wire() {
    let mut out = Vec::new();
    push_be16(&mut out, 0x1234);
    push_le64(&mut out, 0x0807060504030201);
    assert_eq!(out, vec![0x12, 0x34, 1, 2, 3, 4, 5, 6, 7, 8]);
    assert_eq!(read_be16(0x12, 0x34), 0x1234);
    assert_eq!(read_be16(0xff, 0xff), u16::MAX);
}
