use nettest::protocol::{
    capability_list, download_request, error_reply, greeting_banner, hello_request,
    parse_command, pong_reply, quit_request, upload_ack, upload_request, yourip_reply, Command,
};
use nettest::text::{
    is_blank_text, is_space_byte, parse_decimal, push_bytes, push_decimal, starts_with, trim,
};
use nettest::Failure;

#[test]
fn blank_lines_ask_for_nothing() {
    assert_eq!(parse_command(b""), Ok(None));
    assert_eq!(parse_command(b"\n"), Ok(None));
    assert_eq!(parse_command(b" \t\r\n"), Ok(None));
    assert_eq!(parse_command(b"\x0b\x0c"), Ok(None));
}

#[test]
fn commands_are_known_by_their_first_letters() {
    assert_eq!(parse_command(b"QUIT\n"), Ok(Some(Command::Quit)));
    assert_eq!(parse_command(b"QUITE SO\n"), Ok(Some(Command::Quit)));
    assert_eq!(parse_command(b"GETIP\n"), Ok(Some(Command::GetIp)));
    assert_eq!(parse_command(b"PING 12345\n"), Ok(Some(Command::Ping)));
    assert_eq!(parse_command(b"HI\r\n"), Ok(Some(Command::Hi)));
    assert_eq!(parse_command(b"HIGH\n"), Ok(Some(Command::Hi)));
    assert_eq!(parse_command(b"CAPABILITIES\n"), Ok(Some(Command::Capabilities)));
}

#[test]
fn other_lines_are_unknown_commands() {
    assert_eq!(parse_command(b"HELLO\n"), Ok(Some(Command::Unknown)));
    assert_eq!(parse_command(b" QUIT\n"), Ok(Some(Command::Unknown)));
    assert_eq!(parse_command(b"PING\n"), Ok(Some(Command::Unknown)));
    assert_eq!(parse_command(b"quit\n"), Ok(Some(Command::Unknown)));
    assert_eq!(parse_command(b"DOWNLOAD\n"), Ok(Some(Command::Unknown)));
    assert_eq!(parse_command(b"UPLOAD\n"), Ok(Some(Command::Unknown)));
}

#[test]
fn download_carries_its_size() {
    assert_eq!(parse_command(b"DOWNLOAD 1000\r\n"), Ok(Some(Command::Download(1000))));
    assert_eq!(parse_command(b"DOWNLOAD 0\n"), Ok(Some(Command::Download(0))));
    assert_eq!(parse_command(b"DOWNLOAD    42   \n"), Ok(Some(Command::Download(42))));
    assert_eq!(parse_command(b"DOWNLOAD +7\n"), Ok(Some(Command::Download(7))));
    assert_eq!(parse_command(b"DOWNLOAD 007\n"), Ok(Some(Command::Download(7))));
}

#[test]
fn download_with_a_bad_size_is_malformed() {
    assert_eq!(parse_command(b"DOWNLOAD \n"), Err(Failure::ProtocolViolation));
    assert_eq!(parse_command(b"DOWNLOAD abc\n"), Err(Failure::ProtocolViolation));
    assert_eq!(parse_command(b"DOWNLOAD 12 34\n"), Err(Failure::ProtocolViolation));
    assert_eq!(parse_command(b"DOWNLOAD -1\n"), Err(Failure::ProtocolViolation));
    assert_eq!(parse_command(b"DOWNLOAD +\n"), Err(Failure::ProtocolViolation));
    assert_eq!(
        parse_command(b"DOWNLOAD 99999999999999999999999999\n"),
        Err(Failure::ProtocolViolation)
    );
}

#[test]
fn upload_carries_its_size_in_the_second_word() {
    assert_eq!(parse_command(b"UPLOAD 1000 0\r\n"), Ok(Some(Command::Upload(1000))));
    assert_eq!(parse_command(b"UPLOAD 5\n"), Ok(Some(Command::Upload(5))));
    assert_eq!(parse_command(b"UPLOAD   77   3 4\n"), Ok(Some(Command::Upload(77))));
}

#[test]
fn upload_without_a_size_is_malformed() {
    assert_eq!(parse_command(b"UPLOAD \n"), Err(Failure::ProtocolViolation));
    assert_eq!(parse_command(b"UPLOAD x 5\n"), Err(Failure::ProtocolViolation));
    assert_eq!(parse_command(b"UPLOAD 1x\n"), Err(Failure::ProtocolViolation));
}

#[test]
fn requests_read_as_they_were_written() {
    for n in [0usize, 1, 9, 10, 11, 12, 1000, 1048576, usize::MAX] {
        assert_eq!(parse_command(&download_request(n)), Ok(Some(Command::Download(n))));
        assert_eq!(parse_command(&upload_request(n)), Ok(Some(Command::Upload(n))));
    }
    assert_eq!(parse_command(hello_request()), Ok(Some(Command::Hi)));
    assert_eq!(parse_command(quit_request()), Ok(Some(Command::Quit)));
}

#[test]
fn request_lines_are_exact() {
    assert_eq!(download_request(1000), b"DOWNLOAD 1000\r\n".to_vec());
    assert_eq!(download_request(0), b"DOWNLOAD 0\r\n".to_vec());
    assert_eq!(upload_request(1000), b"UPLOAD 1000 0\r\n".to_vec());
    assert_eq!(hello_request(), b"HI\r\n");
    assert_eq!(quit_request(), b"QUIT\r\n");
}

#[test]
fn replies_are_exact() {
    assert_eq!(greeting_banner(), b"HELLO 2.7(compatiable server)\n");
    assert_eq!(capability_list(), b"CAPABILITIES SERVER_HOST_AUTH UPLOAD_STATS\n");
    assert_eq!(error_reply(), b"ERROR\n");
    assert_eq!(yourip_reply(b"127.0.0.1"), b"YOURIP 127.0.0.1\n".to_vec());
    assert_eq!(yourip_reply(b"::1"), b"YOURIP ::1\n".to_vec());
    assert_eq!(pong_reply(1600000000), b"PONG 1600000000\n".to_vec());
    assert_eq!(pong_reply(0), b"PONG 0\n".to_vec());
    assert_eq!(upload_ack(1000, 1600000000), b"Ok 1000 1600000000\n".to_vec());
}

#[test]
fn decimal_reads_what_decimal_writes() {
    for n in [0u64, 1, 9, 10, 99, 100, 12345, u32::MAX as u64, u64::MAX] {
        let mut out = Vec::new();
        push_decimal(&mut out, n);
        assert_eq!(out, n.to_string().into_bytes());
        assert_eq!(parse_decimal(&out), Some(n as usize));
    }
}

#[test]
fn decimal_appends_to_what_is_there() {
    let mut out = b"n=".to_vec();
    push_decimal(&mut out, 120);
    assert_eq!(out, b"n=120".to_vec());
}

#[test]
fn decimal_refuses_what_is_no_number() {
    assert_eq!(parse_decimal(b""), None);
    assert_eq!(parse_decimal(b"+"), None);
    assert_eq!(parse_decimal(b"-5"), None);
    assert_eq!(parse_decimal(b"5 "), None);
    assert_eq!(parse_decimal(b" 5"), None);
    assert_eq!(parse_decimal(b"++5"), None);
    assert_eq!(parse_decimal(b"0x10"), None);
    assert_eq!(parse_decimal(b"18446744073709551616"), None);
    assert_eq!(parse_decimal(b"18446744073709551615"), Some(usize::MAX));
    assert_eq!(parse_decimal(b"+0018446744073709551615"), Some(usize::MAX));
}

#[test]
fn white_space_is_the_six_bytes() {
    for b in 0u8..=255 {
        let expected = matches!(b, 0x09 | 0x0a | 0x0b | 0x0c | 0x0d | 0x20);
        assert_eq!(is_space_byte(b), expected);
    }
    assert!(is_blank_text(b""));
    assert!(is_blank_text(b" \n"));
    assert!(!is_blank_text(b" a "));
}

#[test]
fn trimming_and_appending() {
    assert_eq!(trim(b"  ab c \r\n"), b"ab c");
    assert_eq!(trim(b"abc"), b"abc");
    assert_eq!(trim(b" \n "), b"");
    assert_eq!(trim(b""), b"");
    assert_eq!(trim(b"\x0b\x0cx\t"), b"x");
    let mut out = b"ab".to_vec();
    push_bytes(&mut out, b"cd");
    push_bytes(&mut out, b"");
    assert_eq!(out, b"abcd".to_vec());
}

#[test]
fn prefixes() {
    assert!(starts_with(b"DOWNLOAD 5", b"DOWNLOAD "));
    assert!(starts_with(b"abc", b""));
    assert!(starts_with(b"abc", b"abc"));
    assert!(!starts_with(b"ab", b"abc"));
    assert!(!starts_with(b"abd", b"abc"));
}
