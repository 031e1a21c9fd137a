//! The line protocol: one command per line, and the replies to it.
//!
//! A command is recognised by how its line begins. `DOWNLOAD` and `UPLOAD`
//! carry a byte count in decimal; a line of white space alone asks for
//! nothing.

use crate::text::{
    after_first_token, ascii, ascii_bytes, decimal_digits, is_blank, is_blank_text, is_digit,
    is_space, lemma_decimal_digits_denote, lemma_decimal_round_trip, lemma_digits_hold_no_space,
    lemma_token_len_counts, lemma_trim_end_drops, lemma_trim_start_skips, parse_decimal,
    parsed_size, push_bytes, push_decimal, second_token, starts_with, token_bounds, trim,
    trim_end, trim_start, trimmed,
};
use crate::Failure;
use vstd::prelude::*;
use vstd::slice::slice_subrange;
use vstd::string::*;

verus! {

/// What a line of the protocol asks for.
#[derive(Clone, Copy, Debug, PartialEq, Eq, Structural)]
pub enum Command {
    /// End the connection.
    Quit,
    /// Send a response of exactly this many bytes.
    Download(usize),
    /// Take a payload of this declared size and acknowledge what arrived.
    Upload(usize),
    /// Tell the peer its address.
    GetIp,
    /// Answer with the time.
    Ping,
    /// Greet.
    Hi,
    /// List what the server can do.
    Capabilities,
    /// Anything else that is not white space.
    Unknown,
}

/// What a line means. A blank line is no command and no error; a byte count
/// that cannot be read makes the line malformed.
pub open spec fn command_of(line: Seq<u8>) -> Result<Option<Command>, Failure> {
    if is_blank(line) {
        Ok(None)
    } else if ascii("QUIT"@).is_prefix_of(line) {
        Ok(Some(Command::Quit))
    } else if ascii("DOWNLOAD "@).is_prefix_of(line) {
        match parsed_size(trimmed(line.skip(8))) {
            Some(n) => Ok(Some(Command::Download(n))),
            None => Err(Failure::ProtocolViolation),
        }
    } else if ascii("UPLOAD "@).is_prefix_of(line) {
        match parsed_size(second_token(line)) {
            Some(n) => Ok(Some(Command::Upload(n))),
            None => Err(Failure::ProtocolViolation),
        }
    } else if ascii("GETIP"@).is_prefix_of(line) {
        Ok(Some(Command::GetIp))
    } else if ascii("PING "@).is_prefix_of(line) {
        Ok(Some(Command::Ping))
    } else if ascii("HI"@).is_prefix_of(line) {
        Ok(Some(Command::Hi))
    } else if ascii("CAPABILITIES"@).is_prefix_of(line) {
        Ok(Some(Command::Capabilities))
    } else {
        Ok(Some(Command::Unknown))
    }
}

/// The line that asks for a download of `n` bytes.
pub open spec fn download_request_text(n: nat) -> Seq<u8> {
    ascii("DOWNLOAD "@) + decimal_digits(n) + ascii("\r\n"@)
}

/// The line that announces an upload of `n` bytes.
pub open spec fn upload_request_text(n: nat) -> Seq<u8> {
    ascii("UPLOAD "@) + decimal_digits(n) + ascii(" 0\r\n"@)
}

/// The reply to `GETIP` for a peer whose address reads `ip`.
pub open spec fn yourip_text(ip: Seq<u8>) -> Seq<u8> {
    ascii("YOURIP "@) + ip + ascii("\n"@)
}

/// The reply to `PING` at `secs` seconds after the epoch.
pub open spec fn pong_text(secs: nat) -> Seq<u8> {
    ascii("PONG "@) + decimal_digits(secs) + ascii("\n"@)
}

/// The acknowledgement of an upload of `count` bytes at `secs` seconds after the epoch.
pub open spec fn upload_ack_text(count: nat, secs: nat) -> Seq<u8> {
    ascii("Ok "@) + decimal_digits(count) + ascii(" "@) + decimal_digits(secs) + ascii("\n"@)
}

/// Reads one line of the protocol.
pub fn parse_command(line: &[u8]) -> (r: Result<Option<Command>, Failure>)
    ensures
        r == command_of(line@),
{
    proof {
        reveal_strlit("QUIT");
        reveal_strlit("DOWNLOAD ");
        reveal_strlit("UPLOAD ");
        reveal_strlit("GETIP");
        reveal_strlit("PING ");
        reveal_strlit("HI");
        reveal_strlit("CAPABILITIES");
    }
    if is_blank_text(line) {
        Ok(None)
    } else if starts_with(line, ascii_bytes("QUIT")) {
        Ok(Some(Command::Quit))
    } else if starts_with(line, ascii_bytes("DOWNLOAD ")) {
        let rest = slice_subrange(line, 8, line.len());
        assert(rest@ =~= line@.skip(8));
        match parse_decimal(trim(rest)) {
            Some(n) => Ok(Some(Command::Download(n))),
            None => Err(Failure::ProtocolViolation),
        }
    } else if starts_with(line, ascii_bytes("UPLOAD ")) {
        let (_, first_end) = token_bounds(line, 0);
        let (lo, hi) = token_bounds(line, first_end);
        proof {
            assert(line@.skip(0) =~= line@);
        }
        match parse_decimal(slice_subrange(line, lo, hi)) {
            Some(n) => Ok(Some(Command::Upload(n))),
            None => Err(Failure::ProtocolViolation),
        }
    } else if starts_with(line, ascii_bytes("GETIP")) {
        Ok(Some(Command::GetIp))
    } else if starts_with(line, ascii_bytes("PING ")) {
        Ok(Some(Command::Ping))
    } else if starts_with(line, ascii_bytes("HI")) {
        Ok(Some(Command::Hi))
    } else if starts_with(line, ascii_bytes("CAPABILITIES")) {
        Ok(Some(Command::Capabilities))
    } else {
        Ok(Some(Command::Unknown))
    }
}

/// The line that asks for a download of `n` bytes.
pub fn download_request(n: usize) -> (line: Vec<u8>)
    ensures
        line@ == download_request_text(n as nat),
{
    proof {
        reveal_strlit("DOWNLOAD ");
        reveal_strlit("\r\n");
    }
    let mut line: Vec<u8> = Vec::new();
    push_bytes(&mut line, ascii_bytes("DOWNLOAD "));
    push_decimal(&mut line, n as u64);
    push_bytes(&mut line, ascii_bytes("\r\n"));
    assert(line@ =~= download_request_text(n as nat));
    line
}

/// The line that announces an upload of `n` bytes.
pub fn upload_request(n: usize) -> (line: Vec<u8>)
    ensures
        line@ == upload_request_text(n as nat),
{
    proof {
        reveal_strlit("UPLOAD ");
        reveal_strlit(" 0\r\n");
    }
    let mut line: Vec<u8> = Vec::new();
    push_bytes(&mut line, ascii_bytes("UPLOAD "));
    push_decimal(&mut line, n as u64);
    push_bytes(&mut line, ascii_bytes(" 0\r\n"));
    assert(line@ =~= upload_request_text(n as nat));
    line
}

/// The line with which a client greets the server.
pub fn hello_request() -> (line: &'static [u8])
    ensures
        line@ == ascii("HI\r\n"@),
{
    proof {
        reveal_strlit("HI\r\n");
    }
    ascii_bytes("HI\r\n")
}

/// The line with which a client ends the connection.
pub fn quit_request() -> (line: &'static [u8])
    ensures
        line@ == ascii("QUIT\r\n"@),
{
    proof {
        reveal_strlit("QUIT\r\n");
    }
    ascii_bytes("QUIT\r\n")
}

/// The server's greeting.
pub fn greeting_banner() -> (reply: &'static [u8])
    ensures
        reply@ == ascii("HELLO 2.7(compatiable server)\n"@),
{
    proof {
        reveal_strlit("HELLO 2.7(compatiable server)\n");
    }
    ascii_bytes("HELLO 2.7(compatiable server)\n")
}

/// The server's list of capabilities.
pub fn capability_list() -> (reply: &'static [u8])
    ensures
        reply@ == ascii("CAPABILITIES SERVER_HOST_AUTH UPLOAD_STATS\n"@),
{
    proof {
        reveal_strlit("CAPABILITIES SERVER_HOST_AUTH UPLOAD_STATS\n");
    }
    ascii_bytes("CAPABILITIES SERVER_HOST_AUTH UPLOAD_STATS\n")
}

/// What the server sends before it closes a connection that failed.
pub fn error_reply() -> (reply: &'static [u8])
    ensures
        reply@ == ascii("ERROR\n"@),
{
    proof {
        reveal_strlit("ERROR\n");
    }
    ascii_bytes("ERROR\n")
}

/// The reply to `GETIP` for a peer whose address reads `ip`.
pub fn yourip_reply(ip: &[u8]) -> (reply: Vec<u8>)
    ensures
        reply@ == yourip_text(ip@),
{
    proof {
        reveal_strlit("YOURIP ");
        reveal_strlit("\n");
    }
    let mut reply: Vec<u8> = Vec::new();
    push_bytes(&mut reply, ascii_bytes("YOURIP "));
    push_bytes(&mut reply, ip);
    push_bytes(&mut reply, ascii_bytes("\n"));
    assert(reply@ =~= yourip_text(ip@));
    reply
}

/// The reply to `PING` at `secs` seconds after the epoch.
pub fn pong_reply(secs: u64) -> (reply: Vec<u8>)
    ensures
        reply@ == pong_text(secs as nat),
{
    proof {
        reveal_strlit("PONG ");
        reveal_strlit("\n");
    }
    let mut reply: Vec<u8> = Vec::new();
    push_bytes(&mut reply, ascii_bytes("PONG "));
    push_decimal(&mut reply, secs);
    push_bytes(&mut reply, ascii_bytes("\n"));
    assert(reply@ =~= pong_text(secs as nat));
    reply
}

/// The acknowledgement of an upload of `count` bytes at `secs` seconds after the epoch.
pub fn upload_ack(count: usize, secs: u64) -> (reply: Vec<u8>)
    ensures
        reply@ == upload_ack_text(count as nat, secs as nat),
{
    proof {
        reveal_strlit("Ok ");
        reveal_strlit(" ");
        reveal_strlit("\n");
    }
    let mut reply: Vec<u8> = Vec::new();
    push_bytes(&mut reply, ascii_bytes("Ok "));
    push_decimal(&mut reply, count as u64);
    push_bytes(&mut reply, ascii_bytes(" "));
    push_decimal(&mut reply, secs);
    push_bytes(&mut reply, ascii_bytes("\n"));
    assert(reply@ =~= upload_ack_text(count as nat, secs as nat));
    reply
}

/// The server reads a download request as the download it asks for.
pub proof fn lemma_download_request_parses(n: usize)
    ensures
        command_of(download_request_text(n as nat)) == Ok::<Option<Command>, Failure>(
            Some(Command::Download(n)),
        ),
{
    reveal_strlit("QUIT");
    reveal_strlit("DOWNLOAD ");
    reveal_strlit("\r\n");
    let p = ascii("DOWNLOAD "@);
    let d = decimal_digits(n as nat);
    let e = ascii("\r\n"@);
    let line = download_request_text(n as nat);
    lemma_decimal_round_trip(n as nat);
    lemma_decimal_digits_denote(n as nat);
    lemma_digits_hold_no_space(d);
    assert(line[0] == 0x44);
    assert(!is_space(line[0]));
    assert(ascii("QUIT"@)[0] == 0x51);
    assert(!ascii("QUIT"@).is_prefix_of(line)) by {
        if ascii("QUIT"@).is_prefix_of(line) {
            assert(line.subrange(0, 4)[0] == ascii("QUIT"@)[0]);
        }
    }
    assert(line.subrange(0, 9) =~= p);
    let rest = line.skip(8);
    assert(rest[0] == 0x20);
    lemma_trim_start_skips(rest, 1);
    let body = rest.skip(1);
    assert(body =~= d + e);
    assert(body[0] == d[0]);
    assert(is_digit(d[0]));
    assert(trim_start(body) == body);
    assert forall|i: int| d.len() <= i < body.len() implies is_space(#[trigger] body[i]) by {
        assert(body[i] == e[i - d.len()]);
    }
    lemma_trim_end_drops(body, d.len() as int);
    assert(body.take(d.len() as int) =~= d);
    assert(is_digit(d.last()));
    assert(trim_end(d) == d);
    assert(trimmed(rest) == d);
}

/// The server reads an upload request as the upload it announces.
pub proof fn lemma_upload_request_parses(n: usize)
    ensures
        command_of(upload_request_text(n as nat)) == Ok::<Option<Command>, Failure>(
            Some(Command::Upload(n)),
        ),
{
    reveal_strlit("QUIT");
    reveal_strlit("DOWNLOAD ");
    reveal_strlit("UPLOAD ");
    reveal_strlit(" 0\r\n");
    let p = ascii("UPLOAD "@);
    let d = decimal_digits(n as nat);
    let e = ascii(" 0\r\n"@);
    let line = upload_request_text(n as nat);
    lemma_decimal_round_trip(n as nat);
    lemma_decimal_digits_denote(n as nat);
    lemma_digits_hold_no_space(d);
    assert(line[0] == 0x55);
    assert(!is_space(line[0]));
    assert(ascii("QUIT"@)[0] == 0x51);
    assert(!ascii("QUIT"@).is_prefix_of(line)) by {
        if ascii("QUIT"@).is_prefix_of(line) {
            assert(line.subrange(0, 4)[0] == ascii("QUIT"@)[0]);
        }
    }
    assert(ascii("DOWNLOAD "@)[0] == 0x44);
    assert(!ascii("DOWNLOAD "@).is_prefix_of(line)) by {
        if ascii("DOWNLOAD "@).is_prefix_of(line) {
            assert(line.subrange(0, 9)[0] == ascii("DOWNLOAD "@)[0]);
        }
    }
    assert(line.subrange(0, 7) =~= p);
    assert(trim_start(line) == line);
    assert forall|i: int| 0 <= i < 6 implies !is_space(#[trigger] line[i]) by {
        assert(line[i] == p[i]);
    }
    assert(line[6] == p[6]);
    lemma_token_len_counts(line, 6);
    let rest = line.skip(6);
    assert(after_first_token(line) == rest);
    assert(rest[0] == 0x20);
    lemma_trim_start_skips(rest, 1);
    let body = rest.skip(1);
    assert(body =~= d + e);
    assert(body[0] == d[0]);
    assert(is_digit(d[0]));
    assert(trim_start(body) == body);
    assert forall|i: int| 0 <= i < d.len() implies !is_space(#[trigger] body[i]) by {
        assert(body[i] == d[i]);
    }
    assert(body[d.len() as int] == e[0]);
    lemma_token_len_counts(body, d.len() as int);
    assert(body.take(d.len() as int) =~= d);
    assert(second_token(line) == d);
}

} // verus!
