//! The server's side of a connection: what each line is answered with, and
//! when the connection ends.
//!
//! A connection waits for a line, answers it and waits again, until the
//! client quits or something fails. A failure ends this connection only,
//! after the client has been told so.

use crate::download::{download_filler_len, download_head, download_stream, download_tail};
use crate::counter::ByteCounter;
use crate::frame::FramedStream;
use crate::protocol::{
    capability_list, command_of, greeting_banner, parse_command, pong_reply,
    pong_text, yourip_reply, yourip_text, Command,
};
use crate::text::ascii;
use crate::upload::Upload;
use crate::Failure;
use vstd::prelude::*;
use vstd::slice::slice_to_vec;
use vstd::string::*;

verus! {

/// What the server does in answer to a line.
pub enum Response {
    /// Nothing: the line was blank.
    Nothing,
    /// Send these bytes.
    Reply(Vec<u8>),
    /// Send this stream, chunk by chunk.
    Download(FramedStream),
    /// Count what the client sends, then acknowledge it.
    Upload(Upload),
    /// Close the connection: the client has quit.
    Close,
    /// Tell the client of an error and close the connection.
    Fail(Failure),
}

/// `r` is the answer to `line` for a peer whose address reads `peer_ip`, at
/// `now` seconds after the epoch.
pub open spec fn is_response(line: Seq<u8>, peer_ip: Seq<u8>, now: u64, r: Response) -> bool {
    match command_of(line) {
        Err(e) => r == Response::Fail(e),
        Ok(None) => r is Nothing,
        Ok(Some(Command::Quit)) => r is Close,
        Ok(Some(Command::Unknown)) => r == Response::Fail(Failure::UnknownCommand),
        Ok(Some(Command::Hi)) => r matches Response::Reply(b) && b@ == ascii(
            "HELLO 2.7(compatiable server)\n"@,
        ),
        Ok(Some(Command::Capabilities)) => r matches Response::Reply(b) && b@ == ascii(
            "CAPABILITIES SERVER_HOST_AUTH UPLOAD_STATS\n"@,
        ),
        Ok(Some(Command::GetIp)) => r matches Response::Reply(b) && b@ == yourip_text(peer_ip),
        Ok(Some(Command::Ping)) => r matches Response::Reply(b) && b@ == pong_text(now as nat),
        Ok(Some(Command::Download(n))) => r matches Response::Download(s) && {
            &&& s.head() == download_head(n as nat)
            &&& s.filler_len() == download_filler_len(n as nat)
            &&& s.tail() == download_tail(n as nat)
            &&& s.position() == 0
        },
        Ok(Some(Command::Upload(n))) => if Upload::is_countable(n as nat, line.len()) {
            r matches Response::Upload(u) && {
                &&& u.declared() == n
                &&& u.line_len() == line.len()
                &&& u.counter() == (ByteCounter {
                    budget: (n + 1) as usize,
                    count: 0,
                    finished: false,
                })
            }
        } else {
            r == Response::Fail(Failure::ProtocolViolation)
        },
    }
}

/// The answer to one line.
pub fn respond(line: &[u8], peer_ip: &[u8], now: u64) -> (r: Response)
    ensures
        is_response(line@, peer_ip@, now, r),
{
    match parse_command(line) {
        Err(e) => Response::Fail(e),
        Ok(None) => Response::Nothing,
        Ok(Some(Command::Quit)) => Response::Close,
        Ok(Some(Command::Unknown)) => Response::Fail(Failure::UnknownCommand),
        Ok(Some(Command::Hi)) => Response::Reply(slice_to_vec(greeting_banner())),
        Ok(Some(Command::Capabilities)) => Response::Reply(slice_to_vec(capability_list())),
        Ok(Some(Command::GetIp)) => Response::Reply(yourip_reply(peer_ip)),
        Ok(Some(Command::Ping)) => Response::Reply(pong_reply(now)),
        Ok(Some(Command::Download(n))) => Response::Download(download_stream(n)),
        Ok(Some(Command::Upload(n))) => match Upload::begin(n, line.len()) {
            Ok(u) => Response::Upload(u),
            Err(e) => Response::Fail(e),
        },
    }
}

/// Where a connection stands.
#[derive(Clone, Copy, Debug, PartialEq, Eq, Structural)]
pub enum ConnState {
    /// Waiting for the next line.
    AwaitLine,
    /// A line has been read and is being answered.
    Respond,
    /// Over.
    Closed,
}

/// What the server does next on a connection.
#[derive(Clone, Copy, Debug, PartialEq, Eq, Structural)]
pub enum Step {
    /// Read the next line.
    ReadLine,
    /// Carry the response out, then report how it went.
    Carry,
    /// Close the connection.
    Close,
    /// Send the error reply, then close the connection.
    FailAndClose,
}

/// The state after a line was read and answered with `r`.
pub open spec fn state_after_line(state: ConnState, r: Response) -> ConnState {
    match state {
        ConnState::AwaitLine => match r {
            Response::Nothing => ConnState::AwaitLine,
            Response::Close => ConnState::Closed,
            Response::Fail(_) => ConnState::Closed,
            _ => ConnState::Respond,
        },
        _ => state,
    }
}

/// What to do after a line was read and answered with `r`.
pub open spec fn step_after_line(state: ConnState, r: Response) -> Step {
    match state {
        ConnState::AwaitLine => match r {
            Response::Nothing => Step::ReadLine,
            Response::Close => Step::Close,
            Response::Fail(_) => Step::FailAndClose,
            _ => Step::Carry,
        },
        ConnState::Respond => Step::Carry,
        ConnState::Closed => Step::Close,
    }
}

/// The state after a response was carried out, well or not.
pub open spec fn state_after_response(state: ConnState, ok: bool) -> ConnState {
    match state {
        ConnState::Respond => if ok {
            ConnState::AwaitLine
        } else {
            ConnState::Closed
        },
        _ => state,
    }
}

/// What to do after a response was carried out, well or not.
pub open spec fn step_after_response(state: ConnState, ok: bool) -> Step {
    match state {
        ConnState::Respond => if ok {
            Step::ReadLine
        } else {
            Step::FailAndClose
        },
        ConnState::AwaitLine => Step::ReadLine,
        ConnState::Closed => Step::Close,
    }
}

/// One connection of the server.
#[derive(Clone, Copy, Debug, PartialEq, Eq, Structural)]
pub struct Connection {
    pub state: ConnState,
}

impl Connection {
    /// A connection that has just been accepted.
    pub fn new() -> (c: Connection)
        ensures
            c.state == ConnState::AwaitLine,
    {
        Connection { state: ConnState::AwaitLine }
    }

    /// Whether the connection is still open.
    pub fn is_open(&self) -> (open: bool)
        ensures
            open == (self.state != ConnState::Closed),
    {
        match self.state {
            ConnState::Closed => false,
            _ => true,
        }
    }

    /// Takes a line that was read, and gives the answer to it together with
    /// what to do next. On a connection that does not wait for a line the
    /// line is answered but nothing changes.
    pub fn on_line(&mut self, line: &[u8], peer_ip: &[u8], now: u64) -> (r: (Response, Step))
        ensures
            is_response(line@, peer_ip@, now, r.0),
            final(self).state == state_after_line(old(self).state, r.0),
            r.1 == step_after_line(old(self).state, r.0),
    {
        let response = respond(line, peer_ip, now);
        let step = match self.state {
            ConnState::AwaitLine => match &response {
                Response::Nothing => Step::ReadLine,
                Response::Close => {
                    self.state = ConnState::Closed;
                    Step::Close
                },
                Response::Fail(_) => {
                    self.state = ConnState::Closed;
                    Step::FailAndClose
                },
                _ => {
                    self.state = ConnState::Respond;
                    Step::Carry
                },
            },
            ConnState::Respond => Step::Carry,
            ConnState::Closed => Step::Close,
        };
        (response, step)
    }

    /// Takes the news of how the response went. A response that failed ends
    /// the connection, after the client has been told of the error.
    pub fn on_responded(&mut self, ok: bool) -> (step: Step)
        ensures
            final(self).state == state_after_response(old(self).state, ok),
            step == step_after_response(old(self).state, ok),
    {
        match self.state {
            ConnState::Respond => {
                if ok {
                    self.state = ConnState::AwaitLine;
                    Step::ReadLine
                } else {
                    self.state = ConnState::Closed;
                    Step::FailAndClose
                }
            },
            ConnState::AwaitLine => Step::ReadLine,
            ConnState::Closed => Step::Close,
        }
    }
}


} // verus!
