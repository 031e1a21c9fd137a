//! The accounting of uploads.
//!
//! A client announces an upload with a line that declares a size, sends its
//! content and ends with a carriage return and a line feed. The server counts
//! what arrives after the line and acknowledges one number: every byte of the
//! exchange, the announcing line included, less one. The two closing bytes
//! thus weigh as one. A client that wants its declared size acknowledged
//! sends, after the line, that size less the length of the line less one in
//! content.

use crate::counter::{
    are_read_chunks, is_terminated, lemma_counts_terminated_stream, ByteCounter, Progress,
    ReadEvent, TERMINATOR,
};
use crate::frame::{collect, is_framed, lemma_windowed_filler_is_printable, FramedStream};
use crate::pool::{all_printable, is_printable, RandomPool};
use crate::random::Generator;
use crate::protocol::{upload_ack, upload_ack_text, upload_request, upload_request_text};
use crate::text::{ascii, ascii_bytes};
use crate::Failure;
use vstd::prelude::*;
use vstd::string::*;

verus! {

/// How many bytes of content a client sends for a declared size: negative
/// where the size does not even cover the announcing line.
pub open spec fn upload_content_len(declared: nat) -> int {
    declared - upload_request_text(declared).len() - 1
}

/// The upload of a declared size as the client sends it: the announcing line,
/// the content, the closing bytes. There is none where the declared size does
/// not cover the line, or where the whole would pass the machine's sizes.
pub fn upload_stream(declared: usize) -> (stream: Option<FramedStream>)
    ensures
        stream is Some <==> upload_content_len(declared as nat) >= 0 && declared < usize::MAX,
        stream matches Some(s) ==> {
            &&& s.head() == upload_request_text(declared as nat)
            &&& s.filler_len() == upload_content_len(declared as nat)
            &&& s.tail() == ascii("\r\n"@)
            &&& s.position() == 0
            &&& s.total_len() == declared + 1
        },
{
    proof {
        reveal_strlit("\r\n");
    }
    let line = upload_request(declared);
    if declared == usize::MAX || line.len() >= declared {
        return None;
    }
    let content = declared - line.len() - 1;
    Some(FramedStream::assemble(line, content, ascii_bytes("\r\n")))
}

/// All bytes of the upload of a declared size as the client sends it.
pub fn upload_bytes(declared: usize, pool: &RandomPool, gen: &mut Generator) -> (bytes: Option<
    Vec<u8>,
>)
    ensures
        bytes is Some <==> upload_content_len(declared as nat) >= 0 && declared < usize::MAX,
        bytes matches Some(b) ==> {
            &&& b@.len() == declared + 1
            &&& is_framed(
                b@,
                upload_request_text(declared as nat),
                upload_content_len(declared as nat) as nat,
                ascii("\r\n"@),
                pool@,
            )
        },
{
    match upload_stream(declared) {
        Some(mut stream) => Some(collect(&mut stream, pool, gen)),
        None => None,
    }
}

/// The most that the server reads after the line that declares `declared`
/// bytes: one byte more than declared.
pub open spec fn upload_budget(declared: nat) -> nat {
    declared + 1
}

/// What the server acknowledges: the bytes of the line and the bytes counted
/// after it, less one.
pub open spec fn reported_count(line_len: nat, counted: nat) -> int {
    line_len + counted - 1
}

/// How far what arrived falls short of the budget; nothing where it does not.
pub open spec fn missing_count(declared: nat, line_len: nat, counted: nat) -> nat {
    if upload_budget(declared) > line_len + counted {
        (upload_budget(declared) - line_len - counted) as nat
    } else {
        0
    }
}

/// What the server found when an upload was over.
#[derive(Clone, Copy, Debug, PartialEq, Eq, Structural)]
pub struct UploadReceipt {
    /// The count that is acknowledged to the client.
    pub reported: usize,
    /// Bytes by which the exchange fell short of the budget. More than none is
    /// worth a note, and never an error.
    pub missing: usize,
}

/// One upload on the server's side, from the announcing line to the acknowledgement.
pub struct Upload {
    declared: usize,
    line_len: usize,
    counter: ByteCounter,
}

impl Upload {
    #[verifier::type_invariant]
    spec fn well_formed(self) -> bool {
        &&& self.line_len >= 1
        &&& self.counter.budget == self.declared + 1
        &&& self.counter.count <= self.counter.budget
        &&& self.counter.budget + self.line_len <= usize::MAX
    }

    /// The size that the client declared.
    pub closed spec fn declared(&self) -> nat {
        self.declared as nat
    }

    /// The length of the line that announced the upload.
    pub closed spec fn line_len(&self) -> nat {
        self.line_len as nat
    }

    /// The counter of the bytes after the line.
    pub closed spec fn counter(&self) -> ByteCounter {
        self.counter
    }

    /// Whether an upload can be taken at all: the line has a byte at least,
    /// and budget and line together stay within the machine's sizes.
    pub open spec fn is_countable(declared: nat, line_len: nat) -> bool {
        line_len >= 1 && upload_budget(declared) + line_len <= usize::MAX
    }

    /// Begins the upload that a line of `line_len` bytes declared to have
    /// `declared` bytes. An upload that cannot be counted is a violation of
    /// the protocol.
    pub fn begin(declared: usize, line_len: usize) -> (upload: Result<Upload, Failure>)
        ensures
            upload is Ok <==> Self::is_countable(declared as nat, line_len as nat),
            upload matches Ok(u) ==> {
                &&& u.declared() == declared
                &&& u.line_len() == line_len
                &&& u.counter() == (ByteCounter {
                    budget: (declared + 1) as usize,
                    count: 0,
                    finished: false,
                })
            },
            upload matches Err(e) ==> e == Failure::ProtocolViolation,
    {
        if line_len == 0 || declared == usize::MAX || line_len > usize::MAX - (declared + 1) {
            return Err(Failure::ProtocolViolation);
        }
        Ok(Upload { declared, line_len, counter: ByteCounter::new(declared + 1) })
    }

    /// How many bytes to ask of the next read; none when counting is over.
    pub fn read_size(&self) -> (n: usize)
        ensures
            n == self.counter().read_limit(),
    {
        self.counter.read_size()
    }

    /// Takes the outcome of a read and says what to do next.
    pub fn on_read(&mut self, event: ReadEvent) -> (next: Progress)
        ensures
            final(self).counter() == old(self).counter().after(event),
            final(self).declared() == old(self).declared(),
            final(self).line_len() == old(self).line_len(),
            next == old(self).counter().answer(event),
    {
        proof {
            use_type_invariant(&*self);
        }
        let mut counter = self.counter;
        let next = counter.on_read(event);
        self.counter = counter;
        next
    }

    /// What the upload amounts to with the bytes counted so far.
    pub fn receipt(&self) -> (r: UploadReceipt)
        ensures
            r.reported == reported_count(self.line_len(), self.counter().count as nat),
            r.missing == missing_count(
                self.declared(),
                self.line_len(),
                self.counter().count as nat,
            ),
    {
        proof {
            use_type_invariant(self);
        }
        let total = self.line_len + self.counter.count;
        let budget = self.declared + 1;
        UploadReceipt {
            reported: total - 1,
            missing: if budget > total {
                budget - total
            } else {
                0
            },
        }
    }

    /// The line that acknowledges the upload at `secs` seconds after the epoch.
    pub fn acknowledge(&self, secs: u64) -> (reply: Vec<u8>)
        ensures
            reported_count(self.line_len(), self.counter().count as nat) >= 0,
            reply@ == upload_ack_text(
                reported_count(self.line_len(), self.counter().count as nat) as nat,
                secs as nat,
            ),
    {
        let r = self.receipt();
        upload_ack(r.reported, secs)
    }
}

/// An upload that is sent as `upload_stream` sends it, with content from a
/// printable pool, is acknowledged with the size that was declared, however
/// the server's reads cut what follows the line into chunks; and nothing is
/// found missing.
pub proof fn lemma_upload_is_acknowledged_as_declared(
    declared: usize,
    pool: Seq<u8>,
    chunks: Seq<Seq<u8>>,
)
    requires
        upload_content_len(declared as nat) >= 0,
        declared < usize::MAX,
        are_read_chunks(chunks),
        all_printable(pool),
        is_framed(
            upload_request_text(declared as nat) + chunks.flatten(),
            upload_request_text(declared as nat),
            upload_content_len(declared as nat) as nat,
            ascii("\r\n"@),
            pool,
        ),
    ensures
        ({
            let line_len = upload_request_text(declared as nat).len();
            let start = ByteCounter { budget: (declared + 1) as usize, count: 0, finished: false };
            let end = start.after_chunks(chunks);
            &&& end.finished
            &&& reported_count(line_len, end.count as nat) == declared
            &&& missing_count(declared as nat, line_len, end.count as nat) == 0
        }),
{
    reveal_strlit("\r\n");
    let line = upload_request_text(declared as nat);
    let content_len = upload_content_len(declared as nat) as nat;
    let sent = line + chunks.flatten();
    let payload = chunks.flatten();
    let filler = sent.subrange(line.len() as int, (line.len() + content_len) as int);
    lemma_windowed_filler_is_printable(filler, pool);
    assert(payload.len() == content_len + 2);
    assert(payload.last() == sent.skip((line.len() + content_len) as int)[1]);
    assert forall|i: int| 0 <= i < payload.len() - 1 implies #[trigger] payload[i]
        != TERMINATOR by {
        assert(payload[i] == sent[i + line.len()]);
        if i < content_len {
            assert(sent[i + line.len()] == filler[i]);
            assert(is_printable(filler[i]));
        } else {
            assert(sent[i + line.len()] == sent.skip((line.len() + content_len) as int)[0]);
        }
    }
    assert(is_terminated(payload));
    let start = ByteCounter { budget: (declared + 1) as usize, count: 0, finished: false };
    lemma_counts_terminated_stream(start, chunks);
}

} // verus!
