//! The framing of downloads.
//!
//! The response to a request for `n` bytes has exactly `n` bytes. The word
//! `DOWNLOAD` and a blank open it and a carriage return and a line feed close
//! it; both count toward `n`, and what is left between them is filler. Where
//! `n` is too small for all of that, the opening is cut short first, then
//! the closing.

use crate::counter::{are_read_chunks, is_terminated, lemma_counts_terminated_stream, ByteCounter, TERMINATOR};
use crate::frame::{collect, is_framed, lemma_windowed_filler_is_printable, FramedStream};
use crate::pool::{all_printable, is_printable, RandomPool};
use crate::random::Generator;
use crate::text::{ascii, ascii_bytes};
use vstd::prelude::*;
use vstd::slice::{slice_subrange, slice_to_vec};
use vstd::string::*;

verus! {

/// What a response of `n` bytes begins with.
pub open spec fn download_head(n: nat) -> Seq<u8> {
    if n <= 1 {
        Seq::empty()
    } else if n <= 11 {
        ascii("DOWNLOAD "@).take(n - 2)
    } else {
        ascii("DOWNLOAD "@)
    }
}

/// How much filler a response of `n` bytes holds.
pub open spec fn download_filler_len(n: nat) -> nat {
    if n > 11 {
        (n - 11) as nat
    } else {
        0
    }
}

/// What a response of `n` bytes ends with.
pub open spec fn download_tail(n: nat) -> Seq<u8> {
    if n <= 1 {
        ascii("\r\n"@).take(n as int)
    } else {
        ascii("\r\n"@)
    }
}

/// `bytes` is a response to a request for `n` bytes, with filler from `pool`.
pub open spec fn is_download_response(bytes: Seq<u8>, n: nat, pool: Seq<u8>) -> bool {
    is_framed(bytes, download_head(n), download_filler_len(n), download_tail(n), pool)
}

/// The parts of a response to a request for `n` bytes have `n` bytes together.
pub proof fn lemma_download_parts_add_up(n: nat)
    ensures
        download_head(n).len() + download_filler_len(n) + download_tail(n).len() == n,
{
    reveal_strlit("DOWNLOAD ");
    reveal_strlit("\r\n");
}

/// A response to a request for `n` bytes has exactly `n` bytes.
pub proof fn lemma_response_has_requested_length(bytes: Seq<u8>, n: nat, pool: Seq<u8>)
    requires
        is_download_response(bytes, n, pool),
    ensures
        bytes.len() == n,
{
    lemma_download_parts_add_up(n);
}

/// The response to a request for `n` bytes, as a stream of which nothing has
/// been sent.
pub fn download_stream(n: usize) -> (stream: FramedStream)
    ensures
        stream.head() == download_head(n as nat),
        stream.filler_len() == download_filler_len(n as nat),
        stream.tail() == download_tail(n as nat),
        stream.position() == 0,
        stream.total_len() == n,
{
    proof {
        reveal_strlit("DOWNLOAD ");
        reveal_strlit("\r\n");
    }
    let prefix = ascii_bytes("DOWNLOAD ");
    let end = ascii_bytes("\r\n");
    if n <= 1 {
        FramedStream::assemble(Vec::new(), 0, slice_subrange(end, 0, n))
    } else if n <= 11 {
        FramedStream::assemble(slice_to_vec(slice_subrange(prefix, 0, n - 2)), 0, end)
    } else {
        FramedStream::assemble(slice_to_vec(prefix), n - 11, end)
    }
}

/// The whole response to a request for `n` bytes.
pub fn download_response(n: usize, pool: &RandomPool, gen: &mut Generator) -> (bytes: Vec<u8>)
    ensures
        bytes@.len() == n,
        is_download_response(bytes@, n as nat, pool@),
{
    let mut stream = download_stream(n);
    collect(&mut stream, pool, gen)
}

/// The counter with which a client takes in a response of `n` bytes.
pub fn download_counter(n: usize) -> (c: ByteCounter)
    ensures
        c == (ByteCounter { budget: n, count: 0, finished: false }),
{
    ByteCounter::new(n)
}

/// A response of two bytes or more, with filler from a printable pool, ends in
/// its only line feed.
pub proof fn lemma_response_is_terminated(bytes: Seq<u8>, n: nat, pool: Seq<u8>)
    requires
        n >= 2,
        is_download_response(bytes, n, pool),
        all_printable(pool),
    ensures
        is_terminated(bytes),
{
    reveal_strlit("DOWNLOAD ");
    reveal_strlit("\r\n");
    let head = download_head(n);
    let filler_len = download_filler_len(n);
    let tail = download_tail(n);
    let filler = bytes.subrange(head.len() as int, (head.len() + filler_len) as int);
    lemma_windowed_filler_is_printable(filler, pool);
    assert(bytes.last() == bytes.skip((head.len() + filler_len) as int)[1]);
    assert forall|i: int| 0 <= i < bytes.len() - 1 implies #[trigger] bytes[i] != TERMINATOR by {
        if i < head.len() {
            assert(bytes[i] == bytes.take(head.len() as int)[i]);
            assert(bytes[i] == ascii("DOWNLOAD "@)[i]);
        } else if i < head.len() + filler_len {
            assert(bytes[i] == filler[i - head.len()]);
            assert(is_printable(filler[i - head.len()]));
        } else {
            assert(bytes[i] == bytes.skip((head.len() + filler_len) as int)[0]);
        }
    }
}

/// A client that takes in the response to its request for `n` bytes, two or
/// more, counts exactly `n`, however the reads cut the response into chunks,
/// and is done with the last chunk.
pub proof fn lemma_client_counts_whole_response(n: usize, pool: Seq<u8>, chunks: Seq<Seq<u8>>)
    requires
        n >= 2,
        are_read_chunks(chunks),
        is_download_response(chunks.flatten(), n as nat, pool),
        all_printable(pool),
    ensures
        (ByteCounter { budget: n, count: 0, finished: false }).after_chunks(chunks).finished,
        (ByteCounter { budget: n, count: 0, finished: false }).after_chunks(chunks).count == n,
{
    lemma_response_has_requested_length(chunks.flatten(), n as nat, pool);
    lemma_response_is_terminated(chunks.flatten(), n as nat, pool);
    lemma_counts_terminated_stream(ByteCounter { budget: n, count: 0, finished: false }, chunks);
}

} // verus!
