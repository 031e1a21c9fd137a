//! Counting the bytes of a stream without holding them.
//!
//! A counter is told the outcome of each read on a connection and says what to
//! do next. It reads in chunks of at most one mebibyte toward a budget, and is
//! done when a chunk ends in a line feed, when a read brings nothing, or when
//! the budget is used up. A read that is not ready changes nothing: the caller
//! suspends and reads again.

use crate::{Failure, MB};
use vstd::prelude::*;

verus! {

/// The byte that ends a stream: a line feed.
pub const TERMINATOR: u8 = 0x0a;

/// What one read on the connection brought.
#[derive(Clone, Copy, Debug, PartialEq, Eq, Structural)]
pub enum ReadEvent {
    /// Nothing yet: the read would block.
    NotReady,
    /// The transport failed.
    Failed,
    /// `len` bytes, the last of them `last`. No bytes at all means the peer has
    /// closed its side.
    Bytes { len: usize, last: u8 },
}

/// What the caller does after a read.
#[derive(Clone, Copy, Debug, PartialEq, Eq, Structural)]
pub enum Progress {
    /// Read again at once.
    Continue,
    /// Yield, and read again when the connection is ready.
    Suspend,
    /// Stop: this many bytes were counted.
    Done(usize),
    /// Stop: the stream cannot be counted.
    Failed(Failure),
}

/// How many bytes have been counted toward a budget, and whether counting is over.
#[derive(Clone, Copy, Debug, PartialEq, Eq, Structural)]
pub struct ByteCounter {
    /// The most that will be counted.
    pub budget: usize,
    /// What has been counted.
    pub count: usize,
    /// Whether the stream has ended or failed.
    pub finished: bool,
}

impl ByteCounter {
    /// Whether another read is wanted.
    pub open spec fn wants_more(self) -> bool {
        !self.finished && self.count < self.budget
    }

    /// The most that the next read may bring: what is left of the budget, and
    /// no more than a mebibyte.
    pub open spec fn read_limit(self) -> nat {
        if !self.wants_more() {
            0
        } else if self.budget - self.count < MB {
            (self.budget - self.count) as nat
        } else {
            MB as nat
        }
    }

    /// The counter after a read with the given outcome.
    pub open spec fn after(self, event: ReadEvent) -> ByteCounter {
        if !self.wants_more() {
            self
        } else {
            match event {
                ReadEvent::NotReady => self,
                ReadEvent::Failed => ByteCounter { finished: true, ..self },
                ReadEvent::Bytes { len, last } => {
                    if len == 0 || len > self.read_limit() {
                        ByteCounter { finished: true, ..self }
                    } else {
                        ByteCounter {
                            budget: self.budget,
                            count: (self.count + len) as usize,
                            finished: last == TERMINATOR || self.count + len == self.budget,
                        }
                    }
                },
            }
        }
    }

    /// What the caller is told after a read with the given outcome.
    pub open spec fn answer(self, event: ReadEvent) -> Progress {
        if !self.wants_more() {
            Progress::Done(self.count)
        } else {
            match event {
                ReadEvent::NotReady => Progress::Suspend,
                ReadEvent::Failed => Progress::Failed(Failure::Transport),
                ReadEvent::Bytes { len, last } => {
                    if len == 0 {
                        Progress::Done(self.count)
                    } else if len > self.read_limit() {
                        Progress::Failed(Failure::ProtocolViolation)
                    } else if self.after(event).finished {
                        Progress::Done(self.after(event).count)
                    } else {
                        Progress::Continue
                    }
                },
            }
        }
    }

    /// What one chunk amounts to as the outcome of a read.
    pub open spec fn event_of(chunk: Seq<u8>) -> ReadEvent {
        ReadEvent::Bytes {
            len: chunk.len() as usize,
            last: if chunk.len() > 0 {
                chunk.last()
            } else {
                0
            },
        }
    }

    /// The counter after reads that brought the given chunks, one after the other.
    pub open spec fn after_chunks(self, chunks: Seq<Seq<u8>>) -> ByteCounter
        decreases chunks.len(),
    {
        if chunks.len() == 0 {
            self
        } else {
            self.after(Self::event_of(chunks.first())).after_chunks(chunks.drop_first())
        }
    }

    /// A counter that has counted nothing, toward `budget` bytes.
    pub fn new(budget: usize) -> (c: ByteCounter)
        ensures
            c == (ByteCounter { budget, count: 0, finished: false }),
    {
        ByteCounter { budget, count: 0, finished: false }
    }

    /// What has been counted.
    pub fn count(&self) -> (n: usize)
        ensures
            n == self.count,
    {
        self.count
    }

    /// How many bytes to ask of the next read; none when counting is over.
    pub fn read_size(&self) -> (n: usize)
        ensures
            n == self.read_limit(),
    {
        if self.finished || self.count >= self.budget {
            0
        } else if self.budget - self.count < MB {
            self.budget - self.count
        } else {
            MB
        }
    }

    /// Takes the outcome of a read and says what to do next.
    pub fn on_read(&mut self, event: ReadEvent) -> (next: Progress)
        ensures
            *final(self) == old(self).after(event),
            next == old(self).answer(event),
    {
        let limit = self.read_size();
        if limit == 0 {
            return Progress::Done(self.count);
        }
        match event {
            ReadEvent::NotReady => Progress::Suspend,
            ReadEvent::Failed => {
                self.finished = true;
                Progress::Failed(Failure::Transport)
            },
            ReadEvent::Bytes { len, last } => {
                if len == 0 {
                    self.finished = true;
                    Progress::Done(self.count)
                } else if len > limit {
                    self.finished = true;
                    Progress::Failed(Failure::ProtocolViolation)
                } else {
                    self.count = self.count + len;
                    if last == TERMINATOR || self.count == self.budget {
                        self.finished = true;
                        Progress::Done(self.count)
                    } else {
                        Progress::Continue
                    }
                }
            },
        }
    }
}

/// The stream ends in a line feed and holds no other.
pub open spec fn is_terminated(stream: Seq<u8>) -> bool {
    &&& stream.len() > 0
    &&& stream.last() == TERMINATOR
    &&& forall|i: int| 0 <= i < stream.len() - 1 ==> #[trigger] stream[i] != TERMINATOR
}

/// Every chunk holds a byte at least and a mebibyte at most.
pub open spec fn are_read_chunks(chunks: Seq<Seq<u8>>) -> bool {
    forall|i: int| 0 <= i < chunks.len() ==> 0 < (#[trigger] chunks[i]).len() <= MB
}

/// A read that is not ready leaves the counter as it was, so that nothing is
/// counted twice when the read is made again.
pub proof fn lemma_not_ready_keeps_count(c: ByteCounter)
    ensures
        c.after(ReadEvent::NotReady) == c,
        c.wants_more() ==> c.answer(ReadEvent::NotReady) == Progress::Suspend,
{
}

/// A stream that ends in its only line feed is counted in full, however the
/// reads cut it into chunks, provided that it fits into what is left of the
/// budget: counting is over with the last chunk and not before.
pub proof fn lemma_counts_terminated_stream(c: ByteCounter, chunks: Seq<Seq<u8>>)
    requires
        c.wants_more(),
        are_read_chunks(chunks),
        is_terminated(chunks.flatten()),
        c.count + chunks.flatten().len() <= c.budget,
    ensures
        c.after_chunks(chunks).finished,
        c.after_chunks(chunks).count == c.count + chunks.flatten().len(),
        c.after_chunks(chunks).budget == c.budget,
        chunks.len() > 0,
        !c.after_chunks(chunks.drop_last()).finished,
    decreases chunks.len(),
{
    let stream = chunks.flatten();
    if chunks.len() == 0 {
        assert(stream.len() == 0);
    } else {
        let first = chunks.first();
        let rest = chunks.drop_first();
        let tail = rest.flatten();
        assert(chunks[0] == first);
        assert(stream =~= first + tail);
        let next = c.after(ByteCounter::event_of(first));
        assert(first.len() <= c.read_limit());
        if rest.len() == 0 {
            assert(tail.len() == 0);
            assert(first.last() == stream.last());
            assert(next.after_chunks(rest) == next);
            assert(next.finished);
            assert(chunks.drop_last() =~= Seq::<Seq<u8>>::empty());
        } else {
            assert(rest[0] == chunks[1]);
            assert(rest.first().len() > 0);
            assert(tail =~= rest.first() + rest.drop_first().flatten());
            assert(tail.len() > 0);
            assert(first.last() == stream[first.len() - 1]);
            assert(first.last() != TERMINATOR);
            assert(next.wants_more());
            assert forall|i: int| 0 <= i < rest.len() implies 0 < (#[trigger] rest[i]).len()
                <= MB by {
                assert(rest[i] == chunks[i + 1]);
            }
            assert(tail.last() == stream.last());
            assert forall|i: int| 0 <= i < tail.len() - 1 implies #[trigger] tail[i]
                != TERMINATOR by {
                assert(tail[i] == stream[i + first.len()]);
            }
            lemma_counts_terminated_stream(next, rest);
            assert(c.after_chunks(chunks) == next.after_chunks(rest));
            assert(chunks.drop_last().first() == first);
            assert(chunks.drop_last().drop_first() =~= rest.drop_last());
        }
    }
}

} // verus!
