//! Streams of bytes that are framed by a fixed head and tail, with filler from
//! the pool between them.
//!
//! A stream never holds its filler: it hands out the head, then one window of
//! the pool after another, each a mebibyte long but for the last, then the
//! tail. Where a window begins is drawn at random.

use crate::pool::{all_printable, is_pool_window, is_printable, RandomPool};
use crate::random::Generator;
use crate::MB;
use vstd::prelude::*;

verus! {

/// The `k`-th window of a filler: whole mebibytes, but for the last window.
pub open spec fn window_of(filler: Seq<u8>, k: int) -> Seq<u8> {
    filler.subrange(
        k * MB,
        if (k + 1) * MB <= filler.len() {
            (k + 1) * MB
        } else {
            filler.len() as int
        },
    )
}

/// Every window of the filler stands somewhere in the pool.
pub open spec fn is_windowed(filler: Seq<u8>, pool: Seq<u8>) -> bool {
    forall|k: int|
        0 <= k && k * MB < filler.len() ==> is_pool_window(#[trigger] window_of(filler, k), pool)
}

/// `bytes` is the head, then `filler_len` bytes of windows of the pool, then the tail.
pub open spec fn is_framed(
    bytes: Seq<u8>,
    head: Seq<u8>,
    filler_len: nat,
    tail: Seq<u8>,
    pool: Seq<u8>,
) -> bool {
    &&& bytes.len() == head.len() + filler_len + tail.len()
    &&& bytes.take(head.len() as int) == head
    &&& bytes.skip((head.len() + filler_len) as int) == tail
    &&& is_windowed(bytes.subrange(head.len() as int, (head.len() + filler_len) as int), pool)
}

/// `chunk` is what a stream hands out when `position` bytes have gone before.
pub open spec fn is_next_chunk(
    head: Seq<u8>,
    filler_len: nat,
    tail: Seq<u8>,
    position: nat,
    chunk: Seq<u8>,
    pool: Seq<u8>,
) -> bool {
    if position < head.len() {
        position == 0 && chunk == head
    } else if position < head.len() + filler_len {
        &&& (position - head.len()) % (MB as int) == 0
        &&& chunk.len() == if head.len() + filler_len - position < MB {
            head.len() + filler_len - position
        } else {
            MB as int
        }
        &&& is_pool_window(chunk, pool)
    } else {
        position == head.len() + filler_len && tail.len() > 0 && chunk == tail
    }
}

/// Filler that is cut from a printable pool is printable.
pub proof fn lemma_windowed_filler_is_printable(filler: Seq<u8>, pool: Seq<u8>)
    requires
        is_windowed(filler, pool),
        all_printable(pool),
    ensures
        all_printable(filler),
{
    assert forall|i: int| 0 <= i < filler.len() implies is_printable(#[trigger] filler[i]) by {
        let mb = MB as int;
        let k = i / mb;
        assert(k * mb <= i < (k + 1) * mb);
        let w = window_of(filler, k);
        assert(is_pool_window(w, pool));
        let start = choose|start: int|
            0 <= start < MB && start + w.len() <= pool.len() && w == #[trigger] pool.subrange(
                start,
                start + w.len(),
            );
        assert(filler[i] == w[i - k * mb]);
        assert(w[i - k * mb] == pool[start + i - k * mb]);
    }
}

/// A framed stream and how far it has been handed out.
pub struct FramedStream {
    head: Vec<u8>,
    filler: usize,
    tail: &'static [u8],
    sent: usize,
}

impl FramedStream {
    #[verifier::type_invariant]
    spec fn well_formed(self) -> bool {
        let filled = self.head@.len() + self.filler;
        let total = filled + self.tail@.len();
        &&& total <= usize::MAX
        &&& self.sent == 0 || self.sent == total || (self.head@.len() <= self.sent <= filled && ((
        self.sent - self.head@.len()) % (MB as int) == 0 || self.sent == filled))
    }

    /// What the stream begins with.
    pub closed spec fn head(&self) -> Seq<u8> {
        self.head@
    }

    /// How many bytes of filler stand between head and tail.
    pub closed spec fn filler_len(&self) -> nat {
        self.filler as nat
    }

    /// What the stream ends with.
    pub closed spec fn tail(&self) -> Seq<u8> {
        self.tail@
    }

    /// How many bytes have been handed out.
    pub closed spec fn position(&self) -> nat {
        self.sent as nat
    }

    /// How many bytes the stream has in all.
    pub open spec fn total_len(&self) -> nat {
        self.head().len() + self.filler_len() + self.tail().len()
    }

    /// The stream of `head`, `filler` bytes of filler and `tail`, of which
    /// nothing has been handed out.
    pub(crate) fn assemble(head: Vec<u8>, filler: usize, tail: &'static [u8]) -> (stream:
        FramedStream)
        requires
            head@.len() + filler + tail@.len() <= usize::MAX,
        ensures
            stream.head() == head@,
            stream.filler_len() == filler,
            stream.tail() == tail@,
            stream.position() == 0,
    {
        FramedStream { head, filler, tail, sent: 0 }
    }

    /// How many bytes the stream has in all.
    pub fn len(&self) -> (n: usize)
        ensures
            n == self.total_len(),
    {
        proof {
            use_type_invariant(self);
        }
        self.head.len() + self.filler + self.tail.len()
    }

    /// How many bytes have been handed out.
    pub fn sent(&self) -> (n: usize)
        ensures
            n == self.position(),
            n <= self.total_len(),
    {
        proof {
            use_type_invariant(self);
        }
        self.sent
    }

    /// The next bytes to send, or none when all have been handed out. Head and
    /// tail come whole; filler comes as a window of the pool of at most one
    /// mebibyte, from an offset that `gen` picks.
    pub fn next_chunk<'a>(&'a mut self, pool: &'a RandomPool, gen: &mut Generator) -> (chunk:
        Option<&'a [u8]>)
        ensures
            final(self).head() == old(self).head(),
            final(self).filler_len() == old(self).filler_len(),
            final(self).tail() == old(self).tail(),
            old(self).position() <= old(self).total_len(),
            match chunk {
                Some(c) => {
                    &&& c@.len() > 0
                    &&& final(self).position() == old(self).position() + c@.len()
                    &&& is_next_chunk(
                        old(self).head(),
                        old(self).filler_len(),
                        old(self).tail(),
                        old(self).position(),
                        c@,
                        pool@,
                    )
                },
                None => {
                    &&& old(self).position() == old(self).total_len()
                    &&& final(self).position() == old(self).position()
                },
            },
    {
        proof {
            use_type_invariant(&*self);
        }
        let head_len = self.head.len();
        let filled = head_len + self.filler;
        let total = filled + self.tail.len();
        if self.sent < head_len {
            self.sent = head_len;
            Some(self.head.as_slice())
        } else if self.sent < filled {
            let rest = filled - self.sent;
            let len = if rest < MB {
                rest
            } else {
                MB
            };
            let start = gen.offset_below(MB);
            let all = pool.as_slice();
            let window = vstd::slice::slice_subrange(all, start, start + len);
            self.sent = self.sent + len;
            Some(window)
        } else if self.sent < total {
            self.sent = total;
            Some(self.tail)
        } else {
            None
        }
    }
}

/// What has been collected of a stream when `position` bytes have been handed out.
pub open spec fn is_collected(
    out: Seq<u8>,
    head: Seq<u8>,
    filler_len: nat,
    tail: Seq<u8>,
    pool: Seq<u8>,
    position: nat,
) -> bool {
    let filled = head.len() + filler_len;
    let fill = out.skip(head.len() as int);
    &&& out.len() == position
    &&& if position < head.len() {
        position == 0
    } else if position <= filled {
        &&& out.take(head.len() as int) == head
        &&& is_windowed(fill, pool)
        &&& position < filled ==> fill.len() % (MB as nat) == 0
    } else {
        is_framed(out, head, filler_len, tail, pool)
    }
}

proof fn lemma_collect_window(
    out: Seq<u8>,
    head: Seq<u8>,
    filler_len: nat,
    tail: Seq<u8>,
    pool: Seq<u8>,
    position: nat,
    chunk: Seq<u8>,
)
    requires
        head.len() <= position < head.len() + filler_len,
        is_collected(out, head, filler_len, tail, pool, position),
        is_next_chunk(head, filler_len, tail, position, chunk, pool),
    ensures
        is_collected(out + chunk, head, filler_len, tail, pool, position + chunk.len()),
{
    let fill = out.skip(head.len() as int);
    let more = out + chunk;
    let fill2 = more.skip(head.len() as int);
    let mb = MB as int;
    assert(fill2 =~= fill + chunk);
    assert(more.take(head.len() as int) =~= out.take(head.len() as int));
    let whole = fill.len() / (MB as nat);
    assert(fill.len() == whole * mb);
    assert forall|k: int| 0 <= k && k * mb < fill2.len() implies is_pool_window(
        #[trigger] window_of(fill2, k),
        pool,
    ) by {
        if k < whole {
            assert((k + 1) * mb <= fill.len());
            assert(window_of(fill2, k) =~= window_of(fill, k));
        } else {
            assert(k == whole);
            assert(window_of(fill2, k) =~= chunk);
        }
    }
}

proof fn lemma_collect_tail(
    out: Seq<u8>,
    head: Seq<u8>,
    filler_len: nat,
    tail: Seq<u8>,
    pool: Seq<u8>,
)
    requires
        is_collected(out, head, filler_len, tail, pool, head.len() + filler_len),
    ensures
        is_framed(out + tail, head, filler_len, tail, pool),
{
    let more = out + tail;
    assert(more.take(head.len() as int) =~= out.take(head.len() as int));
    assert(more.skip((head.len() + filler_len) as int) =~= tail);
    assert(more.subrange(head.len() as int, (head.len() + filler_len) as int) =~= out.skip(
        head.len() as int,
    ));
}

/// All bytes of a stream that has handed out none yet, one after the other.
pub(crate) fn collect(stream: &mut FramedStream, pool: &RandomPool, gen: &mut Generator) -> (out: Vec<u8>)
    requires
        old(stream).position() == 0,
    ensures
        is_framed(out@, old(stream).head(), old(stream).filler_len(), old(stream).tail(), pool@),
        final(stream).position() == old(stream).total_len(),
        final(stream).head() == old(stream).head(),
        final(stream).filler_len() == old(stream).filler_len(),
        final(stream).tail() == old(stream).tail(),
{
    let mut out: Vec<u8> = Vec::new();
    let ghost head = stream.head();
    let ghost filler_len = stream.filler_len();
    let ghost tail = stream.tail();
    proof {
        if head.len() == 0 {
            assert(out@.skip(0) =~= out@);
            assert(out@.take(0) =~= head);
        }
    }
    loop
        invariant
            stream.head() == head,
            stream.filler_len() == filler_len,
            stream.tail() == tail,
            stream.position() <= head.len() + filler_len + tail.len(),
            is_collected(out@, head, filler_len, tail, pool@, stream.position()),
        ensures
            stream.position() == head.len() + filler_len + tail.len(),
            is_framed(out@, head, filler_len, tail, pool@),
        decreases head.len() + filler_len + tail.len() - stream.position(),
    {
        let ghost before = out@;
        let ghost position = stream.position();
        match stream.next_chunk(pool, gen) {
            Some(chunk) => {
                out.extend_from_slice(chunk);
                proof {
                    assert(out@ =~= before + chunk@);
                    if position < head.len() {
                        assert(before =~= Seq::<u8>::empty());
                        assert(out@ =~= head);
                        assert(out@.take(head.len() as int) =~= head);
                        assert(out@.skip(head.len() as int) =~= Seq::<u8>::empty());
                    } else if position < head.len() + filler_len {
                        lemma_collect_window(
                            before,
                            head,
                            filler_len,
                            tail,
                            pool@,
                            position,
                            chunk@,
                        );
                    } else {
                        lemma_collect_tail(before, head, filler_len, tail, pool@);
                    }
                }
            },
            None => {
                proof {
                    if tail.len() == 0 {
                        if position >= head.len() {
                            assert(out@ =~= out@ + tail);
                            lemma_collect_tail(out@, head, filler_len, tail, pool@);
                        } else {
                            assert(out@ =~= Seq::<u8>::empty());
                            assert(false);
                        }
                    }
                }
                break ;
            },
        }
    }
    out
}

} // verus!
