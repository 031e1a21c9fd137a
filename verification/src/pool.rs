//! The pool of filler bytes that downloads and uploads draw their payload from.

use crate::random::Generator;
use crate::MB;
use vstd::prelude::*;
use vstd::slice::slice_subrange;

verus! {

/// Bytes in a pool: two mebibytes, so that a window of up to one mebibyte fits
/// behind every offset below one mebibyte.
pub const POOL_SIZE: usize = 2097152;

/// A printable character of ASCII, the blank included.
pub open spec fn is_printable(b: u8) -> bool {
    0x20 <= b <= 0x7e
}

/// Every byte is printable.
pub open spec fn all_printable(s: Seq<u8>) -> bool {
    forall|i: int| 0 <= i < s.len() ==> is_printable(#[trigger] s[i])
}

/// `w` stands in the pool, beginning at an offset below one mebibyte.
pub open spec fn is_pool_window(w: Seq<u8>, pool: Seq<u8>) -> bool {
    exists|start: int|
        0 <= start < MB && start + w.len() <= pool.len() && w == #[trigger] pool.subrange(
            start,
            start + w.len(),
        )
}

/// A buffer of printable filler, made once and only read afterwards.
pub struct RandomPool {
    bytes: Vec<u8>,
}

impl RandomPool {
    #[verifier::type_invariant]
    spec fn well_formed(self) -> bool {
        self.bytes@.len() == POOL_SIZE && all_printable(self.bytes@)
    }

    /// The bytes of the pool.
    pub closed spec fn view(&self) -> Seq<u8> {
        self.bytes@
    }

    /// A pool filled from `gen`.
    pub fn generate(gen: &mut Generator) -> (pool: RandomPool)
        ensures
            pool@.len() == POOL_SIZE,
            all_printable(pool@),
    {
        let mut bytes: Vec<u8> = Vec::with_capacity(POOL_SIZE);
        let mut i: usize = 0;
        while i < POOL_SIZE
            invariant
                0 <= i <= POOL_SIZE,
                bytes@.len() == i,
                all_printable(bytes@),
            decreases POOL_SIZE - i,
        {
            let b = gen.byte_in(0x20, 0x7f);
            bytes.push(b);
            i += 1;
        }
        RandomPool { bytes }
    }

    /// All bytes of the pool.
    pub fn as_slice(&self) -> (s: &[u8])
        ensures
            s@ == self@,
            s@.len() == POOL_SIZE,
            all_printable(s@),
    {
        proof {
            use_type_invariant(self);
        }
        self.bytes.as_slice()
    }

    /// The `len` bytes that begin at `start`; none where they would reach
    /// beyond the pool.
    pub fn window(&self, start: usize, len: usize) -> (w: Option<&[u8]>)
        ensures
            w is Some <==> start + len <= POOL_SIZE,
            w matches Some(s) ==> s@ == self@.subrange(start as int, start + len),
    {
        proof {
            use_type_invariant(self);
        }
        if len <= POOL_SIZE && start <= POOL_SIZE - len {
            Some(slice_subrange(self.bytes.as_slice(), start, start + len))
        } else {
            None
        }
    }
}

} // verus!
