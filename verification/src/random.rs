//! The pseudo-random generator behind filler bytes and window offsets.
//!
//! The generator itself is the xoshiro256+ of `rand_xoshiro`, driven through
//! `rand`. Its state is opaque here: of a draw only the range is known.

use rand::distributions::Alphanumeric;
use rand::Rng;
use rand::SeedableRng;
use rand_xoshiro::Xoshiro256Plus;
use vstd::prelude::*;

verus! {

/// The generator of `rand_xoshiro`, carried through as a value that cannot be
/// looked into.
#[verifier::external_type_specification]
#[verifier::external_body]
pub struct ExXoshiro256Plus(Xoshiro256Plus);

/// A letter or a digit of ASCII.
pub open spec fn is_alphanumeric(b: u8) -> bool {
    (0x30 <= b <= 0x39) || (0x41 <= b <= 0x5a) || (0x61 <= b <= 0x7a)
}

/// The first `len` alphanumeric bytes that a generator seeded with `seed` yields.
pub uninterp spec fn alphanumeric_stream(seed: u64, len: nat) -> Seq<u8>;

/// The state in which a generator begins that is seeded with `seed`. The
/// state cannot be looked into. What the name says is that the seed alone
/// determines it, in every process and on every machine, and so every draw
/// that is made from the generator afterwards.
pub uninterp spec fn seeded_state(seed: u64) -> Xoshiro256Plus;


/// `Rng::gen_range` on bytes: a draw from `low..high`. It is claimed to lie in
/// that range, as the method documents; the method panics on an empty range,
/// which is excluded.
#[verifier::external_body]
fn draw_byte(rng: &mut Xoshiro256Plus, low: u8, high: u8) -> (b: u8)
    requires
        low < high,
    ensures
        low <= b < high,
{
    rng.gen_range(low, high)
}

/// `Rng::gen_range` on sizes: a draw from `low..high`. It is claimed to lie in
/// that range, as the method documents; the method panics on an empty range,
/// which is excluded.
#[verifier::external_body]
fn draw_size(rng: &mut Xoshiro256Plus, low: usize, high: usize) -> (n: usize)
    requires
        low < high,
    ensures
        low <= n < high,
{
    rng.gen_range(low, high)
}

/// `Rng::sample_iter` with the `Alphanumeric` distribution, on a generator
/// fresh from `seed_from_u64`: the first `len` samples as bytes. Claimed: the
/// bytes are a function of seed and length, there are `len` of them, and each
/// is a letter or a digit of ASCII, which is all that `Alphanumeric` yields.
#[verifier::external_body]
pub(crate) fn draw_alphanumeric(seed: u64, len: usize) -> (bytes: Vec<u8>)
    ensures
        bytes@ == alphanumeric_stream(seed, len as nat),
        bytes@.len() == len,
        forall|i: int| 0 <= i < bytes@.len() ==> is_alphanumeric(#[trigger] bytes@[i]),
{
    Xoshiro256Plus::seed_from_u64(seed).sample_iter(&Alphanumeric).map(|c| c as u8).take(len).collect()
}

/// A source of pseudo-random bytes and offsets.
pub struct Generator {
    rng: Xoshiro256Plus,
}

impl Generator {
    /// A generator that goes on from the state it is given, which the caller
    /// has seeded, from the system's entropy for one.
    pub fn new(rng: Xoshiro256Plus) -> (g: Generator)
        ensures g.state() == rng,
    { Generator { rng } }

    /// The generator that `seed` determines: it begins in the seed's state.
    pub fn seeded(seed: u64) -> (g: Generator)
        ensures g.state() == seeded_state(seed),
    { Generator { rng: generator_from_seed(seed) } }

    /// A byte from `low..high`; `low` where that range is empty.
    pub fn byte_in(&mut self, low: u8, high: u8) -> (b: u8)
        ensures
            low < high ==> low <= b < high,
            low >= high ==> b == low,
    {
        if low < high {
            draw_byte(&mut self.rng, low, high)
        } else {
            low
        }
    }

    /// An offset below `bound`; zero where `bound` leaves no choice.
    pub fn offset_below(&mut self, bound: usize) -> (n: usize)
        ensures
            bound > 0 ==> n < bound,
            bound == 0 ==> n == 0,
    {
        if bound == 0 {
            0
        } else {
            draw_size(&mut self.rng, 0, bound)
        }
    }

    /// The state from which the next draw is made.
    pub closed spec fn state(&self) -> Xoshiro256Plus {
        self.rng
    }
}

/// `Xoshiro256Plus::seed_from_u64`: the generator that the seed determines.
/// Claimed: its state is a function of the seed and of nothing else, as the
/// method computes it from the seed alone, byte order included. Nothing is
/// claimed of what the state is.
#[verifier::external_body]
fn generator_from_seed(seed: u64) -> (rng: Xoshiro256Plus)
    ensures
        rng == seeded_state(seed),
{
    Xoshiro256Plus::seed_from_u64(seed)
}

} // verus!
