//! The seeded generator every random choice is drawn from.
//!
//! The generator is `rand_xoshiro`'s xoshiro256+. The library holds it as the 32
//! bytes of its state: a draw rebuilds the generator from them with `from_seed`,
//! makes the call, and keeps the bytes that `Xoshiro256Plus::state` reads back. A
//! draw is therefore a function of those bytes and of the bounds asked for, which
//! is what makes a run a function of its seed. (`from_seed` takes an all-zero state
//! for that of seed 0; a seeded generator never reaches one.)

use rand::RngExt;
use rand_xoshiro::rand_core::SeedableRng;
use rand_xoshiro::Xoshiro256Plus;
use vstd::prelude::*;

verus! {

/// State bytes of a generator made by `Xoshiro256Plus::seed_from_u64`.
pub uninterp spec fn seeded_state(seed: u64) -> Seq<u8>;

/// Value and next state of `RngExt::random::<u32>`.
pub uninterp spec fn word_draw(state: Seq<u8>) -> (u32, Seq<u8>);

/// Value and next state of `RngExt::random_range` over `low..high` in `u32`.
pub uninterp spec fn u32_draw(state: Seq<u8>, low: u32, high: u32) -> (u32, Seq<u8>);

/// Value and next state of `RngExt::random_range` over `low..high` in `u8`.
pub uninterp spec fn u8_draw(state: Seq<u8>, low: u8, high: u8) -> (u8, Seq<u8>);

/// Value and next state of `RngExt::random_range` over `low..high` in `usize`.
pub uninterp spec fn usize_draw(state: Seq<u8>, low: usize, high: usize) -> (usize, Seq<u8>);

/// Calls `Xoshiro256Plus::seed_from_u64`: the state it starts from is a function
/// of the seed alone.
#[verifier::external_body]
fn seed_from_u64(seed: u64) -> (state: [u8; 32])
    ensures
        state@ == seeded_state(seed),
{
    Xoshiro256Plus::seed_from_u64(seed).state()
}

/// Calls `RngExt::random::<u32>`, one 32-bit output of the generator: the value
/// and the state left behind are functions of the state before.
#[verifier::external_body]
fn random_word(state: [u8; 32]) -> (drawn: (u32, [u8; 32]))
    ensures
        (drawn.0, drawn.1@) == word_draw(state@),
{
    let mut rng = Xoshiro256Plus::from_seed(state);
    (rng.random::<u32>(), rng.state())
}

/// Calls `RngExt::random_range` on a `u32` range: the value lies in the range,
/// and the value and the state left behind are functions of the state before and
/// of the two bounds. An empty range makes the call panic, so it is excluded.
#[verifier::external_body]
fn random_range_u32(state: [u8; 32], low: u32, high: u32) -> (drawn: (u32, [u8; 32]))
    requires
        low < high,
    ensures
        low <= drawn.0 < high,
        (drawn.0, drawn.1@) == u32_draw(state@, low, high),
{
    let mut rng = Xoshiro256Plus::from_seed(state);
    (rng.random_range(low..high), rng.state())
}

/// Calls `RngExt::random_range` on a `u8` range, with the claims of
/// [`random_range_u32`].
#[verifier::external_body]
fn random_range_u8(state: [u8; 32], low: u8, high: u8) -> (drawn: (u8, [u8; 32]))
    requires
        low < high,
    ensures
        low <= drawn.0 < high,
        (drawn.0, drawn.1@) == u8_draw(state@, low, high),
{
    let mut rng = Xoshiro256Plus::from_seed(state);
    (rng.random_range(low..high), rng.state())
}

/// Calls `RngExt::random_range` on a `usize` range, with the claims of
/// [`random_range_u32`].
#[verifier::external_body]
fn random_range_usize(state: [u8; 32], low: usize, high: usize) -> (drawn: (usize, [u8; 32]))
    requires
        low < high,
    ensures
        low <= drawn.0 < high,
        (drawn.0, drawn.1@) == usize_draw(state@, low, high),
{
    let mut rng = Xoshiro256Plus::from_seed(state);
    (rng.random_range(low..high), rng.state())
}

/// A generator, held by its state bytes.
#[derive(Debug, Clone, Copy)]
pub struct Generator {
    state: [u8; 32],
}

impl View for Generator {
    type V = Seq<u8>;

    /// The state bytes.
    closed spec fn view(&self) -> Seq<u8> {
        self.state@
    }
}

impl Generator {
    /// The generator a seed starts.
    pub fn seeded(seed: u64) -> (generator: Self)
        ensures
            generator@ == seeded_state(seed),
    {
        Generator { state: seed_from_u64(seed) }
    }

    /// The generator with the given state bytes.
    pub fn from_state(state: [u8; 32]) -> (generator: Self)
        ensures
            generator@ == state@,
    {
        Generator { state }
    }

    /// The state bytes.
    pub fn state(&self) -> (state: [u8; 32])
        ensures
            state@ == self@,
    {
        self.state
    }

    /// One 32-bit output.
    pub fn word(&mut self) -> (value: u32)
        ensures
            (value, final(self)@) == word_draw(old(self)@),
    {
        let (value, state) = random_word(self.state);
        self.state = state;
        value
    }

    /// A value of `low..high`.
    pub fn range_u32(&mut self, low: u32, high: u32) -> (value: u32)
        requires
            low < high,
        ensures
            low <= value < high,
            (value, final(self)@) == u32_draw(old(self)@, low, high),
    {
        let (value, state) = random_range_u32(self.state, low, high);
        self.state = state;
        value
    }

    /// A value of `low..high`.
    pub fn range_u8(&mut self, low: u8, high: u8) -> (value: u8)
        requires
            low < high,
        ensures
            low <= value < high,
            (value, final(self)@) == u8_draw(old(self)@, low, high),
    {
        let (value, state) = random_range_u8(self.state, low, high);
        self.state = state;
        value
    }

    /// A value of `low..high`.
    pub fn range_usize(&mut self, low: usize, high: usize) -> (value: usize)
        requires
            low < high,
        ensures
            low <= value < high,
            (value, final(self)@) == usize_draw(old(self)@, low, high),
    {
        let (value, state) = random_range_usize(self.state, low, high);
        self.state = state;
        value
    }
}

} // verus!
