//! The random generator that drives runs: `rand_xorshift`'s, and what is drawn from it.

use rand::{Rng, RngCore, SeedableRng};
use rand_xorshift::XorShiftRng;
use vstd::prelude::*;

verus! {

/// `rand_xorshift`'s `XorShiftRng`.
#[verifier::external_type_specification]
#[verifier::external_body]
pub struct ExXorShiftRng(XorShiftRng);

/// The words of state that an `XorShiftRng` holds.
pub uninterp spec fn words(rng: XorShiftRng) -> Seq<u32>;

/// The words that `SeedableRng::seed_from_u64` gives an `XorShiftRng`.
pub uninterp spec fn seeded(seed: u64) -> Seq<u32>;

/// The bytes that `RngCore::fill_bytes` takes from a generator that holds `words`, where
/// `len` are asked for, and the words that it holds afterwards.
pub uninterp spec fn bytes_drawn(words: Seq<u32>, len: nat) -> (Seq<u8>, Seq<u32>);

/// The number that `Rng::gen_range(min..=max)` draws on a machine whose `usize` has `bits`
/// bits, and the words that the generator holds afterwards.
pub uninterp spec fn number_drawn(words: Seq<u32>, min: usize, max: usize, bits: u32) -> (
    usize,
    Seq<u32>,
);

/// The number that `Rng::gen::<u32>` draws, and the words afterwards.
pub uninterp spec fn word_drawn(words: Seq<u32>) -> (u32, Seq<u32>);

/// The number that `Rng::gen_range(low..high)` draws as an `i32`, and the words afterwards.
pub uninterp spec fn range_drawn(words: Seq<u32>, low: i32, high: i32) -> (i32, Seq<u32>);

/// Seeds an `XorShiftRng` with `SeedableRng::seed_from_u64`. The seed determines its words.
#[verifier::external_body]
pub(crate) fn seed_rng(seed: u64) -> (rng: XorShiftRng)
    ensures
        words(rng) == seeded(seed),
{
    XorShiftRng::seed_from_u64(seed)
}

/// Takes `len` bytes with `RngCore::fill_bytes`. The generator's words determine them, and
/// what it holds afterwards. A vector holds no more bytes than an `isize` counts.
#[verifier::external_body]
pub(crate) fn draw_bytes(rng: &mut XorShiftRng, len: usize) -> (bytes: Vec<u8>)
    requires
        len <= isize::MAX,
    ensures
        (bytes@, words(*final(rng))) == bytes_drawn(words(*old(rng)), len as nat),
        bytes@.len() == len,
{
    let mut bytes = vec![0u8; len];
    rng.fill_bytes(&mut bytes);
    bytes
}

/// Draws a number with `Rng::gen_range`; it is in the range. The generator's words, the range
/// and the size of a `usize` determine it, and what the generator holds afterwards.
#[verifier::external_body]
pub(crate) fn draw_between(rng: &mut XorShiftRng, min: usize, max: usize) -> (n: usize)
    requires
        min <= max,
    ensures
        (n, words(*final(rng))) == number_drawn(words(*old(rng)), min, max, usize::BITS),
        min <= n <= max,
{
    rng.gen_range(min..=max)
}

/// Draws a number with `Rng::gen`. The generator's words determine it, and what it holds
/// afterwards.
#[verifier::external_body]
pub(crate) fn draw_u32(rng: &mut XorShiftRng) -> (n: u32)
    ensures
        (n, words(*final(rng))) == word_drawn(words(*old(rng))),
{
    rng.gen::<u32>()
}

/// Draws a number with `Rng::gen_range`; it is in the range. The generator's words and the
/// range determine it, and what the generator holds afterwards.
#[verifier::external_body]
pub(crate) fn draw_range(rng: &mut XorShiftRng, low: i32, high: i32) -> (n: i32)
    requires
        low < high,
    ensures
        (n, words(*final(rng))) == range_drawn(words(*old(rng)), low, high),
        low <= n < high,
{
    rng.gen_range(low..high)
}

} // verus!
