use vstd::prelude::*;

use rand_chacha::rand_core::{RngCore, SeedableRng};

verus! {

/// The 32-bit word at position `k` of the ChaCha8 keystream obtained from
/// `seed`. The stream cipher is counter-based, so the word is a pure function
/// of the seed and the position: every draw the library makes is taken from
/// this stream at an explicitly tracked position, which is what makes a whole
/// randomized table a function of its seed.
pub uninterp spec fn chacha8_word(seed: u64, k: u64) -> u32;

/// Relies on rand_chacha's `ChaCha8Rng`: `seed_from_u64` expands the seed by
/// a fixed, platform-independent recipe, `set_word_pos` seeks the
/// counter-based keystream to an absolute 32-bit-word position, and
/// `next_u32` reads the word there. The result depends on `seed` and `k`
/// alone; the generator is documented as portable and reproducible.
#[verifier::external_body]
fn raw_word(seed: u64, k: u64) -> (r: u32)
    ensures
        r == chacha8_word(seed, k),
{
    let mut rng = rand_chacha::ChaCha8Rng::seed_from_u64(seed);
    rng.set_word_pos(k as u128);
    rng.next_u32()
}

/// Where the stream word `w` lands in the inclusive span `lo..=hi`: the
/// library's one rule for turning a raw draw into a bounded value.
pub open spec fn uniform_in(w: u32, lo: u32, hi: u32) -> u32
    recommends
        lo <= hi,
{
    (lo + (w as int) % (hi - lo + 1)) as u32
}

/// Draws the value of the inclusive span `lo..=hi` selected by stream word
/// `k` of `seed`.
pub fn draw_in(seed: u64, k: u64, lo: u32, hi: u32) -> (r: u32)
    requires
        lo <= hi,
    ensures
        r == uniform_in(chacha8_word(seed, k), lo, hi),
        lo <= r <= hi,
{
    let w = raw_word(seed, k);
    let span: u64 = (hi - lo) as u64 + 1;
    let rem: u64 = (w as u64) % span;
    proof {
        assert(0 <= (w as int) % (span as int) < span as int) by (nonlinear_arith)
            requires
                span as int > 0,
        ;
        assert((w as u64) % span == (w as int) % (span as int));
    }
    lo + (rem as u32)
}

/// Whether the stream word `w` flips a fair coin to heads: the rule for every
/// two-way decision the engine makes.
pub open spec fn coin(w: u32) -> bool {
    w % 2 == 0
}

/// Draws the coin selected by stream word `k` of `seed`.
pub fn draw_coin(seed: u64, k: u64) -> (r: bool)
    ensures
        r == coin(chacha8_word(seed, k)),
{
    let w = raw_word(seed, k);
    w % 2 == 0
}

} // verus!
