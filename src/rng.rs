//! The Mersenne Twister of `prng_mt`, the engine's only source of chance.
use vstd::prelude::*;
use prng_mt::mt19937::MT19937;

verus! {

#[verifier::external_type_specification]
#[verifier::external_body]
pub struct ExMT19937(MT19937);

/// Relies on `prng_mt::MT19937::new`: seeds a 32-bit Mersenne Twister. Nothing
/// is promised of the stream it will produce.
pub assume_specification[ MT19937::new ](seed: u32) -> MT19937;

/// Relies on `prng_mt::MT19937::next`: the next 32-bit word of the stream. It
/// never panics (the state is twisted in place when used up); any word may come.
pub assume_specification[ MT19937::next ](rng: &mut MT19937) -> u32;

/// The probability numerator that a raw word stands for: `x % u32::MAX`, a
/// draw `r / u32::MAX` in `[0, 1)`.
pub open spec fn prob_of(x: u32) -> nat {
    (x % 0xFFFF_FFFF) as nat
}

pub fn prob_of_word(x: u32) -> (r: u32)
    ensures
        r == prob_of(x),
        (r as int) < 0xFFFF_FFFF,
{
    x % u32::MAX
}

pub open spec fn index_of(x: u32, n: nat) -> nat {
    (x as nat) % n
}

/// A uniform index below `n` from a raw word: `x % n`.
pub fn index_of_word(x: u32, n: usize) -> (r: usize)
    requires
        n > 0,
    ensures
        r == index_of(x, n as nat),
{
    x as usize % n
}

/// A uniform register value from a raw word: `x % 4`.
pub fn qudit_of_word(x: u32) -> (r: u8)
    ensures
        r == index_of(x, 4),
{
    (x % 4) as u8
}

} // verus!
