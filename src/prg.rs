//! A seeded pseudorandom generator of blocks and bits.
use vstd::prelude::*;

use crate::block::Block;

verus! {

/// Declares `rand_chacha::ChaCha8Rng`, the stream behind a [`Prg`].
#[verifier::external_type_specification]
#[verifier::external_body]
pub struct ExChaCha8Rng(rand_chacha::ChaCha8Rng);

/// Relies on `rand_chacha::ChaCha8Rng::from_seed` (`rand_core::SeedableRng`).
#[verifier::external_body]
fn chacha_from_seed(seed: [u8; 32]) -> rand_chacha::ChaCha8Rng {
    <rand_chacha::ChaCha8Rng as rand::SeedableRng>::from_seed(seed)
}

/// Relies on `rand::Rng::gen::<u128>` over a ChaCha8 stream; nothing is known of the value.
#[verifier::external_body]
fn chacha_u128(rng: &mut rand_chacha::ChaCha8Rng) -> u128 {
    rand::Rng::gen::<u128>(rng)
}

/// Relies on `rand::Rng::gen::<bool>` over a ChaCha8 stream; nothing is known of the value.
#[verifier::external_body]
fn chacha_bool(rng: &mut rand_chacha::ChaCha8Rng) -> bool {
    rand::Rng::gen::<bool>(rng)
}

/// A deterministic generator: the same seed gives the same stream.
#[derive(Debug)]
pub struct Prg {
    rng: rand_chacha::ChaCha8Rng,
}

impl Prg {
    /// Creates a generator from a 16-byte seed.
    pub fn new_with_seed(seed: [u8; 16]) -> (r: Prg) {
        let mut full: [u8; 32] = [0u8; 32];
        let mut i: usize = 0;
        while i < 16
            invariant
                i <= 16,
                full@.len() == 32,
            decreases 16 - i,
        {
            full[i] = seed[i];
            i = i + 1;
        }
        Prg { rng: chacha_from_seed(full) }
    }

    /// Creates a generator seeded with a block.
    pub fn from_seed(seed: Block) -> (r: Prg) {
        Prg::new_with_seed(seed.to_bytes())
    }

    /// Returns the next random block.
    pub fn random_block(&mut self) -> (r: Block) {
        Block(chacha_u128(&mut self.rng))
    }

    /// Returns the next random bit.
    pub fn random_bool(&mut self) -> (r: bool) {
        chacha_bool(&mut self.rng)
    }

    /// Returns `n` random blocks.
    pub fn random_blocks(&mut self, n: usize) -> (r: Vec<Block>)
        ensures
            r@.len() == n,
    {
        let mut v: Vec<Block> = Vec::with_capacity(n);
        let mut i: usize = 0;
        while i < n
            invariant
                i <= n,
                v@.len() == i,
            decreases n - i,
        {
            v.push(self.random_block());
            i = i + 1;
        }
        v
    }

    /// Returns `n` random bits.
    pub fn random_bools(&mut self, n: usize) -> (r: Vec<bool>)
        ensures
            r@.len() == n,
    {
        let mut v: Vec<bool> = Vec::with_capacity(n);
        let mut i: usize = 0;
        while i < n
            invariant
                i <= n,
                v@.len() == i,
            decreases n - i,
        {
            v.push(self.random_bool());
            i = i + 1;
        }
        v
    }
}

} // verus!
