//! The QuickSilver designated-verifier zero-knowledge proof: authenticated
//! inputs and AND gates, and the batched AND-gate consistency check.
use vstd::prelude::*;

use crate::block::{gf_mul, gf_pow, inner_product, le_bytes, Block, MINUS_ONE};
use crate::correlated::{lsb, mac_of, Delta};
use crate::gf::{lemma_gf_mul_assoc, lemma_gf_mul_comm, lemma_gf_mul_distrib_left, lemma_gf_mul_distrib_right, lemma_mul_zero};
use crate::hash::{blake3_digest, blocks_bytes, encode_blocks, hash, push_block_bytes};
use crate::ot::{RCOTReceiverOutput, RCOTSenderOutput, VOPESenderOutput};

verus! {

/// Number of AND gates after which a check is due.
pub const CHECK_BUFFER_SIZE: usize = 1048576;

/// `1` for a set bit, `0` otherwise.
pub open spec fn bit_u8(b: bool) -> u8 {
    if b {
        1
    } else {
        0
    }
}

/// Bit `k` of `bits`, or `false` past its end.
pub open spec fn bit_at(bits: Seq<bool>, k: int) -> bool {
    0 <= k < bits.len() && bits[k]
}

/// Byte `j` of the packing of `bits`: bit `8j` in the most significant position.
pub open spec fn pack_byte(bits: Seq<bool>, j: int) -> u8 {
    ((bit_u8(bit_at(bits, 8 * j)) << 7u8) | (bit_u8(bit_at(bits, 8 * j + 1)) << 6u8) | (bit_u8(bit_at(bits, 8 * j + 2)) << 5u8)
        | (bit_u8(bit_at(bits, 8 * j + 3)) << 4u8) | (bit_u8(bit_at(bits, 8 * j + 4)) << 3u8) | (bit_u8(bit_at(bits, 8 * j + 5)) << 2u8)
        | (bit_u8(bit_at(bits, 8 * j + 6)) << 1u8) | bit_u8(bit_at(bits, 8 * j + 7))) as u8
}

/// `bits` packed eight to a byte, most significant bit first, the last byte padded with zeros.
pub open spec fn pack_bits(bits: Seq<bool>) -> Seq<u8> {
    Seq::new(((bits.len() + 7) / 8) as nat, |j: int| pack_byte(bits, j))
}

/// Bit `t` (from the most significant) of byte `b`.
pub open spec fn byte_bit(b: u8, t: int) -> bool {
    (b >> ((7 - t) as u8)) & 1u8 == 1u8
}

/// Converts bits to bytes, eight to a byte, most significant bit first.
pub fn bools_to_bytes(bv: &[bool]) -> (r: Vec<u8>)
    ensures
        r@ == pack_bits(bv@),
{
    let n = bv.len();
    let len: usize = if n % 8 == 0 { n / 8 } else { n / 8 + 1 };
    let mut v: Vec<u8> = Vec::with_capacity(len);
    let mut j: usize = 0;
    while j < len
        invariant
            n == bv@.len(),
            len == (n + 7) / 8,
            j <= len,
            v@.len() == j,
            forall|i: int| 0 <= i < j ==> v@[i] == #[trigger] pack_byte(bv@, i),
        decreases len - j,
    {
        let base = 8 * j;
        let b0: u8 = if base < n && bv[base] { 1 } else { 0 };
        let b1: u8 = if base + 1 < n && bv[base + 1] { 1 } else { 0 };
        let b2: u8 = if base + 2 < n && bv[base + 2] { 1 } else { 0 };
        let b3: u8 = if base + 3 < n && bv[base + 3] { 1 } else { 0 };
        let b4: u8 = if base + 4 < n && bv[base + 4] { 1 } else { 0 };
        let b5: u8 = if base + 5 < n && bv[base + 5] { 1 } else { 0 };
        let b6: u8 = if base + 6 < n && bv[base + 6] { 1 } else { 0 };
        let b7: u8 = if base + 7 < n && bv[base + 7] { 1 } else { 0 };
        let byte: u8 = (b0 << 7u8) | (b1 << 6u8) | (b2 << 5u8) | (b3 << 4u8) | (b4 << 3u8) | (b5 << 2u8) | (b6 << 1u8) | b7;
        v.push(byte);
        j = j + 1;
    }
    assert(v@ =~= pack_bits(bv@));
    v
}

/// Converts bytes to bits, most significant bit of each byte first.
pub fn bytes_to_bools(v: &[u8]) -> (r: Vec<bool>)
    requires
        8 * v@.len() <= usize::MAX,
    ensures
        r@.len() == 8 * v@.len(),
        forall|k: int| 0 <= k < r@.len() ==> r@[k] == #[trigger] byte_bit(v@[k / 8], k % 8),
{
    let mut bv: Vec<bool> = Vec::with_capacity(8 * v.len());
    let mut i: usize = 0;
    while i < v.len()
        invariant
            i <= v@.len(),
            8 * v@.len() <= usize::MAX,
            bv@.len() == 8 * i,
            forall|k: int| 0 <= k < bv@.len() ==> bv@[k] == #[trigger] byte_bit(v@[k / 8], k % 8),
        decreases v@.len() - i,
    {
        let byte = v[i];
        let mut t: u8 = 0;
        while t < 8
            invariant
                i < v@.len(),
                byte == v@[i as int],
                t <= 8,
                bv@.len() == 8 * i + t,
                forall|k: int| 0 <= k < bv@.len() ==> bv@[k] == #[trigger] byte_bit(v@[k / 8], k % 8),
            decreases 8 - t,
        {
            let ghost prev = bv@;
            let sh: u8 = 7 - t;
            bv.push(((byte >> sh) & 1) != 0);
            proof {
                let k = 8 * i + t;
                assert(k / 8 == i && k % 8 == t);
                assert(((byte >> sh) & 1u8 != 0u8) == ((byte >> sh) & 1u8 == 1u8)) by (bit_vector);
                assert(bv@[k] == byte_bit(v@[k / 8], k % 8));
                assert forall|kk: int| 0 <= kk < bv@.len() implies bv@[kk] == #[trigger] byte_bit(v@[kk / 8], kk % 8) by {
                    if kk < k {
                        assert(bv@[kk] == prev[kk]);
                    }
                }
            }
            t = t + 1;
        }
        i = i + 1;
    }
    bv
}

/// Unpacking packed bits gives the bits back, padded with zeros.
pub proof fn lemma_pack_unpack(bits: Seq<bool>, k: int)
    requires
        0 <= k < 8 * pack_bits(bits).len(),
    ensures
        byte_bit(pack_bits(bits)[k / 8], k % 8) == bit_at(bits, k),
{
    let j = k / 8;
    let t = k % 8;
    let b0 = bit_u8(bit_at(bits, 8 * j));
    let b1 = bit_u8(bit_at(bits, 8 * j + 1));
    let b2 = bit_u8(bit_at(bits, 8 * j + 2));
    let b3 = bit_u8(bit_at(bits, 8 * j + 3));
    let b4 = bit_u8(bit_at(bits, 8 * j + 4));
    let b5 = bit_u8(bit_at(bits, 8 * j + 5));
    let b6 = bit_u8(bit_at(bits, 8 * j + 6));
    let b7 = bit_u8(bit_at(bits, 8 * j + 7));
    let byte = ((b0 << 7u8) | (b1 << 6u8) | (b2 << 5u8) | (b3 << 4u8) | (b4 << 3u8) | (b5 << 2u8) | (b6 << 1u8) | b7) as u8;
    assert(pack_bits(bits)[j] == byte);
    assert(b0 <= 1 && b1 <= 1 && b2 <= 1 && b3 <= 1 && b4 <= 1 && b5 <= 1 && b6 <= 1 && b7 <= 1 ==> {
        let x = (b0 << 7u8) | (b1 << 6u8) | (b2 << 5u8) | (b3 << 4u8) | (b4 << 3u8) | (b5 << 2u8) | (b6 << 1u8) | b7;
        &&& (x >> 7u8) & 1u8 == b0
        &&& (x >> 6u8) & 1u8 == b1
        &&& (x >> 5u8) & 1u8 == b2
        &&& (x >> 4u8) & 1u8 == b3
        &&& (x >> 3u8) & 1u8 == b4
        &&& (x >> 2u8) & 1u8 == b5
        &&& (x >> 1u8) & 1u8 == b6
        &&& (x >> 0u8) & 1u8 == b7
    }) by (bit_vector);
    assert(8 * j + t == k);
}

/// The MAC `b` with its pointer bit replaced by `x`.
pub open spec fn set_value(b: u128, x: bool) -> u128 {
    (b & MINUS_ONE) ^ (if x { 1u128 } else { 0u128 })
}

/// The key `b` with its pointer bit cleared.
pub open spec fn set_zero(b: u128) -> u128 {
    b & MINUS_ONE
}

/// The challenge powers `χ, χ^2, ..., χ^n`.
pub open spec fn chi_powers(chi: u128, n: nat) -> Seq<Block> {
    Seq::new(n, |i: int| Block(gf_pow(chi, (i + 1) as nat)))
}

/// The prover's per-gate terms `X_i * Y_i`.
pub open spec fn u_terms(x: Seq<Block>, y: Seq<Block>) -> Seq<Block> {
    Seq::new(x.len(), |i: int| Block(gf_mul(x[i].0, y[i].0)))
}

/// The prover's per-gate terms `A10_i ^ A11_i ^ Z_i`, with `A10 = LSB(X) ? Y : 0`
/// and `A11 = LSB(Y) ? X : 0`.
pub open spec fn v_terms(x: Seq<Block>, y: Seq<Block>, z: Seq<Block>) -> Seq<Block> {
    Seq::new(x.len(), |i: int| Block(
        (if lsb(x[i].0) { y[i].0 } else { 0u128 }) ^ (if lsb(y[i].0) { x[i].0 } else { 0u128 }) ^ z[i].0
    ))
}

/// The verifier's per-gate terms `X_i * Y_i ^ Δ * Z_i`.
pub open spec fn w_terms(x: Seq<Block>, y: Seq<Block>, z: Seq<Block>, delta: u128) -> Seq<Block> {
    Seq::new(x.len(), |i: int| Block(gf_mul(x[i].0, y[i].0) ^ gf_mul(delta, z[i].0)))
}

/// The challenge derived from a transcript: the first 16 bytes of its BLAKE3 digest,
/// read little-endian.
pub open spec fn is_challenge(chi: u128, transcript: Seq<u8>) -> bool {
    le_bytes(chi) == blake3_digest(transcript).subrange(0, 16)
}

/// Returns the challenge of a transcript.
fn challenge(transcript: &Vec<u8>) -> (r: Block)
    ensures
        is_challenge(r.0, transcript@),
{
    let digest = hash(transcript.as_slice());
    let mut first: [u8; 16] = [0u8; 16];
    let mut i: usize = 0;
    while i < 16
        invariant
            i <= 16,
            first@.len() == 16,
            digest@.len() == 32,
            forall|j: int| 0 <= j < i ==> first@[j] == digest@[j],
        decreases 16 - i,
    {
        first[i] = digest[i];
        i = i + 1;
    }
    assert(first@ =~= digest@.subrange(0, 16));
    Block::from_bytes(first)
}

/// Appends `bytes` to `out`.
fn append_bytes(out: &mut Vec<u8>, bytes: &Vec<u8>)
    ensures
        final(out)@ == old(out)@ + bytes@,
{
    let mut i: usize = 0;
    while i < bytes.len()
        invariant
            i <= bytes@.len(),
            out@ == old(out)@ + bytes@.subrange(0, i as int),
        decreases bytes@.len() - i,
    {
        out.push(bytes[i]);
        assert(out@ =~= old(out)@ + bytes@.subrange(0, i + 1));
        i = i + 1;
    }
    assert(bytes@.subrange(0, bytes@.len() as int) =~= bytes@);
}

/// Errors of the QuickSilver prover.
#[derive(Clone, Copy, Debug, PartialEq, Eq, Structural)]
pub enum QsProverError {
    /// The inputs do not match the correlations given.
    InvalidInputs,
}

/// Errors of the QuickSilver verifier.
#[derive(Clone, Copy, Debug, PartialEq, Eq, Structural)]
pub enum QsVerifierError {
    /// The inputs do not match the correlations given.
    InvalidInputs,
}

/// The QuickSilver prover: it holds MACs on the wire values.
#[derive(Debug)]
pub struct Prover {
    buf_left: Vec<Block>,
    buf_right: Vec<Block>,
    buf_out: Vec<Block>,
    buf_hash: Vec<bool>,
    transcript: Vec<u8>,
}

impl Prover {
    /// Left input MACs of the AND gates of the current window.
    pub closed spec fn left(&self) -> Seq<Block> {
        self.buf_left@
    }

    /// Right input MACs of the AND gates of the current window.
    pub closed spec fn right(&self) -> Seq<Block> {
        self.buf_right@
    }

    /// Output MACs of the AND gates of the current window.
    pub closed spec fn out(&self) -> Seq<Block> {
        self.buf_out@
    }

    /// Masks sent for the AND gates of the current window.
    pub closed spec fn masks(&self) -> Seq<bool> {
        self.buf_hash@
    }

    /// Bytes bound into the transcript so far.
    pub closed spec fn transcript(&self) -> Seq<u8> {
        self.transcript@
    }

    /// The window's buffers have one entry per AND gate.
    pub open spec fn wf(&self) -> bool {
        &&& self.right().len() == self.left().len()
        &&& self.out().len() == self.left().len()
        &&& self.masks().len() == self.left().len()
    }

    /// Creates a prover with an empty transcript.
    pub fn new() -> (r: Prover)
        ensures
            r.wf(),
            r.left().len() == 0,
            r.transcript().len() == 0,
    {
        Prover { buf_left: Vec::new(), buf_right: Vec::new(), buf_out: Vec::new(), buf_hash: Vec::new(), transcript: Vec::new() }
    }

    /// Authenticates the input bits with random correlations: returns the masks
    /// `x_i ^ r_i` to send and the MACs, whose pointer bits become `x_i`.
    pub fn auth_input_bits(&mut self, inputs: &[bool], cot: RCOTReceiverOutput) -> (r: Result<(Vec<bool>, Vec<Block>), QsProverError>)
        requires
            old(self).wf(),
        ensures
            final(self).wf(),
            final(self).left() == old(self).left(),
            final(self).right() == old(self).right(),
            final(self).out() == old(self).out(),
            final(self).masks() == old(self).masks(),
            r.is_ok() == (cot.choices@.len() == inputs@.len() && cot.msgs@.len() == inputs@.len()),
            match r {
                Ok((masks, macs)) => {
                    &&& masks@.len() == inputs@.len()
                    &&& macs@.len() == inputs@.len()
                    &&& forall|i: int| 0 <= i < inputs@.len() ==> #[trigger] masks@[i] == (inputs@[i] != cot.choices@[i])
                    &&& forall|i: int| 0 <= i < inputs@.len() ==> (#[trigger] macs@[i]).0 == set_value(cot.msgs@[i].0, inputs@[i])
                    &&& final(self).transcript() == old(self).transcript() + pack_bits(masks@)
                },
                Err(_) => final(self).transcript() == old(self).transcript(),
            },
    {
        if cot.choices.len() != inputs.len() || cot.msgs.len() != inputs.len() {
            return Err(QsProverError::InvalidInputs);
        }
        let mut masks: Vec<bool> = Vec::with_capacity(inputs.len());
        let mut macs: Vec<Block> = Vec::with_capacity(inputs.len());
        let mut i: usize = 0;
        while i < inputs.len()
            invariant
                i <= inputs@.len(),
                cot.choices@.len() == inputs@.len(),
                cot.msgs@.len() == inputs@.len(),
                masks@.len() == i,
                macs@.len() == i,
                forall|j: int| 0 <= j < i ==> #[trigger] masks@[j] == (inputs@[j] != cot.choices@[j]),
                forall|j: int| 0 <= j < i ==> (#[trigger] macs@[j]).0 == set_value(cot.msgs@[j].0, inputs@[j]),
            decreases inputs@.len() - i,
        {
            masks.push(inputs[i] != cot.choices[i]);
            macs.push(set_value_exec(cot.msgs[i], inputs[i]));
            i = i + 1;
        }
        let bytes = bools_to_bytes(masks.as_slice());
        append_bytes(&mut self.transcript, &bytes);
        Ok((masks, macs))
    }

    /// MACs the output of an AND gate, which the check buffers keep. Given the input
    /// MACs `ma`, `mb` and a random correlation `(s, B)`, with `w = LSB(ma) & LSB(mb)`,
    /// returns the mask `w ^ s` for the verifier and `B` with its pointer bit set to `w`.
    pub fn auth_and_gate(&mut self, ma: Block, mb: Block, cot: (bool, Block)) -> (r: (bool, Block))
        requires
            old(self).wf(),
        ensures
            final(self).wf(),
            r.0 == ((lsb(ma.0) && lsb(mb.0)) != cot.0),
            r.1.0 == set_value(cot.1.0, lsb(ma.0) && lsb(mb.0)),
            final(self).left() == old(self).left().push(ma),
            final(self).right() == old(self).right().push(mb),
            final(self).out() == old(self).out().push(r.1),
            final(self).masks() == old(self).masks().push(r.0),
            final(self).transcript() == old(self).transcript(),
    {
        let w = ma.lsb() && mb.lsb();
        let d = w != cot.0;
        let mc = set_value_exec(cot.1, w);
        self.buf_left.push(ma);
        self.buf_right.push(mb);
        self.buf_out.push(mc);
        self.buf_hash.push(d);
        (d, mc)
    }

    /// Returns whether the window is full and a check is due.
    pub fn enable_check(&self) -> (r: bool)
        ensures
            r == (self.left().len() >= CHECK_BUFFER_SIZE),
    {
        self.buf_left.len() >= CHECK_BUFFER_SIZE
    }

    /// Returns whether AND gates await a check.
    pub fn enable_final_check(&self) -> (r: bool)
        ensures
            r == (self.left().len() > 0),
    {
        self.buf_left.len() > 0
    }

    /// Runs the AND-gate check over the window with the VOPE masks `(mask_u, mask_v)`.
    ///
    /// The window's masks are bound into the transcript, whose digest gives the
    /// challenge `χ`. Returns `U = ⊕ X_i Y_i χ^(i+1) ^ mask_u` and
    /// `V = ⊕ (A10_i ^ A11_i ^ Z_i) χ^(i+1) ^ mask_v`, binds them into the
    /// transcript too, and empties the window.
    pub fn check_and_gates(&mut self, vope: (Block, Block)) -> (r: (Block, Block))
        requires
            old(self).wf(),
        ensures
            final(self).wf(),
            final(self).left().len() == 0,
            exists|chi: u128| #![trigger is_challenge(chi, old(self).transcript() + pack_bits(old(self).masks()))] {
                let n = old(self).left().len();
                let t = old(self).transcript() + pack_bits(old(self).masks());
                &&& is_challenge(chi, t)
                &&& r.0.0 == inner_product(u_terms(old(self).left(), old(self).right()), chi_powers(chi, n), n) ^ vope.0.0
                &&& r.1.0 == inner_product(v_terms(old(self).left(), old(self).right(), old(self).out()), chi_powers(chi, n), n) ^ vope.1.0
                &&& final(self).transcript() == t + le_bytes(r.0.0) + le_bytes(r.1.0)
            },
    {
        let bytes = bools_to_bytes(self.buf_hash.as_slice());
        append_bytes(&mut self.transcript, &bytes);
        let chi = challenge(&self.transcript);
        let n = self.buf_left.len();
        let chis = Block::powers(chi, n);
        assert(chis@ =~= chi_powers(chi.0, n as nat));
        let us = prover_u_terms(&self.buf_left, &self.buf_right);
        let vs = prover_v_terms(&self.buf_left, &self.buf_right, &self.buf_out);
        let u = Block::inner_product_reduced(&us, &chis).xor(vope.0);
        let v = Block::inner_product_reduced(&vs, &chis).xor(vope.1);
        push_block_bytes(&mut self.transcript, u);
        push_block_bytes(&mut self.transcript, v);
        self.buf_left = Vec::new();
        self.buf_right = Vec::new();
        self.buf_out = Vec::new();
        self.buf_hash = Vec::new();
        assert(is_challenge(chi.0, old(self).transcript() + pack_bits(old(self).masks())));
        (u, v)
    }

    /// Returns the BLAKE3 digest of the output MACs' encodings.
    pub fn finish(&self, output_macs: &Vec<Block>) -> (r: [u8; 32])
        ensures
            r@ == blake3_digest(blocks_bytes(output_macs@)),
    {
        let bytes = encode_blocks(output_macs);
        hash(bytes.as_slice())
    }
}

impl Default for Prover {
    fn default() -> (r: Prover)
        ensures
            r.wf(),
            r.left().len() == 0,
            r.transcript().len() == 0,
    {
        Prover::new()
    }
}

/// Returns `b` with its pointer bit replaced by `x`.
fn set_value_exec(b: Block, x: bool) -> (r: Block)
    ensures
        r.0 == set_value(b.0, x),
{
    Block((b.0 & MINUS_ONE) ^ (if x { 1u128 } else { 0u128 }))
}

fn prover_u_terms(x: &Vec<Block>, y: &Vec<Block>) -> (r: Vec<Block>)
    requires
        x@.len() == y@.len(),
    ensures
        r@ == u_terms(x@, y@),
{
    let mut r: Vec<Block> = Vec::with_capacity(x.len());
    let mut i: usize = 0;
    while i < x.len()
        invariant
            i <= x@.len(),
            x@.len() == y@.len(),
            r@ == u_terms(x@, y@).subrange(0, i as int),
        decreases x@.len() - i,
    {
        r.push(x[i].gfmul(y[i]));
        assert(r@ =~= u_terms(x@, y@).subrange(0, i + 1));
        i = i + 1;
    }
    assert(u_terms(x@, y@).subrange(0, i as int) =~= u_terms(x@, y@));
    r
}

fn prover_v_terms(x: &Vec<Block>, y: &Vec<Block>, z: &Vec<Block>) -> (r: Vec<Block>)
    requires
        x@.len() == y@.len(),
        x@.len() == z@.len(),
    ensures
        r@ == v_terms(x@, y@, z@),
{
    let mut r: Vec<Block> = Vec::with_capacity(x.len());
    let mut i: usize = 0;
    while i < x.len()
        invariant
            i <= x@.len(),
            x@.len() == y@.len(),
            x@.len() == z@.len(),
            r@ == v_terms(x@, y@, z@).subrange(0, i as int),
        decreases x@.len() - i,
    {
        let a = x[i];
        let b = y[i];
        let a10: u128 = if a.lsb() { b.0 } else { 0 };
        let a11: u128 = if b.lsb() { a.0 } else { 0 };
        r.push(Block(a10 ^ a11 ^ z[i].0));
        assert(r@ =~= v_terms(x@, y@, z@).subrange(0, i + 1));
        i = i + 1;
    }
    assert(v_terms(x@, y@, z@).subrange(0, i as int) =~= v_terms(x@, y@, z@));
    r
}

fn verifier_w_terms(x: &Vec<Block>, y: &Vec<Block>, z: &Vec<Block>, delta: Block) -> (r: Vec<Block>)
    requires
        x@.len() == y@.len(),
        x@.len() == z@.len(),
    ensures
        r@ == w_terms(x@, y@, z@, delta.0),
{
    let mut r: Vec<Block> = Vec::with_capacity(x.len());
    let mut i: usize = 0;
    while i < x.len()
        invariant
            i <= x@.len(),
            x@.len() == y@.len(),
            x@.len() == z@.len(),
            r@ == w_terms(x@, y@, z@, delta.0).subrange(0, i as int),
        decreases x@.len() - i,
    {
        r.push(x[i].gfmul(y[i]).xor(delta.gfmul(z[i])));
        assert(r@ =~= w_terms(x@, y@, z@, delta.0).subrange(0, i + 1));
        i = i + 1;
    }
    assert(w_terms(x@, y@, z@, delta.0).subrange(0, i as int) =~= w_terms(x@, y@, z@, delta.0));
    r
}

/// The QuickSilver verifier: it holds `Δ` and the keys of the wire values.
#[derive(Debug)]
pub struct Verifier {
    delta: Delta,
    buf_left: Vec<Block>,
    buf_right: Vec<Block>,
    buf_out: Vec<Block>,
    buf_hash: Vec<bool>,
    transcript: Vec<u8>,
    checked: bool,
}

impl Verifier {
    /// `Δ`.
    pub closed spec fn spec_delta(&self) -> Delta {
        self.delta
    }

    /// Left input keys of the AND gates of the current window.
    pub closed spec fn left(&self) -> Seq<Block> {
        self.buf_left@
    }

    /// Right input keys of the AND gates of the current window.
    pub closed spec fn right(&self) -> Seq<Block> {
        self.buf_right@
    }

    /// Output keys of the AND gates of the current window.
    pub closed spec fn out(&self) -> Seq<Block> {
        self.buf_out@
    }

    /// Masks received for the AND gates of the current window.
    pub closed spec fn masks(&self) -> Seq<bool> {
        self.buf_hash@
    }

    /// Bytes bound into the transcript so far.
    pub closed spec fn transcript(&self) -> Seq<u8> {
        self.transcript@
    }

    /// Whether every check so far has passed.
    pub closed spec fn spec_checked(&self) -> bool {
        self.checked
    }

    /// The window's buffers have one entry per AND gate.
    pub open spec fn wf(&self) -> bool {
        &&& self.right().len() == self.left().len()
        &&& self.out().len() == self.left().len()
        &&& self.masks().len() == self.left().len()
    }

    /// Creates a verifier with correlation `delta` and an empty transcript.
    pub fn new(delta: Delta) -> (r: Verifier)
        ensures
            r.wf(),
            r.spec_delta() == delta,
            r.left().len() == 0,
            r.transcript().len() == 0,
            r.spec_checked(),
    {
        Verifier {
            delta,
            buf_left: Vec::new(),
            buf_right: Vec::new(),
            buf_out: Vec::new(),
            buf_hash: Vec::new(),
            transcript: Vec::new(),
            checked: true,
        }
    }

    /// Authenticates the input bits from the prover's masks `d_i` and the random
    /// correlation keys `K_i`: returns `K_i ^ (d_i * Δ)` with the pointer bit cleared.
    pub fn auth_input_bits(&mut self, masks: &[bool], cot: RCOTSenderOutput) -> (r: Result<Vec<Block>, QsVerifierError>)
        requires
            old(self).wf(),
        ensures
            final(self).wf(),
            final(self).spec_delta() == old(self).spec_delta(),
            final(self).left() == old(self).left(),
            final(self).right() == old(self).right(),
            final(self).out() == old(self).out(),
            final(self).masks() == old(self).masks(),
            final(self).spec_checked() == old(self).spec_checked(),
            r.is_ok() == (masks@.len() == cot.msgs@.len()),
            match r {
                Ok(keys) => {
                    &&& keys@.len() == masks@.len()
                    &&& forall|i: int| 0 <= i < masks@.len() ==> (#[trigger] keys@[i]).0 == set_zero(
                        if masks@[i] { cot.msgs@[i].0 ^ old(self).spec_delta().value() } else { cot.msgs@[i].0 },
                    )
                    &&& final(self).transcript() == old(self).transcript() + pack_bits(masks@)
                },
                Err(_) => final(self).transcript() == old(self).transcript(),
            },
    {
        if masks.len() != cot.msgs.len() {
            return Err(QsVerifierError::InvalidInputs);
        }
        let bytes = bools_to_bytes(masks);
        append_bytes(&mut self.transcript, &bytes);
        let d = self.delta.as_block();
        let mut keys: Vec<Block> = Vec::with_capacity(masks.len());
        let mut i: usize = 0;
        while i < masks.len()
            invariant
                i <= masks@.len(),
                masks@.len() == cot.msgs@.len(),
                d.0 == self.delta.value(),
                self.delta == old(self).delta,
                keys@.len() == i,
                forall|j: int| 0 <= j < i ==> (#[trigger] keys@[j]).0 == set_zero(
                    if masks@[j] { cot.msgs@[j].0 ^ d.0 } else { cot.msgs@[j].0 },
                ),
            decreases masks@.len() - i,
        {
            let k = if masks[i] { cot.msgs[i].xor(d) } else { cot.msgs[i] };
            keys.push(Block(k.0 & MINUS_ONE));
            i = i + 1;
        }
        Ok(keys)
    }

    /// Keys the output of an AND gate, which the check buffers keep. Given the input
    /// keys `ka`, `kb`, the prover's mask and the random correlation key `B`, returns
    /// `B ^ (mask * Δ)` with its pointer bit cleared.
    pub fn auth_and_gate(&mut self, ka: Block, kb: Block, mask: bool, cot: Block) -> (r: Block)
        requires
            old(self).wf(),
        ensures
            final(self).wf(),
            r.0 == set_zero(if mask { cot.0 ^ old(self).spec_delta().value() } else { cot.0 }),
            final(self).spec_delta() == old(self).spec_delta(),
            final(self).left() == old(self).left().push(ka),
            final(self).right() == old(self).right().push(kb),
            final(self).out() == old(self).out().push(r),
            final(self).masks() == old(self).masks().push(mask),
            final(self).transcript() == old(self).transcript(),
            final(self).spec_checked() == old(self).spec_checked(),
    {
        let d = self.delta.as_block();
        let b = if mask { cot.xor(d) } else { cot };
        let kc = Block(b.0 & MINUS_ONE);
        self.buf_left.push(ka);
        self.buf_right.push(kb);
        self.buf_out.push(kc);
        self.buf_hash.push(mask);
        kc
    }

    /// Returns whether the window is full and a check is due.
    pub fn enable_check(&self) -> (r: bool)
        ensures
            r == (self.left().len() >= CHECK_BUFFER_SIZE),
    {
        self.buf_left.len() >= CHECK_BUFFER_SIZE
    }

    /// Returns whether AND gates await a check.
    pub fn enable_final_check(&self) -> (r: bool)
        ensures
            r == (self.left().len() > 0),
    {
        self.buf_left.len() > 0
    }

    /// The check value `W = ⊕ (X_i Y_i ^ Δ Z_i) χ^(i+1) ^ mask_w` of the window.
    pub open spec fn spec_w(&self, chi: u128, mask_w: u128) -> u128 {
        let n = self.left().len();
        inner_product(w_terms(self.left(), self.right(), self.out(), self.spec_delta().value()), chi_powers(chi, n), n) ^ mask_w
    }

    /// Runs the AND-gate check over the window with the VOPE evaluation and the
    /// prover's `(U, V)`: the check passes iff `W = U ^ Δ * V`. A failed check
    /// leaves the verifier rejecting for good. Empties the window.
    pub fn check_and_gates(&mut self, vope: VOPESenderOutput, u: Block, v: Block)
        requires
            old(self).wf(),
        ensures
            final(self).wf(),
            final(self).left().len() == 0,
            final(self).spec_delta() == old(self).spec_delta(),
            exists|chi: u128| #![trigger is_challenge(chi, old(self).transcript() + pack_bits(old(self).masks()))] {
                let t = old(self).transcript() + pack_bits(old(self).masks());
                &&& is_challenge(chi, t)
                &&& final(self).spec_checked() == (old(self).spec_checked()
                    && old(self).spec_w(chi, vope.eval.0) == u.0 ^ gf_mul(old(self).spec_delta().value(), v.0))
                &&& final(self).transcript() == t + le_bytes(u.0) + le_bytes(v.0)
            },
    {
        let bytes = bools_to_bytes(self.buf_hash.as_slice());
        append_bytes(&mut self.transcript, &bytes);
        let chi = challenge(&self.transcript);
        let n = self.buf_left.len();
        let chis = Block::powers(chi, n);
        assert(chis@ =~= chi_powers(chi.0, n as nat));
        let d = self.delta.as_block();
        let ws = verifier_w_terms(&self.buf_left, &self.buf_right, &self.buf_out, d);
        let w = Block::inner_product_reduced(&ws, &chis).xor(vope.eval);
        let expected = u.xor(d.gfmul(v));
        self.checked = self.checked && w.0 == expected.0;
        push_block_bytes(&mut self.transcript, u);
        push_block_bytes(&mut self.transcript, v);
        self.buf_left = Vec::new();
        self.buf_right = Vec::new();
        self.buf_out = Vec::new();
        self.buf_hash = Vec::new();
        assert(is_challenge(chi.0, old(self).transcript() + pack_bits(old(self).masks())));
    }

    /// The MACs that the public outputs stand for: `K_i ^ (o_i * Δ)`.
    pub open spec fn expected_output_macs(&self, keys: Seq<Block>, outputs: Seq<bool>) -> Seq<Block> {
        Seq::new(keys.len(), |i: int| Block(if outputs[i] { keys[i].0 ^ self.spec_delta().value() } else { keys[i].0 }))
    }

    /// Checks the prover's digest of its output MACs against the output keys and
    /// the public outputs.
    pub fn finish(&mut self, hash_proof: [u8; 32], keys: &Vec<Block>, outputs: &Vec<bool>) -> (r: Result<(), QsVerifierError>)
        ensures
            r.is_ok() == (keys@.len() == outputs@.len()),
            final(self).spec_delta() == old(self).spec_delta(),
            final(self).left() == old(self).left(),
            final(self).right() == old(self).right(),
            final(self).out() == old(self).out(),
            final(self).masks() == old(self).masks(),
            final(self).transcript() == old(self).transcript(),
            r.is_ok() ==> final(self).spec_checked() == (old(self).spec_checked()
                && hash_proof@ == blake3_digest(blocks_bytes(old(self).expected_output_macs(keys@, outputs@)))),
            r.is_err() ==> final(self).spec_checked() == old(self).spec_checked(),
    {
        if keys.len() != outputs.len() {
            return Err(QsVerifierError::InvalidInputs);
        }
        let d = self.delta.as_block();
        let mut macs: Vec<Block> = Vec::with_capacity(keys.len());
        let mut i: usize = 0;
        while i < keys.len()
            invariant
                i <= keys@.len(),
                keys@.len() == outputs@.len(),
                d.0 == self.delta.value(),
                self.delta == old(self).delta,
                macs@ == old(self).expected_output_macs(keys@, outputs@).subrange(0, i as int),
            decreases keys@.len() - i,
        {
            macs.push(if outputs[i] { keys[i].xor(d) } else { keys[i] });
            assert(macs@ =~= old(self).expected_output_macs(keys@, outputs@).subrange(0, i + 1));
            i = i + 1;
        }
        assert(old(self).expected_output_macs(keys@, outputs@).subrange(0, i as int) =~= old(self).expected_output_macs(keys@, outputs@));
        let bytes = encode_blocks(&macs);
        let digest = hash(bytes.as_slice());
        let same = crate::correlated::bytes_eq32(&digest, &hash_proof);
        self.checked = self.checked && same;
        Ok(())
    }

    /// Returns whether every check so far has passed.
    pub fn checked(&self) -> (r: bool)
        ensures
            r == self.spec_checked(),
    {
        self.checked
    }

    /// Returns `Δ`.
    pub fn delta(&self) -> (r: Delta)
        ensures
            r == self.spec_delta(),
    {
        self.delta
    }
}

/// One honest AND gate balances: with MACs `X`, `Y` on `x`, `y` and `Z` on `x & y`
/// under keys whose pointer bits are zero, `X Y ^ Δ (A10 ^ A11 ^ Z) == Kx Ky ^ Δ Kz`.
#[verifier::spinoff_prover]
pub proof fn lemma_and_triple(kx: u128, ky: u128, kz: u128, x: bool, y: bool, d: u128)
    requires
        lsb(d),
        !lsb(kx),
        !lsb(ky),
    ensures
        ({
            let mx = mac_of(kx, x, d);
            let my = mac_of(ky, y, d);
            let mz = mac_of(kz, x && y, d);
            gf_mul(mx, my) ^ gf_mul(d, (if lsb(mx) { my } else { 0u128 }) ^ (if lsb(my) { mx } else { 0u128 }) ^ mz)
                == gf_mul(kx, ky) ^ gf_mul(d, kz)
        }),
{
    crate::correlated::lemma_authenticate_pointer_bit(kx, x, d);
    crate::correlated::lemma_authenticate_pointer_bit(ky, y, d);
    let a = gf_mul(kx, ky);
    let p = gf_mul(d, ky);
    let q = gf_mul(d, kx);
    let r = gf_mul(d, kz);
    let dd = gf_mul(d, d);
    lemma_gf_mul_comm(kx, d);
    lemma_gf_mul_comm(ky, d);
    if !x && !y {
        assert((0u128 ^ 0u128) ^ kz == kz) by (bit_vector);
    } else if x && !y {
        lemma_gf_mul_distrib_left(kx, d, ky);
        lemma_gf_mul_distrib_right(d, ky, kz);
        assert(ky ^ 0u128 ^ kz == ky ^ kz) by (bit_vector);
        assert((a ^ p) ^ (p ^ r) == a ^ r) by (bit_vector);
    } else if !x && y {
        lemma_gf_mul_distrib_right(kx, ky, d);
        lemma_gf_mul_distrib_right(d, kx, kz);
        assert(0u128 ^ kx ^ kz == kx ^ kz) by (bit_vector);
        assert((a ^ q) ^ (q ^ r) == a ^ r) by (bit_vector);
    } else {
        lemma_gf_mul_distrib_left(kx, d, ky ^ d);
        lemma_gf_mul_distrib_right(kx, ky, d);
        lemma_gf_mul_distrib_right(d, ky, d);
        assert((ky ^ d) ^ (kx ^ d) ^ (kz ^ d) == (ky ^ kx) ^ (kz ^ d)) by (bit_vector);
        lemma_gf_mul_distrib_right(d, ky ^ kx, kz ^ d);
        lemma_gf_mul_distrib_right(d, ky, kx);
        lemma_gf_mul_distrib_right(d, kz, d);
        assert(((a ^ q) ^ (p ^ dd)) ^ ((p ^ q) ^ (r ^ dd)) == a ^ r) by (bit_vector);
    }
}

/// The honest window sums balance: `⊕ w_i χ_i == ⊕ u_i χ_i ^ Δ ⊕ v_i χ_i` over the
/// first `m` gates.
#[verifier::spinoff_prover]
proof fn lemma_window_sums(
    mx: Seq<Block>, my: Seq<Block>, mz: Seq<Block>,
    kx: Seq<Block>, ky: Seq<Block>, kz: Seq<Block>,
    vx: Seq<bool>, vy: Seq<bool>, d: u128, c: Seq<Block>, m: nat,
)
    requires
        lsb(d),
        m <= mx.len(),
        my.len() == mx.len() && mz.len() == mx.len() && kx.len() == mx.len() && ky.len() == mx.len() && kz.len() == mx.len(),
        vx.len() == mx.len() && vy.len() == mx.len() && c.len() == mx.len(),
        forall|i: int| 0 <= i < mx.len() ==> (#[trigger] mx[i]).0 == mac_of(kx[i].0, vx[i], d) && !lsb(kx[i].0),
        forall|i: int| 0 <= i < mx.len() ==> (#[trigger] my[i]).0 == mac_of(ky[i].0, vy[i], d) && !lsb(ky[i].0),
        forall|i: int| 0 <= i < mx.len() ==> (#[trigger] mz[i]).0 == mac_of(kz[i].0, vx[i] && vy[i], d),
    ensures
        inner_product(w_terms(kx, ky, kz, d), c, m)
            == inner_product(u_terms(mx, my), c, m) ^ gf_mul(d, inner_product(v_terms(mx, my, mz), c, m)),
    decreases m,
{
    if m == 0 {
        lemma_mul_zero(d);
        assert(0u128 ^ 0u128 == 0u128) by (bit_vector);
    } else {
        let k = (m - 1) as nat;
        lemma_window_sums(mx, my, mz, kx, ky, kz, vx, vy, d, c, k);
        let i = k as int;
        assert(mx[i].0 == mac_of(kx[i].0, vx[i], d) && !lsb(kx[i].0));
        assert(my[i].0 == mac_of(ky[i].0, vy[i], d) && !lsb(ky[i].0));
        assert(mz[i].0 == mac_of(kz[i].0, vx[i] && vy[i], d));
        lemma_and_triple(kx[i].0, ky[i].0, kz[i].0, vx[i], vy[i], d);
        let u = u_terms(mx, my)[i].0;
        let v = v_terms(mx, my, mz)[i].0;
        let w = w_terms(kx, ky, kz, d)[i].0;
        let ci = c[i].0;
        assert(w == u ^ gf_mul(d, v));
        lemma_gf_mul_distrib_left(u, gf_mul(d, v), ci);
        lemma_gf_mul_assoc(d, v, ci);
        let su = inner_product(u_terms(mx, my), c, k);
        let sv = inner_product(v_terms(mx, my, mz), c, k);
        lemma_gf_mul_distrib_right(d, sv, gf_mul(v, ci));
        let e1 = gf_mul(u, ci);
        let e2 = gf_mul(d, gf_mul(v, ci));
        let e3 = gf_mul(d, sv);
        assert((su ^ e3) ^ (e1 ^ e2) == (su ^ e1) ^ (e3 ^ e2)) by (bit_vector);
    }
}

/// Completeness of the AND-gate check: when the prover's window holds MACs of
/// honest AND gates under the verifier's keys (keys with pointer bit zero), both
/// use the same challenge, and the masks come from a degree-one VOPE
/// (`mask_w = mask_u ^ Δ * mask_v`), the verifier's `W` equals `U ^ Δ * V`.
#[verifier::spinoff_prover]
pub proof fn lemma_check_complete(
    mx: Seq<Block>, my: Seq<Block>, mz: Seq<Block>,
    kx: Seq<Block>, ky: Seq<Block>, kz: Seq<Block>,
    vx: Seq<bool>, vy: Seq<bool>, d: u128, chi: u128,
    mask_u: u128, mask_v: u128, mask_w: u128,
)
    requires
        lsb(d),
        my.len() == mx.len() && mz.len() == mx.len() && kx.len() == mx.len() && ky.len() == mx.len() && kz.len() == mx.len(),
        vx.len() == mx.len() && vy.len() == mx.len(),
        forall|i: int| 0 <= i < mx.len() ==> (#[trigger] mx[i]).0 == mac_of(kx[i].0, vx[i], d) && !lsb(kx[i].0),
        forall|i: int| 0 <= i < mx.len() ==> (#[trigger] my[i]).0 == mac_of(ky[i].0, vy[i], d) && !lsb(ky[i].0),
        forall|i: int| 0 <= i < mx.len() ==> (#[trigger] mz[i]).0 == mac_of(kz[i].0, vx[i] && vy[i], d),
        mask_w == mask_u ^ gf_mul(d, mask_v),
    ensures
        ({
            let n = mx.len();
            let c = chi_powers(chi, n);
            let big_u = inner_product(u_terms(mx, my), c, n) ^ mask_u;
            let big_v = inner_product(v_terms(mx, my, mz), c, n) ^ mask_v;
            inner_product(w_terms(kx, ky, kz, d), c, n) ^ mask_w == big_u ^ gf_mul(d, big_v)
        }),
{
    let n = mx.len();
    let c = chi_powers(chi, n);
    lemma_window_sums(mx, my, mz, kx, ky, kz, vx, vy, d, c, n);
    let su = inner_product(u_terms(mx, my), c, n);
    let sv = inner_product(v_terms(mx, my, mz), c, n);
    lemma_gf_mul_distrib_right(d, sv, mask_v);
    let a = gf_mul(d, sv);
    let b = gf_mul(d, mask_v);
    assert((su ^ a) ^ (mask_u ^ b) == (su ^ mask_u) ^ (a ^ b)) by (bit_vector);
}

/// Equal transcripts give equal challenges: the prover and the verifier draw the
/// same `χ` when they have bound the same bytes.
pub proof fn lemma_challenge_unique(a: u128, b: u128, transcript: Seq<u8>)
    requires
        is_challenge(a, transcript),
        is_challenge(b, transcript),
    ensures
        a == b,
{
    crate::gc::lemma_le_bytes_injective(a, b);
}

} // verus!
