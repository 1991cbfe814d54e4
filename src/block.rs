//! 128-bit blocks and arithmetic in `GF(2^128)`.
use vstd::prelude::*;

verus! {

/// A 128-bit value. Bit `i` of the integer is the coefficient of `x^i` when the
/// block is read as an element of `GF(2^128)`, and byte `i` of its canonical
/// encoding holds bits `8i..8i+8` (little-endian).
#[derive(Clone, Copy, Debug, PartialEq, Eq, Hash, Default, Structural)]
pub struct Block(pub u128);

/// All bits set but the least significant one.
pub const MINUS_ONE: u128 = 0xffff_ffff_ffff_ffff_ffff_ffff_ffff_fffe;

/// Whether bit `i` of `v` is set.
pub open spec fn bit(v: u128, i: nat) -> bool {
    (v >> (i as u128)) & 1u128 == 1u128
}

/// Multiplication by `x` modulo `x^128 + x^7 + x^2 + x + 1`.
pub open spec fn xtime(a: u128) -> u128 {
    if a >> 127u128 == 1u128 {
        (a << 1u128) ^ 0x87u128
    } else {
        a << 1u128
    }
}

/// `a * x^i` in `GF(2^128)`.
pub open spec fn mul_x_pow(a: u128, i: nat) -> u128
    decreases i,
{
    if i == 0 {
        a
    } else {
        xtime(mul_x_pow(a, (i - 1) as nat))
    }
}

/// The product of `a` with the polynomial made of the lowest `n` coefficients of `b`.
pub open spec fn gf_mul_upto(a: u128, b: u128, n: nat) -> u128
    decreases n,
{
    if n == 0 {
        0
    } else {
        let prev = gf_mul_upto(a, b, (n - 1) as nat);
        if bit(b, (n - 1) as nat) {
            prev ^ mul_x_pow(a, (n - 1) as nat)
        } else {
            prev
        }
    }
}

/// Product in `GF(2^128)` modulo `x^128 + x^7 + x^2 + x + 1`.
pub open spec fn gf_mul(a: u128, b: u128) -> u128 {
    gf_mul_upto(a, b, 128)
}

/// `a^k` in `GF(2^128)`, with `a^0 = 1`.
pub open spec fn gf_pow(a: u128, k: nat) -> u128
    decreases k,
{
    if k == 0 {
        1
    } else {
        gf_mul(gf_pow(a, (k - 1) as nat), a)
    }
}

/// `⊕_{i < n} a_i * b_i` over the first `n` entries.
pub open spec fn inner_product(a: Seq<Block>, b: Seq<Block>, n: nat) -> u128
    decreases n,
{
    if n == 0 {
        0
    } else {
        inner_product(a, b, (n - 1) as nat) ^ gf_mul(a[n - 1].0, b[n - 1].0)
    }
}

/// Byte `i` of the little-endian encoding of `v`.
pub open spec fn byte_of(v: u128, i: int) -> u8 {
    ((v >> ((8 * i) as u128)) & 0xffu128) as u8
}

/// The canonical 16-byte little-endian encoding of `v`.
pub open spec fn le_bytes(v: u128) -> Seq<u8> {
    Seq::new(16, |i: int| byte_of(v, i))
}

fn xtime_exec(a: u128) -> (r: u128)
    ensures
        r == xtime(a),
{
    if a >> 127u128 == 1u128 {
        (a << 1u128) ^ 0x87u128
    } else {
        a << 1u128
    }
}

impl Block {
    /// The zero block.
    pub fn zero() -> (r: Block)
        ensures
            r.0 == 0,
    {
        Block(0)
    }

    /// The block with only its least significant bit set.
    pub fn one() -> (r: Block)
        ensures
            r.0 == 1,
    {
        Block(1)
    }

    /// All bits set but the least significant one.
    pub fn minus_one() -> (r: Block)
        ensures
            r.0 == MINUS_ONE,
    {
        Block(MINUS_ONE)
    }

    /// The pointer bit of the block.
    pub open spec fn lsb_spec(self) -> bool {
        self.0 & 1u128 == 1u128
    }

    /// Creates a block from its integer value.
    pub fn new(value: u128) -> (r: Block)
        ensures
            r.0 == value,
    {
        Block(value)
    }

    /// Returns the pointer bit (the least significant bit).
    pub fn lsb(&self) -> (r: bool)
        ensures
            r == self.lsb_spec(),
    {
        self.0 & 1 == 1
    }

    /// Sets the pointer bit to `b`, leaving the other bits unchanged.
    pub fn set_lsb(&mut self, b: bool)
        ensures
            final(self).0 == if b { old(self).0 | 1u128 } else { old(self).0 & !1u128 },
            final(self).lsb_spec() == b,
            final(self).0 >> 1u128 == old(self).0 >> 1u128,
    {
        let v = self.0;
        if b {
            self.0 = v | 1;
            assert((v | 1u128) & 1u128 == 1u128 && (v | 1u128) >> 1u128 == v >> 1u128) by (bit_vector);
        } else {
            self.0 = v & !1u128;
            assert((v & !1u128) & 1u128 == 0u128 && (v & !1u128) >> 1u128 == v >> 1u128) by (bit_vector);
        }
    }

    /// Flips the pointer bit when `b` is set.
    pub fn xor_lsb(&mut self, b: bool)
        ensures
            final(self).0 == old(self).0 ^ (if b { 1u128 } else { 0u128 }),
            final(self).lsb_spec() == (old(self).lsb_spec() != b),
            final(self).0 >> 1u128 == old(self).0 >> 1u128,
    {
        let v = self.0;
        if b {
            self.0 = v ^ 1;
            assert(((v ^ 1u128) & 1u128 == 1u128) == !(v & 1u128 == 1u128)) by (bit_vector);
            assert((v ^ 1u128) >> 1u128 == v >> 1u128) by (bit_vector);
        } else {
            assert(v ^ 0u128 == v) by (bit_vector);
        }
    }

    /// Bitwise exclusive or.
    pub fn xor(self, other: Block) -> (r: Block)
        ensures
            r.0 == self.0 ^ other.0,
    {
        Block(self.0 ^ other.0)
    }

    /// Bitwise and.
    pub fn and(self, other: Block) -> (r: Block)
        ensures
            r.0 == self.0 & other.0,
    {
        Block(self.0 & other.0)
    }

    /// Product in `GF(2^128)` modulo `x^128 + x^7 + x^2 + x + 1`.
    pub fn gfmul(self, other: Block) -> (r: Block)
        ensures
            r.0 == gf_mul(self.0, other.0),
    {
        let a = self.0;
        let b = other.0;
        let mut acc: u128 = 0;
        let mut p: u128 = a;
        let mut i: u128 = 0;
        while i < 128
            invariant
                i <= 128,
                acc == gf_mul_upto(a, b, i as nat),
                p == mul_x_pow(a, i as nat),
            decreases 128 - i,
        {
            if (b >> i) & 1 == 1 {
                acc = acc ^ p;
            }
            p = xtime_exec(p);
            i = i + 1;
        }
        Block(acc)
    }

    /// Returns `[x, x^2, ..., x^n]`, each power the previous one times `x`.
    pub fn powers(x: Block, n: usize) -> (r: Vec<Block>)
        ensures
            r@.len() == n,
            forall|i: int| 0 <= i < n ==> (#[trigger] r@[i]).0 == gf_pow(x.0, (i + 1) as nat),
    {
        let mut r: Vec<Block> = Vec::with_capacity(n);
        let mut cur = Block(1);
        let mut i: usize = 0;
        while i < n
            invariant
                i <= n,
                r@.len() == i,
                cur.0 == gf_pow(x.0, i as nat),
                forall|j: int| 0 <= j < i ==> (#[trigger] r@[j]).0 == gf_pow(x.0, (j + 1) as nat),
            decreases n - i,
        {
            cur = cur.gfmul(x);
            r.push(cur);
            i = i + 1;
        }
        r
    }

    /// Returns `⊕_i a_i * b_i`.
    pub fn inner_product_reduced(a: &Vec<Block>, b: &Vec<Block>) -> (r: Block)
        requires
            a@.len() == b@.len(),
        ensures
            r.0 == inner_product(a@, b@, a@.len()),
    {
        let mut acc: u128 = 0;
        let mut i: usize = 0;
        while i < a.len()
            invariant
                i <= a@.len(),
                a@.len() == b@.len(),
                acc == inner_product(a@, b@, i as nat),
            decreases a@.len() - i,
        {
            acc = acc ^ a[i].gfmul(b[i]).0;
            i = i + 1;
        }
        Block(acc)
    }

    /// Returns the canonical 16-byte little-endian encoding.
    pub fn to_bytes(&self) -> (r: [u8; 16])
        ensures
            r@ == le_bytes(self.0),
    {
        let v = self.0;
        let mut r: [u8; 16] = [0u8; 16];
        let mut i: usize = 0;
        while i < 16
            invariant
                i <= 16,
                r@.len() == 16,
                forall|j: int| 0 <= j < i ==> r@[j] == byte_of(v, j),
            decreases 16 - i,
        {
            let sh: u128 = 8 * (i as u128);
            r[i] = ((v >> sh) & 0xff) as u8;
            i = i + 1;
        }
        assert(r@ =~= le_bytes(v));
        r
    }

    /// Reads a block from its canonical 16-byte little-endian encoding.
    pub fn from_bytes(b: [u8; 16]) -> (r: Block)
        ensures
            le_bytes(r.0) == b@,
    {
        let mut v: u128 = 0;
        let mut i: usize = 0;
        assert(0u128 >> 0u128 == 0u128) by (bit_vector);
        while i < 16
            invariant
                i <= 16,
                b@.len() == 16,
                i < 16 ==> v >> ((8 * i) as u128) == 0,
                forall|j: int| 0 <= j < i ==> byte_of(v, j) == b@[j],
            decreases 16 - i,
        {
            let x: u8 = b[i];
            let sh: u128 = 8 * (i as u128);
            let nv: u128 = v | ((x as u128) << sh);
            assert forall|j: int| 0 <= j < i + 1 implies byte_of(nv, j) == b@[j] by {
                let sj: u128 = (8 * j) as u128;
                let xx: u128 = x as u128;
                if j < i {
                    assert(sj + 8 <= sh && sh <= 120u128);
                    assert(v >> sh == 0u128 && xx < 256u128 && sj + 8u128 <= sh && sh <= 120u128 ==> ((v | (xx << sh)) >> sj) & 0xffu128 == (v >> sj) & 0xffu128) by (bit_vector);
                    assert(byte_of(v, j) == b@[j]);
                    assert(byte_of(nv, j) == byte_of(v, j));
                } else {
                    assert(sj == sh && sh <= 120u128);
                    assert(v >> sh == 0u128 && xx < 256u128 && sh <= 120u128 ==> ((v | (xx << sh)) >> sh) & 0xffu128 == xx) by (bit_vector);
                    assert(byte_of(nv, j) == x);
                }
            }
            if i < 15 {
                let xx: u128 = x as u128;
                assert(v >> sh == 0u128 && xx < 256u128 && sh <= 112u128 ==> (v | (xx << sh)) >> (sh + 8u128) == 0u128) by (bit_vector);
            }
            v = nv;
            i = i + 1;
        }
        assert(le_bytes(v) =~= b@);
        Block(v)
    }
}

} // verus!
