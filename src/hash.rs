//! BLAKE3 digests, and the byte encodings that get hashed.
use vstd::prelude::*;

use crate::block::{le_bytes, Block};

verus! {

/// The 32-byte BLAKE3 digest of `data`.
pub uninterp spec fn blake3_digest(data: Seq<u8>) -> Seq<u8>;

/// Relies on `blake3::hash`: the digest depends on the bytes alone.
#[verifier::external_body]
pub(crate) fn hash(data: &[u8]) -> (r: [u8; 32])
    ensures
        r@ == blake3_digest(data@),
{
    *blake3::hash(data).as_bytes()
}

/// The concatenated canonical encodings of `blocks`.
pub open spec fn blocks_bytes(blocks: Seq<Block>) -> Seq<u8>
    decreases blocks.len(),
{
    if blocks.len() == 0 {
        Seq::empty()
    } else {
        blocks_bytes(blocks.drop_last()) + le_bytes(blocks.last().0)
    }
}

/// Appends the canonical encoding of `b` to `out`.
pub fn push_block_bytes(out: &mut Vec<u8>, b: Block)
    ensures
        final(out)@ == old(out)@ + le_bytes(b.0),
{
    let bytes = b.to_bytes();
    let mut i: usize = 0;
    while i < 16
        invariant
            i <= 16,
            bytes@ == le_bytes(b.0),
            out@ == old(out)@ + bytes@.subrange(0, i as int),
        decreases 16 - i,
    {
        out.push(bytes[i]);
        assert(out@ =~= old(out)@ + bytes@.subrange(0, i + 1));
        i = i + 1;
    }
    assert(bytes@.subrange(0, 16) =~= bytes@);
}

/// Returns the concatenated canonical encodings of `blocks`.
pub fn encode_blocks(blocks: &Vec<Block>) -> (r: Vec<u8>)
    ensures
        r@ == blocks_bytes(blocks@),
{
    let mut out: Vec<u8> = Vec::new();
    let mut i: usize = 0;
    while i < blocks.len()
        invariant
            i <= blocks@.len(),
            out@ == blocks_bytes(blocks@.subrange(0, i as int)),
        decreases blocks@.len() - i,
    {
        push_block_bytes(&mut out, blocks[i]);
        assert(blocks@.subrange(0, i + 1).drop_last() =~= blocks@.subrange(0, i as int));
        i = i + 1;
    }
    assert(blocks@.subrange(0, blocks@.len() as int) =~= blocks@);
    out
}

} // verus!
