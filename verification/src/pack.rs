//! Packing whitened bits into bytes, eight at a time, most significant bit
//! first.

use crate::chunks::{
    chunk_at,
    full_chunks,
    lemma_chunks_cover,
    lemma_chunks_ignore_remainder,
    lemma_chunks_push,
    lemma_chunks_short,
    remainder,
    whole_chunks,
    ChunkError,
    Chunks,
};
use vstd::arithmetic::power2::{lemma2_to64, lemma_pow2_unfold, pow2};
use vstd::prelude::*;

verus! {

/// The number that a bit stands for.
pub open spec fn bit_value(bit: bool) -> nat {
    if bit {
        1
    } else {
        0
    }
}

/// The number that `bits` spell when read as binary digits, the first being
/// the most significant.
pub open spec fn big_endian(bits: Seq<bool>) -> nat
    decreases bits.len(),
{
    if bits.len() == 0 {
        0
    } else {
        2 * big_endian(bits.drop_last()) + bit_value(bits.last())
    }
}

/// The value of an octet: each of its eight bits with its weight, from 128 for
/// the first down to 1 for the last.
pub open spec fn octet_value(octet: Seq<bool>) -> nat {
    128 * bit_value(octet[0]) + 64 * bit_value(octet[1]) + 32 * bit_value(octet[2]) + 16
        * bit_value(octet[3]) + 8 * bit_value(octet[4]) + 4 * bit_value(octet[5]) + 2 * bit_value(
        octet[6],
    ) + bit_value(octet[7])
}

/// [`octet_value`] as a byte. It always fits.
pub open spec fn octet_byte(octet: Seq<bool>) -> u8 {
    octet_value(octet) as u8
}

/// The bytes of the full octets of `bits`, in arrival order. Bits after the
/// last full octet contribute nothing.
pub open spec fn packed(bits: Seq<bool>) -> Seq<u8> {
    full_chunks(bits, 8).map_values(|octet: Seq<bool>| octet_byte(octet))
}

/// Binary digits spell a number below two to the power of their count.
pub proof fn lemma_big_endian_bound(bits: Seq<bool>)
    ensures
        big_endian(bits) < pow2(bits.len()),
    decreases bits.len(),
{
    if bits.len() == 0 {
        lemma2_to64();
    } else {
        lemma_big_endian_bound(bits.drop_last());
        lemma_pow2_unfold(bits.len());
    }
}

/// The weighted sum of an octet is its big-endian reading, and fits a byte.
pub proof fn lemma_octet_value_is_big_endian(octet: Seq<bool>)
    requires
        octet.len() == 8,
    ensures
        octet_value(octet) == big_endian(octet),
        octet_value(octet) <= 255,
        octet_byte(octet) == octet_value(octet),
{
    let b7 = octet.take(7);
    let b6 = octet.take(6);
    let b5 = octet.take(5);
    let b4 = octet.take(4);
    let b3 = octet.take(3);
    let b2 = octet.take(2);
    let b1 = octet.take(1);
    let b0 = octet.take(0);
    assert(octet.drop_last() =~= b7);
    assert(b7.drop_last() =~= b6);
    assert(b6.drop_last() =~= b5);
    assert(b5.drop_last() =~= b4);
    assert(b4.drop_last() =~= b3);
    assert(b3.drop_last() =~= b2);
    assert(b2.drop_last() =~= b1);
    assert(b1.drop_last() =~= b0);
    assert(big_endian(b0) == 0);
    assert(big_endian(b1) == 2 * big_endian(b0) + bit_value(octet[0]));
    assert(big_endian(b2) == 2 * big_endian(b1) + bit_value(octet[1]));
    assert(big_endian(b3) == 2 * big_endian(b2) + bit_value(octet[2]));
    assert(big_endian(b4) == 2 * big_endian(b3) + bit_value(octet[3]));
    assert(big_endian(b5) == 2 * big_endian(b4) + bit_value(octet[4]));
    assert(big_endian(b6) == 2 * big_endian(b5) + bit_value(octet[5]));
    assert(big_endian(b7) == 2 * big_endian(b6) + bit_value(octet[6]));
    assert(big_endian(octet) == 2 * big_endian(b7) + bit_value(octet[7]));
}

/// Packs a chunk of eight bits into a byte, first bit most significant. A
/// shorter chunk is the unfinished end of a stream and gives nothing: it is
/// never filled up with zeros. A longer one is refused.
pub fn octet_to_byte(bool_octet: Vec<bool>) -> (byte: Result<Option<u8>, ChunkError>)
    ensures
        bool_octet@.len() == 8 ==> byte == Ok::<Option<u8>, ChunkError>(
            Some(octet_byte(bool_octet@)),
        ) && octet_byte(bool_octet@) == octet_value(bool_octet@),
        bool_octet@.len() < 8 ==> byte == Ok::<Option<u8>, ChunkError>(None),
        bool_octet@.len() > 8 ==> byte == Err::<Option<u8>, ChunkError>(
            ChunkError::OversizedOctet,
        ),
{
    if bool_octet.len() > 8 {
        return Err(ChunkError::OversizedOctet);
    }
    if bool_octet.len() < 8 {
        return Ok(None);
    }
    let mut byte: u8 = 0;
    let mut taken: usize = 0;
    while taken < 8
        invariant
            taken <= 8,
            bool_octet@.len() == 8,
            byte == big_endian(bool_octet@.take(taken as int)),
        decreases 8 - taken,
    {
        proof {
            let seen = bool_octet@.take(taken as int);
            lemma_big_endian_bound(seen);
            lemma2_to64();
            assert(byte < 128);
            assert(byte << 1 == 2 * byte) by (bit_vector)
                requires
                    byte < 128,
            ;
            assert(bool_octet@.take(taken + 1).drop_last() =~= seen);
        }
        byte <<= 1;
        if bool_octet[taken] {
            byte += 1;
        }
        taken += 1;
    }
    proof {
        assert(bool_octet@.take(8) =~= bool_octet@);
        lemma_octet_value_is_big_endian(bool_octet@);
    }
    Ok(Some(byte))
}

/// A stream of fewer than eight bits is all remainder and packs to nothing.
pub proof fn lemma_packed_short(bits: Seq<bool>)
    requires
        bits.len() < 8,
    ensures
        packed(bits) == Seq::<u8>::empty(),
        remainder(bits, 8) == bits,
{
    lemma_chunks_short(bits, 8);
    assert(packed(bits) =~= Seq::<u8>::empty());
}

/// One more bit either joins the unfinished octet, or is its eighth: then the
/// byte of that octet is appended to the packed stream and no bit is left.
pub proof fn lemma_packed_push(bits: Seq<bool>, bit: bool)
    ensures
        remainder(bits, 8).len() < 8,
        remainder(bits, 8).len() < 7 ==> remainder(bits.push(bit), 8) == remainder(bits, 8).push(
            bit,
        ) && packed(bits.push(bit)) == packed(bits),
        remainder(bits, 8).len() == 7 ==> remainder(bits.push(bit), 8) == Seq::<bool>::empty()
            && packed(bits.push(bit)) == packed(bits).push(
            octet_byte(remainder(bits, 8).push(bit)),
        ),
{
    lemma_chunks_cover(bits, 8);
    lemma_chunks_push(bits, 8, bit);
    if remainder(bits, 8).len() == 7 {
        assert(packed(bits.push(bit)) =~= packed(bits).push(
            octet_byte(remainder(bits, 8).push(bit)),
        ));
    }
}

/// There is one byte for each full octet, and it is made of that octet's
/// bits alone, whatever came before or comes after.
pub proof fn lemma_packed_is_octetwise(bits: Seq<bool>)
    ensures
        packed(bits).len() == bits.len() / 8,
        forall|index: int|
            0 <= index < bits.len() / 8 ==> #[trigger] packed(bits)[index] == octet_byte(
                chunk_at(bits, 8, index),
            ),
{
}

/// Bits after the last full octet add no byte, and change none.
pub proof fn lemma_packed_ignores_partial_octet(bits: Seq<bool>)
    ensures
        packed(bits) == packed(whole_chunks(bits, 8)),
{
    lemma_chunks_ignore_remainder(bits, 8);
}

/// The second stage of the pipeline. It holds the bits of the octet that is
/// being gathered, at most seven, and nothing of the octets before it.
pub struct BitPacker {
    octets: Chunks<bool, 8>,
}

impl BitPacker {
    /// The bits gathered for the next byte, oldest first.
    pub closed spec fn pending(&self) -> Seq<bool> {
        self.octets.pending()
    }

    /// What is pending is always short of a full chunk.
    pub proof fn lemma_pending_is_partial(&self)
        ensures
            self.pending().len() < 8,
    {
        self.octets.lemma_pending_is_partial();
    }

    /// A packer that has seen no bit.
    pub fn new() -> (packer: Self)
        ensures
            packer.pending() == Seq::<bool>::empty(),
    {
        BitPacker { octets: Chunks::new() }
    }

    /// Takes one bit. The eighth bit of an octet completes a byte, which comes
    /// out, and nothing stays behind; any other bit waits with those before it.
    pub fn push(&mut self, bit: bool) -> (out: Option<u8>)
        ensures
            old(self).pending().len() < 7 ==> final(self).pending() == old(self).pending().push(bit)
                && out.is_none(),
            old(self).pending().len() == 7 ==> final(self).pending() == Seq::<bool>::empty() && out
                == Some(octet_byte(old(self).pending().push(bit))),
    {
        proof {
            self.lemma_pending_is_partial();
        }
        match self.octets.push(bit) {
            Some(octet) => match octet_to_byte(octet) {
                Ok(byte) => byte,
                Err(_) => None,
            },
            None => None,
        }
    }
}

/// Packs a finite stream of bits into bytes.
pub fn pack(bits: &Vec<bool>) -> (bytes: Vec<u8>)
    ensures
        bytes@ == packed(bits@),
{
    let mut packer = BitPacker::new();
    let mut bytes: Vec<u8> = Vec::new();
    let mut drawn: usize = 0;
    proof {
        lemma_packed_short(bits@.take(0));
    }
    while drawn < bits.len()
        invariant
            drawn <= bits.len(),
            bytes@ == packed(bits@.take(drawn as int)),
            packer.pending() == remainder(bits@.take(drawn as int), 8),
        decreases bits.len() - drawn,
    {
        let bit = bits[drawn];
        proof {
            let seen = bits@.take(drawn as int);
            assert(bits@.take(drawn + 1) =~= seen.push(bit));
            lemma_packed_push(seen, bit);
        }
        match packer.push(bit) {
            Some(byte) => {
                bytes.push(byte);
            },
            None => {},
        }
        drawn += 1;
    }
    proof {
        assert(bits@.take(drawn as int) =~= bits@);
    }
    bytes
}

} // verus!
