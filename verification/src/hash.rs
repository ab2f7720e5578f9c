//! Diffusing blocks of 32 bytes through SHA3-256.

use crate::chunks::{
    chunk_at,
    full_chunks,
    lemma_chunks_cover,
    lemma_chunks_ignore_remainder,
    lemma_chunks_push,
    lemma_chunks_short,
    remainder,
    whole_chunks,
    ChunkError,
    Chunks,
};
use vstd::prelude::*;

verus! {

/// The SHA3-256 digest of `data`, as `tiny_keccak` computes it.
pub uninterp spec fn sha3_256(data: Seq<u8>) -> Seq<u8>;

/// Calls `tiny_keccak::sha3_256`, which absorbs `data` into a fresh SHA3-256
/// sponge and squeezes 32 bytes out of it. The digest depends on the bytes of
/// `data` alone; nothing is proved of it here, it is taken to be [`sha3_256`]
/// of them.
#[verifier::external_body]
fn keccak_sha3_256(data: &[u8]) -> (digest: [u8; 32])
    ensures
        digest@ == sha3_256(data@),
{
    tiny_keccak::sha3_256(data)
}

/// The digests of the full blocks of `bytes`, in arrival order. Bytes after
/// the last full block contribute nothing.
pub open spec fn digests(bytes: Seq<u8>) -> Seq<Seq<u8>> {
    full_chunks(bytes, 32).map_values(|block: Seq<u8>| sha3_256(block))
}

/// The bytes of a digest as a vector, in order.
pub fn digest_to_vec(digest: &[u8; 32]) -> (bytes: Vec<u8>)
    ensures
        bytes@ == digest@,
{
    let mut bytes: Vec<u8> = Vec::with_capacity(32);
    let mut copied: usize = 0;
    while copied < 32
        invariant
            copied <= 32,
            bytes@ == digest@.take(copied as int),
        decreases 32 - copied,
    {
        bytes.push(digest[copied]);
        proof {
            assert(digest@.take(copied + 1) =~= digest@.take(copied as int).push(
                digest@[copied as int],
            ));
        }
        copied += 1;
    }
    proof {
        assert(digest@.take(32) =~= digest@);
    }
    bytes
}

/// Hashes a block of 32 bytes with SHA3-256. A shorter block is the unfinished
/// end of a stream and gives nothing: it is never filled up. A longer one is
/// refused.
pub fn sha3(input: Vec<u8>) -> (digest: Result<Option<Vec<u8>>, ChunkError>)
    ensures
        input@.len() == 32 ==> (digest matches Ok(Some(bytes)) && bytes@ == sha3_256(input@)
            && bytes@.len() == 32),
        input@.len() < 32 ==> digest == Ok::<Option<Vec<u8>>, ChunkError>(None),
        input@.len() > 32 ==> digest == Err::<Option<Vec<u8>>, ChunkError>(
            ChunkError::OversizedBlock,
        ),
{
    if input.len() > 32 {
        return Err(ChunkError::OversizedBlock);
    }
    if input.len() < 32 {
        return Ok(None);
    }
    let res = keccak_sha3_256(input.as_slice());
    Ok(Some(digest_to_vec(&res)))
}

/// A stream of fewer than 32 bytes is all remainder and has no digest.
pub proof fn lemma_digests_short(bytes: Seq<u8>)
    requires
        bytes.len() < 32,
    ensures
        digests(bytes) == Seq::<Seq<u8>>::empty(),
        remainder(bytes, 32) == bytes,
{
    lemma_chunks_short(bytes, 32);
    assert(digests(bytes) =~= Seq::<Seq<u8>>::empty());
}

/// One more byte either joins the unfinished block, or is its 32nd: then the
/// digest of that block is appended to the stream of digests and no byte is
/// left.
pub proof fn lemma_digests_push(bytes: Seq<u8>, byte: u8)
    ensures
        remainder(bytes, 32).len() < 32,
        remainder(bytes, 32).len() < 31 ==> remainder(bytes.push(byte), 32) == remainder(
            bytes,
            32,
        ).push(byte) && digests(bytes.push(byte)) == digests(bytes),
        remainder(bytes, 32).len() == 31 ==> remainder(bytes.push(byte), 32) == Seq::<u8>::empty()
            && digests(bytes.push(byte)) == digests(bytes).push(
            sha3_256(remainder(bytes, 32).push(byte)),
        ),
{
    lemma_chunks_cover(bytes, 32);
    lemma_chunks_push(bytes, 32, byte);
    if remainder(bytes, 32).len() == 31 {
        assert(digests(bytes.push(byte)) =~= digests(bytes).push(
            sha3_256(remainder(bytes, 32).push(byte)),
        ));
    }
}

/// There is one digest for each full block, and it is made of that block's
/// bytes alone, whatever came before or comes after.
pub proof fn lemma_digests_is_blockwise(bytes: Seq<u8>)
    ensures
        digests(bytes).len() == bytes.len() / 32,
        forall|index: int|
            0 <= index < bytes.len() / 32 ==> #[trigger] digests(bytes)[index] == sha3_256(
                chunk_at(bytes, 32, index),
            ),
{
}

/// The same block has the same digest, in whatever stream and at whatever
/// place in it the block stands.
pub proof fn lemma_same_block_same_digest(
    bytes: Seq<u8>,
    index: int,
    others: Seq<u8>,
    other_index: int,
)
    requires
        0 <= index < bytes.len() / 32,
        0 <= other_index < others.len() / 32,
        chunk_at(bytes, 32, index) == chunk_at(others, 32, other_index),
    ensures
        digests(bytes)[index] == digests(others)[other_index],
{
}

/// Bytes after the last full block add no digest, and change none.
pub proof fn lemma_digests_ignores_partial_block(bytes: Seq<u8>)
    ensures
        digests(bytes) == digests(whole_chunks(bytes, 32)),
{
    lemma_chunks_ignore_remainder(bytes, 32);
}

/// What a vector of digests holds: the bytes of each, in order.
pub open spec fn digest_views(digests: Seq<Vec<u8>>) -> Seq<Seq<u8>> {
    digests.map_values(|digest: Vec<u8>| digest@)
}

/// The third stage of the pipeline. It holds the bytes of the block that is
/// being gathered, at most 31, and nothing of the blocks before it.
pub struct BlockHasher {
    blocks: Chunks<u8, 32>,
}

impl BlockHasher {
    /// The bytes gathered for the next block, oldest first.
    pub closed spec fn pending(&self) -> Seq<u8> {
        self.blocks.pending()
    }

    /// What is pending is always short of a full chunk.
    pub proof fn lemma_pending_is_partial(&self)
        ensures
            self.pending().len() < 32,
    {
        self.blocks.lemma_pending_is_partial();
    }

    /// A hasher that has seen no byte.
    pub fn new() -> (hasher: Self)
        ensures
            hasher.pending() == Seq::<u8>::empty(),
    {
        BlockHasher { blocks: Chunks::new() }
    }

    /// Takes one byte. The 32nd byte of a block completes it: its digest comes
    /// out and nothing stays behind. Any other byte waits with those before
    /// it.
    pub fn push(&mut self, byte: u8) -> (out: Option<Vec<u8>>)
        ensures
            old(self).pending().len() < 31 ==> final(self).pending() == old(self).pending().push(
                byte,
            ) && out.is_none(),
            old(self).pending().len() == 31 ==> final(self).pending() == Seq::<u8>::empty() && (
            out matches Some(digest) && digest@ == sha3_256(old(self).pending().push(byte))
                && digest@.len() == 32),
    {
        proof {
            self.lemma_pending_is_partial();
        }
        match self.blocks.push(byte) {
            Some(block) => match sha3(block) {
                Ok(digest) => digest,
                Err(_) => None,
            },
            None => None,
        }
    }
}

/// Hashes a finite stream of bytes block by block.
pub fn hash(bytes: &Vec<u8>) -> (out: Vec<Vec<u8>>)
    ensures
        digest_views(out@) == digests(bytes@),
        forall|index: int| 0 <= index < out@.len() ==> (#[trigger] out@[index])@.len() == 32,
{
    let mut hasher = BlockHasher::new();
    let mut out: Vec<Vec<u8>> = Vec::new();
    let mut drawn: usize = 0;
    proof {
        lemma_digests_short(bytes@.take(0));
        assert(digest_views(out@) =~= Seq::<Seq<u8>>::empty());
    }
    while drawn < bytes.len()
        invariant
            drawn <= bytes.len(),
            digest_views(out@) == digests(bytes@.take(drawn as int)),
            forall|index: int| 0 <= index < out@.len() ==> (#[trigger] out@[index])@.len() == 32,
            hasher.pending() == remainder(bytes@.take(drawn as int), 32),
        decreases bytes.len() - drawn,
    {
        let byte = bytes[drawn];
        proof {
            let seen = bytes@.take(drawn as int);
            assert(bytes@.take(drawn + 1) =~= seen.push(byte));
            lemma_digests_push(seen, byte);
        }
        match hasher.push(byte) {
            Some(digest) => {
                proof {
                    assert(digest_views(out@.push(digest)) =~= digest_views(out@).push(digest@));
                }
                out.push(digest);
            },
            None => {},
        }
        drawn += 1;
    }
    proof {
        assert(bytes@.take(drawn as int) =~= bytes@);
    }
    out
}

} // verus!
