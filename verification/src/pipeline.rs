//! The three stages in a row: samples go in one at a time, and a digest
//! comes out whenever a block of 32 bytes has been gathered and hashed.

use crate::chunks::{lemma_chunks_cover, remainder};
use crate::debias::{
    debias,
    debiased,
    lemma_agreeing_pairs_debias_to_nothing,
    lemma_debiased_push,
    lemma_debiased_short,
    pair_differs,
    von_neumann,
    Debiaser,
};
use crate::hash::{
    digest_views,
    digests,
    hash,
    lemma_digests_push,
    lemma_digests_short,
    sha3_256,
    BlockHasher,
};
use crate::pack::{lemma_packed_push, lemma_packed_short, octet_byte, pack, packed, BitPacker};
use vstd::prelude::*;

verus! {

/// The digests that a finite stream of samples gives: it is whitened, the
/// whitened bits are packed into bytes, and the bytes are hashed block by
/// block. What does not fill a pair, an octet or a block gives nothing.
pub open spec fn entropy(bits: Seq<bool>) -> Seq<Seq<u8>> {
    digests(packed(debiased(bits)))
}

/// What a pipeline remembers between two samples: the unfinished pair, octet
/// and block. Nothing else of the past has any bearing on what comes out.
pub struct PipelineState {
    pub pair: Seq<bool>,
    pub octet: Seq<bool>,
    pub block: Seq<u8>,
}

impl PipelineState {
    /// The state before the first sample.
    pub open spec fn fresh() -> PipelineState {
        PipelineState { pair: Seq::empty(), octet: Seq::empty(), block: Seq::empty() }
    }

    /// Every unfinished unit is short of being full.
    pub open spec fn partial(self) -> bool {
        self.pair.len() < 2 && self.octet.len() < 8 && self.block.len() < 32
    }
}

/// One sample through the pipeline: the state afterwards, and the digest that
/// the sample completed, if it completed one. A sample goes no further than
/// the first stage that it leaves unfinished.
pub open spec fn step(state: PipelineState, bit: bool) -> (PipelineState, Option<Seq<u8>>) {
    if state.pair.len() == 0 {
        (PipelineState { pair: seq![bit], ..state }, None)
    } else {
        match von_neumann(state.pair[0], bit) {
            None => (PipelineState { pair: Seq::empty(), ..state }, None),
            Some(first) => if state.octet.len() < 7 {
                (
                    PipelineState { pair: Seq::empty(), octet: state.octet.push(first), ..state },
                    None,
                )
            } else {
                let byte = octet_byte(state.octet.push(first));
                if state.block.len() < 31 {
                    (
                        PipelineState {
                            pair: Seq::empty(),
                            octet: Seq::empty(),
                            block: state.block.push(byte),
                        },
                        None,
                    )
                } else {
                    (PipelineState::fresh(), Some(sha3_256(state.block.push(byte))))
                }
            },
        }
    }
}

/// Many samples through the pipeline, one [`step`] each: the state after the
/// last, and the digests completed on the way, in order.
pub open spec fn run(state: PipelineState, bits: Seq<bool>) -> (PipelineState, Seq<Seq<u8>>)
    decreases bits.len(),
{
    if bits.len() == 0 {
        (state, Seq::empty())
    } else {
        let (before, emitted) = run(state, bits.drop_last());
        let (after, digest) = step(before, bits.last());
        match digest {
            Some(bytes) => (after, emitted.push(bytes)),
            None => (after, emitted),
        }
    }
}

/// What `state` leaves of a stream that continues with `bits`: the state and
/// the digests said stage by stage, without running any step. The samples
/// join the unfinished pair and are whitened; the whitened bits join the
/// unfinished octet and are packed; the bytes join the unfinished block and
/// are hashed.
pub open spec fn resumed(state: PipelineState, bits: Seq<bool>) -> (PipelineState, Seq<Seq<u8>>) {
    let samples = state.pair + bits;
    let whitened = state.octet + debiased(samples);
    let bytes = state.block + packed(whitened);
    (
        PipelineState {
            pair: remainder(samples, 2),
            octet: remainder(whitened, 8),
            block: remainder(bytes, 32),
        },
        digests(bytes),
    )
}

/// What [`resumed`] leaves unfinished is short of full.
proof fn lemma_resumed_is_partial(state: PipelineState, bits: Seq<bool>)
    ensures
        resumed(state, bits).0.partial(),
{
    let samples = state.pair + bits;
    let whitened = state.octet + debiased(samples);
    let bytes = state.block + packed(whitened);
    lemma_chunks_cover(samples, 2);
    lemma_chunks_cover(whitened, 8);
    lemma_chunks_cover(bytes, 32);
}

/// One more sample takes [`resumed`] where one [`step`] takes it.
proof fn lemma_resumed_push(state: PipelineState, front: Seq<bool>, bit: bool)
    ensures
        resumed(state, front.push(bit)).0 == step(resumed(state, front).0, bit).0,
        resumed(state, front.push(bit)).1 == match step(resumed(state, front).0, bit).1 {
            Some(digest) => resumed(state, front).1.push(digest),
            None => resumed(state, front).1,
        },
{
    let samples = state.pair + front;
    let whitened = state.octet + debiased(samples);
    let bytes = state.block + packed(whitened);
    lemma_resumed_is_partial(state, front);
    assert(state.pair + front.push(bit) =~= samples.push(bit));
    lemma_debiased_push(samples, bit);
    if remainder(samples, 2).len() == 1 {
        match von_neumann(remainder(samples, 2)[0], bit) {
            Some(first) => {
                assert(state.octet + debiased(samples).push(first) =~= whitened.push(first));
                lemma_packed_push(whitened, first);
                if remainder(whitened, 8).len() == 7 {
                    let byte = octet_byte(remainder(whitened, 8).push(first));
                    assert(state.block + packed(whitened).push(byte) =~= bytes.push(byte));
                    lemma_digests_push(bytes, byte);
                }
            },
            None => {},
        }
    }
}

/// Feeding a pipeline sample by sample gives what the stages give when each
/// works through the whole stream in turn: the same digests in the same
/// order, and the same unfinished units left over.
pub proof fn lemma_run_is_resumed(state: PipelineState, bits: Seq<bool>)
    requires
        state.partial(),
    ensures
        run(state, bits) == resumed(state, bits),
        run(state, bits).0.partial(),
    decreases bits.len(),
{
    lemma_resumed_is_partial(state, bits);
    if bits.len() == 0 {
        assert(state.pair + bits =~= state.pair);
        lemma_debiased_short(state.pair);
        assert(state.octet + debiased(state.pair) =~= state.octet);
        lemma_packed_short(state.octet);
        assert(state.block + packed(state.octet) =~= state.block);
        lemma_digests_short(state.block);
    } else {
        let front = bits.drop_last();
        lemma_run_is_resumed(state, front);
        lemma_resumed_push(state, front, bits.last());
        assert(front.push(bits.last()) =~= bits);
    }
}

/// From its first sample on, a pipeline fed one sample at a time hands out
/// exactly the [`entropy`] of what it was fed.
pub proof fn lemma_stream_is_batch(bits: Seq<bool>)
    ensures
        run(PipelineState::fresh(), bits).1 == entropy(bits),
{
    let fresh = PipelineState::fresh();
    lemma_run_is_resumed(fresh, bits);
    assert(fresh.pair + bits =~= bits);
    assert(fresh.octet + debiased(bits) =~= debiased(bits));
    assert(fresh.block + packed(debiased(bits)) =~= packed(debiased(bits)));
}

/// A source whose pairs all agree never yields a digest, however long it
/// runs: the pipeline waits for a differing pair that does not come.
pub proof fn lemma_agreeing_pairs_yield_no_digest(bits: Seq<bool>)
    requires
        forall|k: int| 0 <= k < bits.len() / 2 ==> !#[trigger] pair_differs(bits, k),
    ensures
        entropy(bits) == Seq::<Seq<u8>>::empty(),
        run(PipelineState::fresh(), bits).1 == Seq::<Seq<u8>>::empty(),
{
    lemma_agreeing_pairs_debias_to_nothing(bits);
    lemma_packed_short(debiased(bits));
    lemma_digests_short(packed(debiased(bits)));
    lemma_stream_is_batch(bits);
}

/// A source that hands out one value for ever never yields a digest.
pub proof fn lemma_constant_source_yields_no_digest(constant: bool, count: nat)
    ensures
        entropy(Seq::new(count, |index: int| constant)) == Seq::<Seq<u8>>::empty(),
        run(PipelineState::fresh(), Seq::new(count, |index: int| constant)).1 == Seq::<
            Seq<u8>,
        >::empty(),
{
    let bits = Seq::new(count, |index: int| constant);
    assert forall|k: int| 0 <= k < bits.len() / 2 implies !#[trigger] pair_differs(bits, k) by {}
    lemma_agreeing_pairs_yield_no_digest(bits);
}

/// The whole pipeline as one state machine.
pub struct Pipeline {
    debiaser: Debiaser,
    packer: BitPacker,
    hasher: BlockHasher,
}

impl View for Pipeline {
    type V = PipelineState;

    closed spec fn view(&self) -> PipelineState {
        PipelineState {
            pair: self.debiaser.pending(),
            octet: self.packer.pending(),
            block: self.hasher.pending(),
        }
    }
}

impl Pipeline {
    /// Whatever a pipeline has been fed, each of its unfinished units is short
    /// of being full.
    pub proof fn lemma_state_is_partial(&self)
        ensures
            self@.partial(),
    {
        self.debiaser.lemma_pending_is_partial();
        self.packer.lemma_pending_is_partial();
        self.hasher.lemma_pending_is_partial();
    }

    /// A pipeline that has seen no sample.
    pub fn new() -> (pipeline: Self)
        ensures
            pipeline@ == PipelineState::fresh(),
    {
        Pipeline { debiaser: Debiaser::new(), packer: BitPacker::new(), hasher: BlockHasher::new() }
    }

    /// Takes one sample and hands out the digest that it completed, if any,
    /// as [`step`] says.
    pub fn push(&mut self, bit: bool) -> (out: Option<Vec<u8>>)
        ensures
            final(self)@ == step(old(self)@, bit).0,
            match out {
                Some(digest) => step(old(self)@, bit).1 == Some(digest@) && digest@.len() == 32,
                None => step(old(self)@, bit).1.is_none(),
            },
    {
        proof {
            self.lemma_state_is_partial();
        }
        let whitened = self.debiaser.push(bit);
        let packed = match whitened {
            Some(first) => self.packer.push(first),
            None => None,
        };
        match packed {
            Some(byte) => self.hasher.push(byte),
            None => None,
        }
    }

    /// Takes a run of samples, one [`Pipeline::push`] each, and hands out the
    /// digests completed on the way, in order.
    pub fn feed(&mut self, bits: &Vec<bool>) -> (out: Vec<Vec<u8>>)
        ensures
            final(self)@ == run(old(self)@, bits@).0,
            digest_views(out@) == run(old(self)@, bits@).1,
            forall|index: int| 0 <= index < out@.len() ==> (#[trigger] out@[index])@.len() == 32,
    {
        let mut out: Vec<Vec<u8>> = Vec::new();
        let mut drawn: usize = 0;
        proof {
            assert(digest_views(out@) =~= Seq::<Seq<u8>>::empty());
        }
        while drawn < bits.len()
            invariant
                drawn <= bits.len(),
                self@ == run(old(self)@, bits@.take(drawn as int)).0,
                digest_views(out@) == run(old(self)@, bits@.take(drawn as int)).1,
                forall|index: int| 0 <= index < out@.len() ==> (#[trigger] out@[index])@.len() == 32,
            decreases bits.len() - drawn,
        {
            let bit = bits[drawn];
            proof {
                assert(bits@.take(drawn + 1).drop_last() =~= bits@.take(drawn as int));
            }
            match self.push(bit) {
                Some(digest) => {
                    proof {
                        assert(digest_views(out@.push(digest)) =~= digest_views(out@).push(
                            digest@,
                        ));
                    }
                    out.push(digest);
                },
                None => {},
            }
            drawn += 1;
        }
        proof {
            assert(bits@.take(drawn as int) =~= bits@);
        }
        out
    }
}

/// The digests of a finite source of samples: it is whitened, packed and
/// hashed. A source that is still to yield a full block's worth of whitened
/// bits gives no digest at all.
pub fn generate_entropy(randomness_source: &Vec<bool>) -> (out: Vec<Vec<u8>>)
    ensures
        digest_views(out@) == entropy(randomness_source@),
        forall|index: int| 0 <= index < out@.len() ==> (#[trigger] out@[index])@.len() == 32,
{
    let debiased_randomness_source = debias(randomness_source);
    let bytes = pack(&debiased_randomness_source);
    hash(&bytes)
}

} // verus!
