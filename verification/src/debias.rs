//! Von Neumann whitening: of every two samples drawn, the first is kept when
//! the two differ, and both are dropped when they agree.

use crate::chunks::{
    full_chunks,
    lemma_chunks_cover,
    lemma_chunks_ignore_remainder,
    lemma_chunks_push,
    lemma_chunks_short,
    remainder,
    whole_chunks,
    ChunkError,
    Chunks,
};
use vstd::prelude::*;

verus! {

/// What a pair of samples contributes: its first sample when the two differ,
/// nothing when they agree.
pub open spec fn von_neumann(b1: bool, b2: bool) -> Option<bool> {
    if b1 != b2 {
        Some(b1)
    } else {
        None
    }
}

/// [`von_neumann`] of a chunk of two samples.
pub open spec fn pair_bit(pair: Seq<bool>) -> Option<bool> {
    von_neumann(pair[0], pair[1])
}

/// The whitened stream: the first samples of the differing pairs of `bits`, in
/// arrival order. A last sample without a partner contributes nothing.
pub open spec fn debiased(bits: Seq<bool>) -> Seq<bool> {
    full_chunks(bits, 2).filter_map(|pair: Seq<bool>| pair_bit(pair))
}

/// Turns a chunk of two items into a pair, first item first. A shorter chunk is
/// the unfinished end of a stream and gives nothing; a longer one is refused.
pub fn vec_to_pair<T>(vec: Vec<T>) -> (pair: Result<Option<(T, T)>, ChunkError>)
    ensures
        vec@.len() == 2 ==> pair == Ok::<Option<(T, T)>, ChunkError>(Some((vec@[0], vec@[1]))),
        vec@.len() < 2 ==> pair == Ok::<Option<(T, T)>, ChunkError>(None),
        vec@.len() > 2 ==> pair == Err::<Option<(T, T)>, ChunkError>(ChunkError::OversizedPair),
{
    let mut vec = vec;
    if vec.len() > 2 {
        Err(ChunkError::OversizedPair)
    } else if vec.len() < 2 {
        Ok(None)
    } else {
        let x = vec.pop().unwrap();
        let y = vec.pop().unwrap();
        Ok(Some((y, x)))
    }
}

/// Von Neumann's rule on one pair: `(false, true)` gives `false`,
/// `(true, false)` gives `true`, and an agreeing pair gives nothing.
pub fn von_neumann_debias(pair: (bool, bool)) -> (bit: Option<bool>)
    ensures
        bit == von_neumann(pair.0, pair.1),
{
    let (b1, b2) = pair;
    if b1 != b2 {
        Some(b1)
    } else {
        None
    }
}

/// A stream of fewer than two samples is all remainder and whitens to nothing.
pub proof fn lemma_debiased_short(bits: Seq<bool>)
    requires
        bits.len() < 2,
    ensures
        debiased(bits) == Seq::<bool>::empty(),
        remainder(bits, 2) == bits,
{
    lemma_chunks_short(bits, 2);
}

/// One more sample either waits as the first of a new pair, or settles the
/// pair that was waiting: then that pair's first sample is appended to the
/// whitened stream if the two differ, and nothing is if they agree.
pub proof fn lemma_debiased_push(bits: Seq<bool>, bit: bool)
    ensures
        remainder(bits, 2).len() < 2,
        remainder(bits, 2).len() == 0 ==> remainder(bits.push(bit), 2) == seq![bit] && debiased(
            bits.push(bit),
        ) == debiased(bits),
        remainder(bits, 2).len() == 1 ==> remainder(bits.push(bit), 2) == Seq::<bool>::empty()
            && debiased(bits.push(bit)) == match von_neumann(remainder(bits, 2)[0], bit) {
            Some(first) => debiased(bits).push(first),
            None => debiased(bits),
        },
{
    lemma_chunks_cover(bits, 2);
    lemma_chunks_push(bits, 2, bit);
    let waiting = remainder(bits, 2);
    if waiting.len() == 1 {
        let pairs = full_chunks(bits, 2);
        let pair = waiting.push(bit);
        assert(pairs.push(pair).drop_last() =~= pairs);
        match von_neumann(waiting[0], bit) {
            Some(first) => {
                assert(debiased(bits) + seq![first] =~= debiased(bits).push(first));
            },
            None => {},
        }
    } else {
        assert(waiting.push(bit) =~= seq![bit]);
    }
}

/// Whether the two samples of pair `k` of `bits` differ. Pair `k` is made of
/// the samples `2 * k` and `2 * k + 1`.
pub open spec fn pair_differs(bits: Seq<bool>, k: int) -> bool {
    bits[2 * k] != bits[2 * k + 1]
}

/// Whether `picks` lists the pairs of `bits` whose two samples differ: each
/// of them, none other, and in rising order.
pub open spec fn lists_differing_pairs(bits: Seq<bool>, picks: Seq<int>) -> bool {
    &&& forall|j: int|
        0 <= j < picks.len() ==> 0 <= #[trigger] picks[j] < bits.len() / 2 && pair_differs(
            bits,
            picks[j],
        )
    &&& forall|i: int, j: int| 0 <= i < j < picks.len() ==> #[trigger] picks[i] < #[trigger] picks[j]
    &&& forall|k: int|
        0 <= k < bits.len() / 2 && #[trigger] pair_differs(bits, k) ==> picks.contains(k)
}

/// The whitened stream holds one bit for each pair whose samples differ, and
/// that bit is the pair's first sample; the bits stand in the order of their
/// pairs. The pairs are handed back.
pub proof fn lemma_debiased_picks_differing_pairs(bits: Seq<bool>) -> (picks: Seq<int>)
    ensures
        lists_differing_pairs(bits, picks),
        debiased(bits).len() == picks.len(),
        forall|j: int| 0 <= j < picks.len() ==> #[trigger] debiased(bits)[j] == bits[2 * picks[j]],
    decreases bits.len(),
{
    if bits.len() < 2 {
        lemma_debiased_short(bits);
        Seq::empty()
    } else {
        let front = bits.drop_last();
        let bit = bits.last();
        let before = lemma_debiased_picks_differing_pairs(front);
        assert(front.push(bit) =~= bits);
        lemma_debiased_push(front, bit);
        lemma_chunks_cover(front, 2);
        let last_pair = bits.len() / 2 - 1;
        let picks = if front.len() % 2 == 1 && front.last() != bit {
            before.push(last_pair)
        } else {
            before
        };
        assert forall|k: int| 0 <= k < front.len() / 2 implies pair_differs(bits, k)
            == #[trigger] pair_differs(front, k) by {}
        assert forall|j: int| 0 <= j < picks.len() implies 0 <= #[trigger] picks[j] < bits.len()
            / 2 && pair_differs(bits, picks[j]) by {
            if j < before.len() {
                assert(pair_differs(front, before[j]));
            }
        }
        assert forall|k: int|
            0 <= k < bits.len() / 2 && #[trigger] pair_differs(bits, k) implies picks.contains(
            k,
        ) by {
            if k < front.len() / 2 {
                assert(pair_differs(front, k));
                let j = choose|j: int| 0 <= j < before.len() && before[j] == k;
                assert(picks[j] == k);
            } else {
                assert(picks[before.len() as int] == k);
            }
        }
        picks
    }
}

/// Where the two samples of every pair agree, whitening leaves nothing.
pub proof fn lemma_agreeing_pairs_debias_to_nothing(bits: Seq<bool>)
    requires
        forall|k: int| 0 <= k < bits.len() / 2 ==> !#[trigger] pair_differs(bits, k),
    ensures
        debiased(bits) == Seq::<bool>::empty(),
{
    let picks = lemma_debiased_picks_differing_pairs(bits);
    if picks.len() > 0 {
        assert(pair_differs(bits, picks[0]));
    }
    assert(debiased(bits) =~= Seq::<bool>::empty());
}

/// Where the two samples of every pair differ, whitening keeps the first
/// sample of every pair: half the samples, as for a source that alternates.
pub proof fn lemma_differing_pairs_debias_to_firsts(bits: Seq<bool>)
    requires
        forall|k: int| 0 <= k < bits.len() / 2 ==> #[trigger] pair_differs(bits, k),
    ensures
        debiased(bits) == Seq::new(bits.len() / 2, |k: int| bits[2 * k]),
    decreases bits.len(),
{
    let firsts = Seq::new(bits.len() / 2, |k: int| bits[2 * k]);
    if bits.len() < 2 {
        lemma_debiased_short(bits);
        assert(debiased(bits) =~= firsts);
    } else {
        let front = bits.drop_last();
        let bit = bits.last();
        assert forall|k: int| 0 <= k < front.len() / 2 implies #[trigger] pair_differs(
            front,
            k,
        ) by {
            assert(pair_differs(bits, k));
        }
        lemma_differing_pairs_debias_to_firsts(front);
        assert(front.push(bit) =~= bits);
        lemma_debiased_push(front, bit);
        lemma_chunks_cover(front, 2);
        if front.len() % 2 == 1 {
            assert(pair_differs(bits, bits.len() / 2 - 1));
        }
        assert(debiased(bits) =~= firsts);
    }
}

/// A last sample without a partner adds no bit, and changes none.
pub proof fn lemma_debiased_ignores_single_sample(bits: Seq<bool>)
    ensures
        debiased(bits) == debiased(whole_chunks(bits, 2)),
{
    lemma_chunks_ignore_remainder(bits, 2);
}

/// The first stage of the pipeline. It holds at most one sample, the first of
/// a pair whose second has not arrived yet.
pub struct Debiaser {
    pairs: Chunks<bool, 2>,
}

impl Debiaser {
    /// The sample that waits for its partner, if there is one.
    pub closed spec fn pending(&self) -> Seq<bool> {
        self.pairs.pending()
    }

    /// What is pending is always short of a full chunk.
    pub proof fn lemma_pending_is_partial(&self)
        ensures
            self.pending().len() < 2,
    {
        self.pairs.lemma_pending_is_partial();
    }

    /// A debiaser that has seen no sample.
    pub fn new() -> (debiaser: Self)
        ensures
            debiaser.pending() == Seq::<bool>::empty(),
    {
        Debiaser { pairs: Chunks::new() }
    }

    /// Takes one sample. The first sample of a pair waits and nothing comes
    /// out; the second settles the pair by [`von_neumann`] and nothing waits.
    pub fn push(&mut self, bit: bool) -> (out: Option<bool>)
        ensures
            old(self).pending().len() == 0 ==> final(self).pending() == seq![bit] && out.is_none(),
            old(self).pending().len() == 1 ==> final(self).pending() == Seq::<bool>::empty() && out
                == von_neumann(old(self).pending()[0], bit),
    {
        proof {
            self.lemma_pending_is_partial();
        }
        match self.pairs.push(bit) {
            Some(chunk) => match vec_to_pair(chunk) {
                Ok(Some(pair)) => von_neumann_debias(pair),
                _ => None,
            },
            None => {
                assert(old(self).pending().push(bit) =~= seq![bit]);
                None
            },
        }
    }
}

/// Whitens a finite stream of samples.
pub fn debias(randomness_stream: &Vec<bool>) -> (whitened: Vec<bool>)
    ensures
        whitened@ == debiased(randomness_stream@),
{
    let mut debiaser = Debiaser::new();
    let mut whitened: Vec<bool> = Vec::new();
    let mut drawn: usize = 0;
    proof {
        lemma_debiased_short(randomness_stream@.take(0));
    }
    while drawn < randomness_stream.len()
        invariant
            drawn <= randomness_stream.len(),
            whitened@ == debiased(randomness_stream@.take(drawn as int)),
            debiaser.pending() == remainder(randomness_stream@.take(drawn as int), 2),
        decreases randomness_stream.len() - drawn,
    {
        let bit = randomness_stream[drawn];
        proof {
            let seen = randomness_stream@.take(drawn as int);
            assert(randomness_stream@.take(drawn + 1) =~= seen.push(bit));
            lemma_debiased_push(seen, bit);
        }
        match debiaser.push(bit) {
            Some(first) => {
                whitened.push(first);
            },
            None => {},
        }
        drawn += 1;
    }
    proof {
        assert(randomness_stream@.take(drawn as int) =~= randomness_stream@);
    }
    whitened
}

} // verus!
