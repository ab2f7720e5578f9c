//! Gathering a stream of items into chunks of a fixed size.

use vstd::arithmetic::div_mod::{
    lemma_fundamental_div_mod,
    lemma_fundamental_div_mod_converse,
    lemma_mod_pos_bound,
};
use vstd::prelude::*;

verus! {

/// Why a stage refuses a chunk: it holds more items than the stage gathers,
/// which no well-behaved producer hands over.
#[derive(Debug, Clone, Copy, PartialEq, Eq, Structural)]
pub enum ChunkError {
    /// More than two samples where a pair was due.
    OversizedPair,
    /// More than eight bits where an octet was due.
    OversizedOctet,
    /// More than thirty-two bytes where a block was due.
    OversizedBlock,
}

/// The items of `items` that follow its last full chunk of `size`.
pub open spec fn remainder<T>(items: Seq<T>, size: nat) -> Seq<T>
    recommends
        size > 0,
{
    items.subrange((size * (items.len() / size)) as int, items.len() as int)
}

/// The `index`-th full chunk of `size` in `items`.
pub open spec fn chunk_at<T>(items: Seq<T>, size: nat, index: int) -> Seq<T>
    recommends
        size > 0,
        0 <= index < items.len() / size,
{
    items.subrange(size * index, size * index + size)
}

/// The full chunks of `size` in `items`, in order. What follows the last of
/// them is left out: see [`remainder`].
pub open spec fn full_chunks<T>(items: Seq<T>, size: nat) -> Seq<Seq<T>>
    recommends
        size > 0,
{
    Seq::new(items.len() / size, |index: int| chunk_at(items, size, index))
}

/// The items of `items` up to the end of its last full chunk.
pub open spec fn whole_chunks<T>(items: Seq<T>, size: nat) -> Seq<T>
    recommends
        size > 0,
{
    items.take((size * (items.len() / size)) as int)
}

/// A buffer that gathers items until `N` of them are there and then hands them
/// out together, in arrival order.
pub struct Chunks<T, const N: usize> {
    items: Vec<T>,
}

impl<T, const N: usize> Chunks<T, N> {
    #[verifier::type_invariant]
    spec fn inv(self) -> bool {
        self.items@.len() < N
    }

    /// The items gathered since the last full chunk, oldest first. They are
    /// fewer than `N` for every buffer that can be built; the definition says
    /// so for every value, so that no proof has to ask how a buffer came about.
    pub closed spec fn pending(&self) -> Seq<T> {
        if self.items@.len() < N {
            self.items@
        } else {
            Seq::empty()
        }
    }

    /// The pending items are always fewer than a full chunk.
    pub proof fn lemma_pending_is_partial(&self)
        requires
            N > 0,
        ensures
            self.pending().len() < N,
    {
    }

    /// An empty buffer.
    pub fn new() -> (chunks: Self)
        requires
            N > 0,
        ensures
            chunks.pending() == Seq::<T>::empty(),
    {
        Chunks { items: Vec::new() }
    }

    /// Takes one item. When it completes a chunk, the chunk is handed out and
    /// the buffer is empty again; otherwise the item waits with the others.
    pub fn push(&mut self, item: T) -> (full: Option<Vec<T>>)
        ensures
            old(self).pending().len() + 1 == N ==> final(self).pending() == Seq::<T>::empty()
                && full.is_some() && full.unwrap()@ == old(self).pending().push(item),
            old(self).pending().len() + 1 < N ==> final(self).pending() == old(
                self,
            ).pending().push(item) && full.is_none(),
    {
        proof {
            use_type_invariant(&*self);
        }
        let mut chunk: Vec<T> = Vec::new();
        std::mem::swap(&mut chunk, &mut self.items);
        chunk.push(item);
        if chunk.len() == N {
            Some(chunk)
        } else {
            std::mem::swap(&mut chunk, &mut self.items);
            None
        }
    }
}

/// How quotient and remainder of a length move when one item is added.
proof fn lemma_next_len(len: nat, size: nat)
    requires
        size > 0,
    ensures
        len % size < size,
        len == size * (len / size) + len % size,
        len % size + 1 < size ==> (len + 1) / size == len / size && (len + 1) % size == len % size
            + 1,
        len % size + 1 == size ==> (len + 1) / size == len / size + 1 && (len + 1) % size == 0,
{
    let n = len as int;
    let d = size as int;
    let q = n / d;
    let r = n % d;
    lemma_fundamental_div_mod(n, d);
    lemma_mod_pos_bound(n, d);
    if r + 1 < d {
        assert(n + 1 == q * d + (r + 1)) by (nonlinear_arith)
            requires
                n == d * q + r,
        ;
        lemma_fundamental_div_mod_converse(n + 1, d, q, r + 1);
    } else {
        assert(n + 1 == (q + 1) * d + 0) by (nonlinear_arith)
            requires
                n == d * q + r,
                r + 1 == d,
        ;
        lemma_fundamental_div_mod_converse(n + 1, d, q + 1, 0);
    }
}

/// The remainder is shorter than a chunk, and the full chunks and the remainder
/// together hold every item once, in order.
pub proof fn lemma_chunks_cover<T>(items: Seq<T>, size: nat)
    requires
        size > 0,
    ensures
        remainder(items, size).len() == items.len() % size,
        remainder(items, size).len() < size,
        full_chunks(items, size).len() == items.len() / size,
        forall|index: int|
            0 <= index < items.len() / size ==> (#[trigger] full_chunks(items, size)[index]).len()
                == size,
        forall|index: int, offset: int|
            0 <= index < items.len() / size && 0 <= offset < size ==> 0 <= size * index + offset
                < items.len() && #[trigger] full_chunks(items, size)[index][offset] == items[size
                * index + offset],
        forall|offset: int|
            0 <= offset < items.len() % size ==> 0 <= size * (items.len() / size) + offset
                < items.len() && #[trigger] remainder(items, size)[offset] == items[size * (
            items.len() / size) + offset],
{
    lemma_next_len(items.len(), size);
    let count = (items.len() / size) as int;
    let d = size as int;
    assert forall|index: int| 0 <= index < count implies 0 <= #[trigger] (d * index) && d * index
        + d <= items.len() by {
        assert(0 <= d * index && d * index + d <= d * count) by (nonlinear_arith)
            requires
                0 <= index < count,
                d > 0,
        ;
    }
}

/// One more item either completes a chunk, made of the old remainder and the
/// item, or joins the remainder.
pub proof fn lemma_chunks_push<T>(items: Seq<T>, size: nat, item: T)
    requires
        size > 0,
    ensures
        remainder(items, size).len() + 1 == size ==> full_chunks(items.push(item), size)
            == full_chunks(items, size).push(remainder(items, size).push(item)) && remainder(
            items.push(item),
            size,
        ) == Seq::<T>::empty(),
        remainder(items, size).len() + 1 != size ==> full_chunks(items.push(item), size)
            == full_chunks(items, size) && remainder(items.push(item), size) == remainder(
            items,
            size,
        ).push(item),
{
    let more = items.push(item);
    lemma_next_len(items.len(), size);
    lemma_chunks_cover(items, size);
    lemma_chunks_cover(more, size);
    let count = (items.len() / size) as int;
    let d = size as int;
    assert forall|index: int| 0 <= index < count implies #[trigger] full_chunks(more, size)[index]
        == full_chunks(items, size)[index] by {
        assert(0 <= d * index && d * index + d <= d * count) by (nonlinear_arith)
            requires
                0 <= index < count,
                d > 0,
        ;
        assert(full_chunks(more, size)[index] =~= full_chunks(items, size)[index]);
    }
    if remainder(items, size).len() + 1 == size {
        assert(full_chunks(more, size)[count] =~= remainder(items, size).push(item));
        assert(full_chunks(more, size) =~= full_chunks(items, size).push(
            remainder(items, size).push(item),
        ));
        assert(remainder(more, size) =~= Seq::<T>::empty());
    } else {
        assert(full_chunks(more, size) =~= full_chunks(items, size));
        assert(remainder(more, size) =~= remainder(items, size).push(item));
    }
}

/// Fewer items than a chunk holds make no full chunk: all of them remain.
pub proof fn lemma_chunks_short<T>(items: Seq<T>, size: nat)
    requires
        items.len() < size,
    ensures
        full_chunks(items, size) == Seq::<Seq<T>>::empty(),
        remainder(items, size) == items,
{
    lemma_fundamental_div_mod_converse(items.len() as int, size as int, 0, items.len() as int);
    assert(full_chunks(items, size) =~= Seq::<Seq<T>>::empty());
    assert(remainder(items, size) =~= items);
}

/// A stream may be cut anywhere: chunking what came before the cut, and then
/// the remainder followed by what came after it, gives the chunks of the whole.
/// Nothing but the remainder is carried across the cut.
pub proof fn lemma_chunks_resume<T>(head: Seq<T>, tail: Seq<T>, size: nat)
    requires
        size > 0,
    ensures
        full_chunks(head + tail, size) == full_chunks(head, size) + full_chunks(
            remainder(head, size) + tail,
            size,
        ),
        remainder(head + tail, size) == remainder(remainder(head, size) + tail, size),
    decreases tail.len(),
{
    let rest = remainder(head, size);
    lemma_chunks_cover(head, size);
    if tail.len() == 0 {
        assert(head + tail =~= head);
        assert(rest + tail =~= rest);
        lemma_chunks_short(rest, size);
        assert(full_chunks(head, size) + Seq::<Seq<T>>::empty() =~= full_chunks(head, size));
    } else {
        let front = tail.drop_last();
        let item = tail.last();
        lemma_chunks_resume(head, front, size);
        assert(head + tail =~= (head + front).push(item));
        assert(rest + tail =~= (rest + front).push(item));
        lemma_chunks_push(head + front, size, item);
        lemma_chunks_push(rest + front, size, item);
        let pending = remainder(head + front, size);
        if pending.len() + 1 == size {
            assert(full_chunks(head, size) + full_chunks(rest + front, size).push(
                pending.push(item),
            ) =~= (full_chunks(head, size) + full_chunks(rest + front, size)).push(
                pending.push(item),
            ));
        }
    }
}

/// The items after the last full chunk make no chunk of their own: without
/// them the full chunks are the same.
pub proof fn lemma_chunks_ignore_remainder<T>(items: Seq<T>, size: nat)
    requires
        size > 0,
    ensures
        whole_chunks(items, size) + remainder(items, size) == items,
        full_chunks(whole_chunks(items, size), size) == full_chunks(items, size),
        remainder(whole_chunks(items, size), size) == Seq::<T>::empty(),
{
    let whole = whole_chunks(items, size);
    let rest = remainder(items, size);
    let count = (items.len() / size) as int;
    lemma_next_len(items.len(), size);
    lemma_chunks_cover(items, size);
    assert(whole + rest =~= items);
    assert(whole.len() == count * size + 0) by (nonlinear_arith)
        requires
            whole.len() == size * count,
    ;
    lemma_fundamental_div_mod_converse(whole.len() as int, size as int, count, 0);
    lemma_chunks_cover(whole, size);
    assert(remainder(whole, size) =~= Seq::<T>::empty());
    lemma_chunks_resume(whole, rest, size);
    assert(remainder(whole, size) + rest =~= rest);
    lemma_chunks_short(rest, size);
    assert(full_chunks(whole, size) + Seq::<Seq<T>>::empty() =~= full_chunks(whole, size));
}

} // verus!
