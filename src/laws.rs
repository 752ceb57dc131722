//! Properties of allocate and free over whole sequences of calls.
use vstd::prelude::*;

use crate::chunk::{
    block_end, in_use_total, occupied_end, Block, BlockHandle, ChunkError, ChunkView,
};

verus! {

/// Sum of the requested sizes.
pub open spec fn sum_sizes(sizes: Seq<usize>) -> int
    decreases sizes.len(),
{
    if sizes.len() == 0 {
        0
    } else {
        sum_sizes(sizes.drop_last()) + sizes.last()
    }
}

/// The chunk after allocating each of `sizes` in turn, and what each call
/// returned.
pub open spec fn allocate_all(v: ChunkView, sizes: Seq<usize>) -> (ChunkView, Seq<
    Result<BlockHandle, ChunkError>,
>)
    decreases sizes.len(),
{
    if sizes.len() == 0 {
        (v, Seq::empty())
    } else {
        let (w, results) = allocate_all(v, sizes.drop_last());
        (w.after_allocate(sizes.last()), results.push(w.allocate_result(sizes.last())))
    }
}

/// Allocations from an empty ledger whose sizes fit: each record is in use,
/// packed one after the other, and each call returned the handle of its own
/// position.
proof fn lemma_packed_allocations(v: ChunkView, sizes: Seq<usize>)
    requires
        v.wf(),
        v.ledger.len() == 0,
        sum_sizes(sizes) <= v.capacity,
        sizes.len() <= usize::MAX,
    ensures
        ({
            let (w, results) = allocate_all(v, sizes);
            &&& w.pointer == v.pointer
            &&& w.capacity == v.capacity
            &&& w.ledger.len() == sizes.len()
            &&& results.len() == sizes.len()
            &&& forall|i: int| 0 <= i < sizes.len() ==> (#[trigger] w.ledger[i]).in_use
            &&& w.in_use_bytes() == sum_sizes(sizes)
            &&& w.top() == sum_sizes(sizes)
            &&& forall|i: int|
                0 <= i < sizes.len() ==> #[trigger] results[i] == Ok::<BlockHandle, ChunkError>(
                    v.handle_at(i),
                )
        }),
    decreases sizes.len(),
{
    if sizes.len() > 0 {
        let prefix = sizes.drop_last();
        lemma_packed_allocations(v, prefix);
        let (w, results) = allocate_all(v, prefix);
        let size = sizes.last();
        assert(w.fits(size as int));
        let b = Block { size, offset: w.top() as usize, in_use: true };
        let w2 = w.after_allocate(size);
        assert(w2.ledger == w.ledger.push(b));
        assert(w2.ledger.drop_last() =~= w.ledger);
        assert(w2.ledger.last() == b);
        assert(in_use_total(w2.ledger) == in_use_total(w.ledger) + size);
        assert(block_end(b) == w.top() + size);
        assert(occupied_end(w2.ledger) == w.top() + size);
        let results2 = results.push(w.allocate_result(size));
        assert forall|i: int| 0 <= i < sizes.len() implies #[trigger] results2[i] == Ok::<
            BlockHandle,
            ChunkError,
        >(v.handle_at(i)) by {
            if i < prefix.len() {
                assert(results[i] == Ok::<BlockHandle, ChunkError>(v.handle_at(i)));
            }
        }
        assert forall|i: int| 0 <= i < sizes.len() implies (#[trigger] w2.ledger[i]).in_use by {
            if i < prefix.len() {
                assert(w.ledger[i].in_use);
            }
        }
    }
}

/// Allocating blocks whose sizes add up to at most the capacity, starting
/// from an empty ledger, always succeeds, and no two calls return the same
/// handle.
pub proof fn lemma_allocations_within_capacity(v: ChunkView, sizes: Seq<usize>)
    requires
        v.wf(),
        v.ledger.len() == 0,
        sum_sizes(sizes) <= v.capacity,
        sizes.len() <= usize::MAX,
    ensures
        forall|i: int| 0 <= i < sizes.len() ==> (#[trigger] allocate_all(v, sizes).1[i]) is Ok,
        forall|i: int, j: int|
            0 <= i < j < sizes.len() ==> #[trigger] allocate_all(v, sizes).1[i]
                != #[trigger] allocate_all(v, sizes).1[j],
{
    lemma_packed_allocations(v, sizes);
    let results = allocate_all(v, sizes).1;
    assert forall|i: int, j: int| 0 <= i < j < sizes.len() implies #[trigger] results[i]
        != #[trigger] results[j] by {
        assert(results[i] == Ok::<BlockHandle, ChunkError>(v.handle_at(i)));
        assert(results[j] == Ok::<BlockHandle, ChunkError>(v.handle_at(j)));
    }
}

/// Allocating from an empty ledger, the first call that takes the bytes in
/// use above the capacity fails with `OutOfMemory` and leaves the ledger as
/// the calls before it left it.
pub proof fn lemma_first_overflow_refused(v: ChunkView, sizes: Seq<usize>)
    requires
        v.wf(),
        v.ledger.len() == 0,
        sizes.len() > 0,
        sum_sizes(sizes.drop_last()) <= v.capacity,
        sum_sizes(sizes) > v.capacity,
        sizes.len() <= usize::MAX,
    ensures
        allocate_all(v, sizes).1.last() == Err::<BlockHandle, ChunkError>(ChunkError::OutOfMemory),
        allocate_all(v, sizes).0 == allocate_all(v, sizes.drop_last()).0,
{
    lemma_packed_allocations(v, sizes.drop_last());
}

/// A request that would take the bytes in use above the capacity fails with
/// `OutOfMemory` and leaves the chunk as it was, whatever came before.
pub proof fn lemma_over_capacity_refused(v: ChunkView, size: usize)
    requires
        v.in_use_bytes() + size > v.capacity,
    ensures
        v.allocate_result(size) == Err::<BlockHandle, ChunkError>(ChunkError::OutOfMemory),
        v.after_allocate(size) == v,
{
}

/// A record that is in use stays in the ledger, in use, across any
/// allocation and across freeing any other handle.
pub proof fn lemma_allocated_until_freed(v: ChunkView, h: BlockHandle, size: usize, g: BlockHandle)
    requires
        v.holds(h),
        v.ledger[h.index as int].in_use,
        g != h,
    ensures
        v.after_allocate(size).holds(h),
        v.after_allocate(size).ledger[h.index as int] == v.ledger[h.index as int],
        v.after_free(g).holds(h),
        v.after_free(g).ledger[h.index as int] == v.ledger[h.index as int],
{
    if v.free_result(g) is Ok {
        assert(g.chunk == h.chunk);
        assert(g.index != h.index);
    }
}

/// Freeing the handle that an allocation just returned succeeds, and the
/// record then reads as not in use.
pub proof fn lemma_free_after_allocate(v: ChunkView, size: usize)
    requires
        v.wf(),
        v.allocate_result(size) is Ok,
    ensures
        ({
            let h = v.allocate_result(size)->Ok_0;
            let w = v.after_allocate(size);
            &&& w.free_result(h) == Ok::<(), ChunkError>(())
            &&& w.after_free(h).holds(h)
            &&& !w.after_free(h).ledger[h.index as int].in_use
        }),
{
}

/// Freeing a record that is in use succeeds, and the record then reads as
/// not in use.
pub proof fn lemma_free_in_use(v: ChunkView, h: BlockHandle)
    requires
        v.holds(h),
        v.ledger[h.index as int].in_use,
    ensures
        v.free_result(h) == Ok::<(), ChunkError>(()),
        v.after_free(h).holds(h),
        !v.after_free(h).ledger[h.index as int].in_use,
{
}

/// A handle of another chunk, or one past the ledger's end, is refused with
/// `DoesNotExist`, and the chunk is left as it was.
pub proof fn lemma_foreign_handle_refused(v: ChunkView, h: BlockHandle)
    requires
        h.chunk != v.pointer || h.index >= v.ledger.len(),
    ensures
        v.free_result(h) == Err::<(), ChunkError>(ChunkError::DoesNotExist),
        v.after_free(h) == v,
{
}

/// Freeing a handle a second time fails with `DoubleFree`, and changes
/// nothing after the first call.
pub proof fn lemma_double_free_refused(v: ChunkView, h: BlockHandle)
    requires
        v.free_result(h) is Ok,
    ensures
        v.after_free(h).free_result(h) == Err::<(), ChunkError>(ChunkError::DoubleFree),
        v.after_free(h).after_free(h) == v.after_free(h),
{
}

/// An allocation never returns a handle that the chunk gave out before,
/// freed or not: freed records are not reused.
pub proof fn lemma_no_slot_reuse(v: ChunkView, h: BlockHandle, size: usize)
    requires
        v.holds(h),
        v.ledger.len() <= usize::MAX,
    ensures
        v.allocate_result(size) != Ok::<BlockHandle, ChunkError>(h),
{
}

} // verus!
