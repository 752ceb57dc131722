//! Chunks, their block ledger, and the allocate / free operations.
use std::collections::hash_map::RandomState;
use std::hash::BuildHasher;
use vstd::prelude::*;

verus! {

/// Granularity, and smallest size, of a chunk in bytes (one page).
pub const MIN_CHUNK_SIZE: usize = 4096;

/// Why a chunk operation was refused.
#[derive(Debug, Clone, Copy, PartialEq, Eq, Structural)]
pub enum ChunkError {
    /// The requested chunk size is not a positive multiple of [`MIN_CHUNK_SIZE`].
    BadSize,
    /// The chunk has no room for the request, or its backing bytes could not be reserved.
    OutOfMemory,
    /// The handle does not name a block of this chunk.
    DoesNotExist,
    /// The block named by the handle has already been freed.
    DoubleFree,
}

/// Identity of one chunk, carried by every handle that the chunk gives out.
///
/// The tag is drawn at random when the chunk is created, so that a handle
/// of one chunk is refused by another.
#[derive(Debug, Clone, Copy, PartialEq, Eq, Structural)]
pub struct ChunkPointer {
    pub tag: u64,
}

/// Names one block of one chunk: the chunk's identity and the block's
/// position in that chunk's ledger.
#[derive(Debug, Clone, Copy, PartialEq, Eq, Structural)]
pub struct BlockHandle {
    pub chunk: ChunkPointer,
    pub index: usize,
}

/// One ledger record: a block of `size` bytes that starts at `offset` in the
/// chunk's backing bytes, and whether it is still allocated.
#[derive(Debug, Clone, Copy, PartialEq, Eq, Structural)]
pub struct Block {
    pub size: usize,
    pub offset: usize,
    pub in_use: bool,
}

/// Fixed facts of a chunk: its size in bytes.
pub struct ChunkHeader {
    pub size: usize,
}

/// An arena of bytes, reserved once, and the ledger of the blocks handed out
/// from it.
///
/// The ledger is kept in allocation order; each record also holds a link
/// to its successor (`links`), so that the records form a chain starting at
/// `first_block`. Records are never removed: freeing only clears `in_use`.
pub struct Chunk {
    header: ChunkHeader,
    pointer: ChunkPointer,
    memory: Vec<u8>,
    blocks: Vec<Block>,
    links: Vec<Option<usize>>,
    first_block: Option<usize>,
    used: usize,
}

/// The abstract state of a chunk: its identity, its capacity in bytes, and
/// its ledger in allocation order.
pub struct ChunkView {
    pub pointer: ChunkPointer,
    pub capacity: nat,
    pub ledger: Seq<Block>,
}

/// Whether `size` is a positive multiple of [`MIN_CHUNK_SIZE`].
pub open spec fn is_valid_chunk_size(size: int) -> bool {
    size > 0 && size % (MIN_CHUNK_SIZE as int) == 0
}

/// First byte past the block.
pub open spec fn block_end(b: Block) -> int {
    b.offset + b.size
}

/// The byte ranges of the two blocks do not overlap.
pub open spec fn blocks_disjoint(a: Block, b: Block) -> bool {
    block_end(a) <= b.offset || block_end(b) <= a.offset
}

/// Sum of the sizes of the blocks that are in use.
pub open spec fn in_use_total(s: Seq<Block>) -> int
    decreases s.len(),
{
    if s.len() == 0 {
        0
    } else {
        in_use_total(s.drop_last()) + if s.last().in_use {
            s.last().size as int
        } else {
            0
        }
    }
}

/// First byte past the highest block that is in use (0 when none is).
pub open spec fn occupied_end(s: Seq<Block>) -> int
    decreases s.len(),
{
    if s.len() == 0 {
        0
    } else {
        let rest = occupied_end(s.drop_last());
        if s.last().in_use && block_end(s.last()) > rest {
            block_end(s.last())
        } else {
            rest
        }
    }
}

impl ChunkView {
    /// Capacity is a positive multiple of the page size; every block lies
    /// inside the arena; blocks in use never overlap, and their sizes add up
    /// to at most the capacity.
    pub open spec fn wf(self) -> bool {
        &&& is_valid_chunk_size(self.capacity as int)
        &&& self.capacity <= usize::MAX
        &&& self.ledger.len() <= usize::MAX
        &&& forall|i: int|
            0 <= i < self.ledger.len() ==> block_end(#[trigger] self.ledger[i]) <= self.capacity
        &&& forall|i: int, j: int|
            0 <= i < self.ledger.len() && 0 <= j < self.ledger.len() && i != j
                && (#[trigger] self.ledger[i]).in_use && (#[trigger] self.ledger[j]).in_use
                ==> blocks_disjoint(self.ledger[i], self.ledger[j])
        &&& self.in_use_bytes() <= self.capacity
    }

    /// Bytes held by the blocks in use.
    pub open spec fn in_use_bytes(self) -> int {
        in_use_total(self.ledger)
    }

    /// Where the next block is placed: just past the highest block in use.
    pub open spec fn top(self) -> int {
        occupied_end(self.ledger)
    }

    /// The handle of the ledger's `i`-th record.
    pub open spec fn handle_at(self, i: int) -> BlockHandle {
        BlockHandle { chunk: self.pointer, index: i as usize }
    }

    /// Whether `h` names a record of this chunk's ledger.
    pub open spec fn holds(self, h: BlockHandle) -> bool {
        h.chunk == self.pointer && h.index < self.ledger.len()
    }

    /// A request of `size` bytes can be served: the bytes in use plus the
    /// request stay within capacity, so does the block placed at `top`, and
    /// the ledger has room for one more record.
    pub open spec fn fits(self, size: int) -> bool {
        &&& self.in_use_bytes() + size <= self.capacity
        &&& self.top() + size <= self.capacity
        &&& self.ledger.len() < usize::MAX
    }

    /// What allocating `size` bytes returns.
    pub open spec fn allocate_result(self, size: usize) -> Result<BlockHandle, ChunkError> {
        if self.fits(size as int) {
            Ok(self.handle_at(self.ledger.len() as int))
        } else {
            Err(ChunkError::OutOfMemory)
        }
    }

    /// The chunk after allocating `size` bytes: a new record in use, placed
    /// at `top`, appended to the ledger; unchanged when the request fails.
    pub open spec fn after_allocate(self, size: usize) -> ChunkView {
        if self.fits(size as int) {
            ChunkView {
                ledger: self.ledger.push(
                    Block { size, offset: self.top() as usize, in_use: true },
                ),
                ..self
            }
        } else {
            self
        }
    }

    /// What freeing `h` returns.
    pub open spec fn free_result(self, h: BlockHandle) -> Result<(), ChunkError> {
        if !self.holds(h) {
            Err(ChunkError::DoesNotExist)
        } else if !self.ledger[h.index as int].in_use {
            Err(ChunkError::DoubleFree)
        } else {
            Ok(())
        }
    }

    /// The chunk after freeing `h`: the record marked not in use; unchanged
    /// when the request fails.
    pub open spec fn after_free(self, h: BlockHandle) -> ChunkView {
        if self.free_result(h) is Ok {
            ChunkView {
                ledger: self.ledger.update(
                    h.index as int,
                    Block { in_use: false, ..self.ledger[h.index as int] },
                ),
                ..self
            }
        } else {
            self
        }
    }
}

impl View for Chunk {
    type V = ChunkView;

    closed spec fn view(&self) -> ChunkView {
        ChunkView {
            pointer: self.pointer,
            capacity: self.header.size as nat,
            ledger: self.blocks@,
        }
    }
}

/// A block in use ends at or below `occupied_end`.
proof fn lemma_occupied_end_covers(s: Seq<Block>, i: int)
    requires
        0 <= i < s.len(),
        s[i].in_use,
    ensures
        block_end(s[i]) <= occupied_end(s),
    decreases s.len(),
{
    if i < s.len() - 1 {
        lemma_occupied_end_covers(s.drop_last(), i);
    }
}

/// The bytes in use are never negative.
proof fn lemma_in_use_total_nonneg(s: Seq<Block>)
    ensures
        in_use_total(s) >= 0,
    decreases s.len(),
{
    if s.len() > 0 {
        lemma_in_use_total_nonneg(s.drop_last());
    }
}

/// Releasing a block in use lowers the bytes in use by its size.
proof fn lemma_in_use_total_release(s: Seq<Block>, i: int)
    requires
        0 <= i < s.len(),
        s[i].in_use,
    ensures
        in_use_total(s.update(i, Block { in_use: false, ..s[i] })) == in_use_total(s) - s[i].size,
    decreases s.len(),
{
    let t = s.update(i, Block { in_use: false, ..s[i] });
    if i == s.len() - 1 {
        assert(t.drop_last() =~= s.drop_last());
    } else {
        assert(t.drop_last() =~= s.drop_last().update(i, Block { in_use: false, ..s[i] }));
        lemma_in_use_total_release(s.drop_last(), i);
    }
}

/// Relies on `RandomState::new` of std: a hasher builder with freshly drawn
/// random keys. Nothing is known of the keys.
#[verifier::external_body]
fn fresh_random_state() -> (r: RandomState) {
    RandomState::new()
}

/// Relies on `BuildHasher::hash_one` of std: hashes `x` under the builder's
/// keys. The result depends on those keys, so nothing is known of it.
#[verifier::external_body]
fn hash_with(state: &RandomState, x: u64) -> (r: u64) {
    state.hash_one(x)
}

/// Creates a chunk of `chunk_size` bytes with an empty ledger.
///
/// Fails with `BadSize` exactly when `chunk_size` is not a positive multiple
/// of [`MIN_CHUNK_SIZE`], and with `OutOfMemory` when the backing bytes cannot
/// be reserved.
pub fn init_chunk(chunk_size: usize) -> (r: Result<Chunk, ChunkError>)
    ensures
        !is_valid_chunk_size(chunk_size as int) <==> r == Err::<Chunk, ChunkError>(
            ChunkError::BadSize,
        ),
        r is Err ==> r == Err::<Chunk, ChunkError>(ChunkError::BadSize) || r == Err::<
            Chunk,
            ChunkError,
        >(ChunkError::OutOfMemory),
        r matches Ok(c) ==> c.wf() && c@.capacity == chunk_size && c@.ledger.len() == 0,
{
    if chunk_size == 0 || chunk_size % MIN_CHUNK_SIZE != 0 {
        return Err(ChunkError::BadSize);
    }
    let mut memory: Vec<u8> = Vec::new();
    if memory.try_reserve(chunk_size).is_err() {
        return Err(ChunkError::OutOfMemory);
    }
    memory.resize(chunk_size, 0u8);
    let state = fresh_random_state();
    let tag = hash_with(&state, chunk_size as u64);
    let chunk = Chunk {
        header: ChunkHeader { size: chunk_size },
        pointer: ChunkPointer { tag },
        memory,
        blocks: Vec::new(),
        links: Vec::new(),
        first_block: None,
        used: 0,
    };
    proof {
        assert(chunk@.ledger =~= Seq::<Block>::empty());
    }
    Ok(chunk)
}

/// Each link leads to the next position, and only the last one is absent.
spec fn chained(links: Seq<Option<usize>>) -> bool {
    forall|i: int|
        0 <= i < links.len() ==> {
            &&& (#[trigger] links[i] is Some <==> i + 1 < links.len())
            &&& (links[i] matches Some(n) ==> n == i + 1)
        }
}

impl Chunk {
    /// The internal invariant: the abstract state is well formed, the arena
    /// has exactly `capacity` bytes, the links chain the records in ledger
    /// order, and `used` caches the bytes in use.
    pub closed spec fn wf(&self) -> bool {
        &&& self@.wf()
        &&& self.memory@.len() == self.header.size
        &&& self.links@.len() == self.blocks@.len()
        &&& chained(self.links@)
        &&& self.first_block == if self.blocks@.len() > 0 {
            Some(0usize)
        } else {
            None
        }
        &&& self.used == self@.in_use_bytes()
    }

    /// Follows the chain from its head to the record that has no successor:
    /// the handle of the last record of the ledger, or `None` when the
    /// ledger is empty.
    pub fn search(&self) -> (r: Option<BlockHandle>)
        requires
            self.wf(),
        ensures
            r == if self@.ledger.len() == 0 {
                None
            } else {
                Some(self@.handle_at(self@.ledger.len() - 1))
            },
    {
        match self.first_block {
            None => None,
            Some(head) => {
                let mut current: usize = head;
                loop
                    invariant
                        self.wf(),
                        current < self.links@.len(),
                    ensures
                        current + 1 == self.links@.len(),
                    decreases self.links@.len() - current,
                {
                    match self.links[current] {
                        Some(next) => {
                            current = next;
                        },
                        None => {
                            break ;
                        },
                    }
                }
                Some(BlockHandle { chunk: self.pointer, index: current })
            },
        }
    }

    /// Finds the record that `handle` names by following the chain and
    /// comparing positions.
    fn lookup(&self, handle: BlockHandle) -> (r: Option<usize>)
        requires
            self.wf(),
        ensures
            r == if self@.holds(handle) {
                Some(handle.index)
            } else {
                None
            },
    {
        if handle.chunk != self.pointer {
            return None;
        }
        let mut current = self.first_block;
        loop
            invariant
                self.wf(),
                handle.chunk == self.pointer,
                current matches Some(c) ==> c < self.blocks@.len() && c <= handle.index,
                current is None ==> self.blocks@.len() <= handle.index,
            decreases match current {
                Some(c) => self.blocks@.len() - c,
                None => 0,
            },
        {
            match current {
                None => {
                    return None;
                },
                Some(c) => {
                    if c == handle.index {
                        return Some(c);
                    }
                    current = self.links[c];
                },
            }
        }
    }

    /// First byte past the highest block in use.
    fn occupied_top(&self) -> (r: usize)
        requires
            self.wf(),
        ensures
            r == self@.top(),
            r <= self@.capacity,
    {
        let mut top: usize = 0;
        let mut i: usize = 0;
        while i < self.blocks.len()
            invariant
                self.wf(),
                i <= self.blocks@.len(),
                top == occupied_end(self.blocks@.subrange(0, i as int)),
                top <= self.header.size,
            decreases self.blocks@.len() - i,
        {
            let b = self.blocks[i];
            proof {
                assert(self.blocks@.subrange(0, i + 1).drop_last() =~= self.blocks@.subrange(
                    0,
                    i as int,
                ));
                assert(block_end(self@.ledger[i as int]) <= self@.capacity);
            }
            if b.in_use && b.offset + b.size > top {
                top = b.offset + b.size;
            }
            i = i + 1;
        }
        proof {
            assert(self.blocks@.subrange(0, i as int) =~= self.blocks@);
        }
        top
    }

    /// Hands out a block of `size` bytes.
    ///
    /// The block is placed just past the highest block in use and its record
    /// is appended at the tail of the ledger; the handle returned is its
    /// position there, which no later call gives out again (freed records are
    /// not reused). Fails with `OutOfMemory`, changing nothing, when the bytes
    /// in use plus `size` exceed the capacity, or when the block would not
    /// fit below the end of the arena (or when the ledger already holds
    /// `usize::MAX` records).
    pub fn allocate(&mut self, size: usize) -> (r: Result<BlockHandle, ChunkError>)
        requires
            old(self).wf(),
        ensures
            final(self).wf(),
            r == old(self)@.allocate_result(size),
            final(self)@ == old(self)@.after_allocate(size),
    {
        let top = self.occupied_top();
        let capacity = self.header.size;
        let index = self.blocks.len();
        if size > capacity - self.used || size > capacity - top || index == usize::MAX {
            return Err(ChunkError::OutOfMemory);
        }
        let tail = self.search();
        let ghost before = self@;
        let ghost old_links = self.links@;
        match tail {
            Some(last) => {
                self.links.set(last.index, Some(index));
            },
            None => {
                self.first_block = Some(index);
            },
        }
        self.blocks.push(Block { size, offset: top, in_use: true });
        self.links.push(None);
        self.used = self.used + size;
        proof {
            let s = self.blocks@;
            let n = s.len() - 1;
            assert(s.drop_last() =~= before.ledger);
            assert forall|j: int| 0 <= j < n && (#[trigger] s[j]).in_use implies block_end(s[j])
                <= top by {
                lemma_occupied_end_covers(before.ledger, j);
            }
            assert forall|i: int| 0 <= i < self.links@.len() implies {
                &&& (#[trigger] self.links@[i] is Some <==> i + 1 < self.links@.len())
                &&& (self.links@[i] matches Some(m) ==> m == i + 1)
            } by {
                if i < n - 1 {
                    assert(old_links[i] == self.links@[i]);
                }
            }
        }
        Ok(BlockHandle { chunk: self.pointer, index })
    }

    /// Releases the block that `handle` names: its record stays in the
    /// ledger, marked not in use.
    ///
    /// Fails with `DoesNotExist` when the handle does not name a record of
    /// this chunk (another chunk's handle, or a made-up one), and with
    /// `DoubleFree` when the block was already freed; a failing call changes
    /// nothing.
    pub fn free(&mut self, handle: BlockHandle) -> (r: Result<(), ChunkError>)
        requires
            old(self).wf(),
        ensures
            final(self).wf(),
            r == old(self)@.free_result(handle),
            final(self)@ == old(self)@.after_free(handle),
    {
        match self.lookup(handle) {
            None => Err(ChunkError::DoesNotExist),
            Some(i) => {
                let b = self.blocks[i];
                if !b.in_use {
                    return Err(ChunkError::DoubleFree);
                }
                proof {
                    lemma_in_use_total_release(self.blocks@, i as int);
                    lemma_in_use_total_nonneg(
                        self.blocks@.update(i as int, Block { in_use: false, ..b }),
                    );
                }
                self.blocks.set(i, Block { in_use: false, ..b });
                self.used = self.used - b.size;
                Ok(())
            },
        }
    }

    /// The chunk's size in bytes.
    pub fn capacity(&self) -> (r: usize)
        requires
            self.wf(),
        ensures
            r == self@.capacity,
    {
        self.header.size
    }

    /// The chunk's fixed facts.
    pub fn header(&self) -> (r: &ChunkHeader)
        ensures
            r.size == self@.capacity,
    {
        &self.header
    }

    /// The identity that this chunk's handles carry.
    pub fn pointer(&self) -> (r: ChunkPointer)
        ensures
            r == self@.pointer,
    {
        self.pointer
    }

    /// Number of records in the ledger, freed ones included.
    pub fn ledger_len(&self) -> (r: usize)
        ensures
            r == self@.ledger.len(),
    {
        self.blocks.len()
    }

    /// Bytes held by the blocks in use.
    pub fn in_use_bytes(&self) -> (r: usize)
        requires
            self.wf(),
        ensures
            r == self@.in_use_bytes(),
    {
        self.used
    }

    /// The record that `handle` names, or `None` when it names no record of
    /// this chunk.
    pub fn block(&self, handle: BlockHandle) -> (r: Option<Block>)
        requires
            self.wf(),
        ensures
            r == if self@.holds(handle) {
                Some(self@.ledger[handle.index as int])
            } else {
                None
            },
    {
        match self.lookup(handle) {
            Some(i) => Some(self.blocks[i]),
            None => None,
        }
    }
}

} // verus!
