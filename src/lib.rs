//! A fixed-capacity memory chunk allocator.
//!
//! A [`Chunk`] reserves one arena of bytes, whose size is a positive multiple
//! of [`MIN_CHUNK_SIZE`], and hands out blocks of it. Every allocation is
//! recorded in the chunk's ledger and named by a [`BlockHandle`]; freeing a
//! block marks its record as no longer in use. The operations are stated over
//! [`ChunkView`], the abstract state of a chunk, and [`laws`] proves how they
//! behave over sequences of calls.
pub mod chunk;
pub mod laws;

pub use chunk::{
    init_chunk, Block, BlockHandle, Chunk, ChunkError, ChunkHeader, ChunkPointer, ChunkView,
    MIN_CHUNK_SIZE,
};
