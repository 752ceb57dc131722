use memory_allocator::{Block, BlockHandle, Chunk, ChunkError, ChunkPointer, MIN_CHUNK_SIZE};

fn page_chunk() -> Chunk {
    match memory_allocator::init_chunk(4096) {
        Ok(c) => c,
        Err(e) => panic!("could not create a chunk: {:?}", e),
    }
}

#[test]
fn init_chunk() {
    let block = memory_allocator::init_chunk(4096);

    match block {
        Ok(mut chunk) => {
            let result = chunk.allocate(64);
            assert!(result.is_ok());

            for _ in 0..10 {
                let result = chunk.allocate(32);
                assert!(result.is_ok());
            }

            let result_two = chunk.allocate(128);
            match result_two {
                Ok(t) => {
                    assert!(chunk.free(t).is_ok());
                }
                Err(_) => {
                    panic!();
                }
            }
        }
        Err(_) => {
            panic!();
        }
    }
}

#[test]
fn bad_sizes_are_refused() {
    for size in [0usize, 1, 64, 4095, 4097, 6000, 8191, usize::MAX] {
        assert!(matches!(memory_allocator::init_chunk(size), Err(ChunkError::BadSize)));
    }
}

#[test]
fn page_multiples_are_accepted() {
    for size in [4096usize, 8192, 3 * 4096] {
        let c = memory_allocator::init_chunk(size).unwrap();
        assert_eq!(c.capacity(), size);
    }
}

#[test]
fn fresh_chunk_is_empty() {
    let c = page_chunk();
    assert_eq!(c.capacity(), 4096);
    assert_eq!(c.header().size, 4096);
    assert_eq!(MIN_CHUNK_SIZE, 4096);
    assert_eq!(c.ledger_len(), 0);
    assert_eq!(c.in_use_bytes(), 0);
    assert_eq!(c.search(), None);
}

#[test]
fn allocations_within_capacity_succeed_with_distinct_handles() {
    let mut c = page_chunk();
    let mut handles: Vec<BlockHandle> = Vec::new();
    for _ in 0..4 {
        handles.push(c.allocate(1024).unwrap());
    }
    for i in 0..handles.len() {
        assert_eq!(handles[i].index, i);
        assert_eq!(handles[i].chunk, c.pointer());
        for j in 0..i {
            assert_ne!(handles[i], handles[j]);
        }
    }
    assert_eq!(c.in_use_bytes(), 4096);
}

#[test]
fn first_overflowing_allocation_fails_and_changes_nothing() {
    let mut c = page_chunk();
    c.allocate(4000).unwrap();
    c.allocate(96).unwrap();
    assert_eq!(c.allocate(1), Err(ChunkError::OutOfMemory));
    assert_eq!(c.ledger_len(), 2);
    assert_eq!(c.in_use_bytes(), 4096);
}

#[test]
fn oversized_request_fails() {
    let mut c = page_chunk();
    assert_eq!(c.allocate(4097), Err(ChunkError::OutOfMemory));
    assert_eq!(c.allocate(usize::MAX), Err(ChunkError::OutOfMemory));
    assert_eq!(c.ledger_len(), 0);
    assert_eq!(c.in_use_bytes(), 0);
}

#[test]
fn blocks_are_placed_one_after_another() {
    let mut c = page_chunk();
    let a = c.allocate(64).unwrap();
    let b = c.allocate(32).unwrap();
    let d = c.allocate(100).unwrap();
    assert_eq!(c.block(a), Some(Block { size: 64, offset: 0, in_use: true }));
    assert_eq!(c.block(b), Some(Block { size: 32, offset: 64, in_use: true }));
    assert_eq!(c.block(d), Some(Block { size: 100, offset: 96, in_use: true }));
    assert_eq!(c.in_use_bytes(), 196);
}

#[test]
fn free_marks_the_block_not_in_use() {
    let mut c = page_chunk();
    let a = c.allocate(64).unwrap();
    let b = c.allocate(32).unwrap();
    assert_eq!(c.free(a), Ok(()));
    assert_eq!(c.block(a), Some(Block { size: 64, offset: 0, in_use: false }));
    assert_eq!(c.block(b), Some(Block { size: 32, offset: 64, in_use: true }));
    assert_eq!(c.in_use_bytes(), 32);
    assert_eq!(c.ledger_len(), 2);
}

#[test]
fn handle_of_another_chunk_is_refused() {
    let mut first = page_chunk();
    let mut second = page_chunk();
    let h = first.allocate(64).unwrap();
    let mine = second.allocate(64).unwrap();
    assert_ne!(first.pointer(), second.pointer());
    assert_eq!(h.index, mine.index);
    assert_eq!(second.free(h), Err(ChunkError::DoesNotExist));
    assert_eq!(second.block(mine), Some(Block { size: 64, offset: 0, in_use: true }));
    assert_eq!(second.in_use_bytes(), 64);
    assert_eq!(second.block(h), None);
}

#[test]
fn forged_handles_are_refused() {
    let mut c = page_chunk();
    let h = c.allocate(64).unwrap();
    let past_end = BlockHandle { chunk: c.pointer(), index: 1 };
    let wrong_chunk = BlockHandle {
        chunk: ChunkPointer { tag: c.pointer().tag.wrapping_add(1) },
        index: 0,
    };
    assert_eq!(c.free(past_end), Err(ChunkError::DoesNotExist));
    assert_eq!(c.free(wrong_chunk), Err(ChunkError::DoesNotExist));
    assert_eq!(c.block(h), Some(Block { size: 64, offset: 0, in_use: true }));
    assert_eq!(c.ledger_len(), 1);
}

#[test]
fn freeing_twice_is_a_double_free() {
    let mut c = page_chunk();
    let h = c.allocate(64).unwrap();
    c.allocate(16).unwrap();
    assert_eq!(c.free(h), Ok(()));
    assert_eq!(c.free(h), Err(ChunkError::DoubleFree));
    assert_eq!(c.block(h), Some(Block { size: 64, offset: 0, in_use: false }));
    assert_eq!(c.in_use_bytes(), 16);
    assert_eq!(c.ledger_len(), 2);
}

#[test]
fn freed_slot_is_not_reused() {
    let mut c = page_chunk();
    c.allocate(64).unwrap();
    for _ in 0..10 {
        c.allocate(32).unwrap();
    }
    let h2 = c.allocate(128).unwrap();
    assert_eq!(h2.index, 11);
    assert_eq!(c.free(h2), Ok(()));
    let later = c.allocate(128).unwrap();
    assert_ne!(later, h2);
    assert_eq!(later.index, 12);
    assert_eq!(c.block(h2), Some(Block { size: 128, offset: 384, in_use: false }));
    assert_eq!(c.block(later), Some(Block { size: 128, offset: 384, in_use: true }));
}

#[test]
fn search_finds_the_tail() {
    let mut c = page_chunk();
    assert_eq!(c.search(), None);
    let a = c.allocate(8).unwrap();
    assert_eq!(c.search(), Some(a));
    c.allocate(8).unwrap();
    let last = c.allocate(8).unwrap();
    assert_eq!(c.search(), Some(last));
}

#[test]
fn next_block_goes_past_the_highest_in_use() {
    let mut c = page_chunk();
    let a = c.allocate(100).unwrap();
    let b = c.allocate(200).unwrap();
    c.free(b).unwrap();
    let d = c.allocate(50).unwrap();
    assert_eq!(c.block(d), Some(Block { size: 50, offset: 100, in_use: true }));
    c.free(a).unwrap();
    let e = c.allocate(10).unwrap();
    assert_eq!(c.block(e), Some(Block { size: 10, offset: 150, in_use: true }));
}

#[test]
fn no_room_above_the_highest_block_is_out_of_memory() {
    let mut c = page_chunk();
    let low = c.allocate(2048).unwrap();
    c.allocate(2048).unwrap();
    c.free(low).unwrap();
    assert_eq!(c.in_use_bytes(), 2048);
    assert_eq!(c.allocate(2048), Err(ChunkError::OutOfMemory));
    assert_eq!(c.ledger_len(), 2);
}

#[test]
fn zero_sized_blocks_are_allowed() {
    let mut c = page_chunk();
    let a = c.allocate(0).unwrap();
    let b = c.allocate(4096).unwrap();
    let d = c.allocate(0).unwrap();
    assert_eq!(c.block(a), Some(Block { size: 0, offset: 0, in_use: true }));
    assert_eq!(c.block(b), Some(Block { size: 4096, offset: 0, in_use: true }));
    assert_eq!(c.block(d), Some(Block { size: 0, offset: 4096, in_use: true }));
    assert_eq!(c.allocate(1), Err(ChunkError::OutOfMemory));
}
