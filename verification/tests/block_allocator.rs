use plinth::memory::block_allocator::BlockAllocator;
use plinth::memory::{Error, HeapOffset};

#[test]
fn block_allocator_test() {
    let mut allocator = BlockAllocator::new(HeapOffset(8), 4);

    let a0 = allocator.allocate().unwrap();
    let a1 = allocator.allocate().unwrap();
    let a2 = allocator.allocate().unwrap();
    let a3 = allocator.allocate().unwrap();

    assert_eq!(a0, HeapOffset(0));
    assert_eq!(a1, HeapOffset(8));
    assert_eq!(a2, HeapOffset(16));
    assert_eq!(a3, HeapOffset(24));

    assert_eq!(
        allocator.allocate(),
        Err(Error::OutOfMemory {
            capacity: 4,
            available: 0,
            requested: 1,
        })
    );

    allocator.free(a1);
    allocator.free(a2);

    let a1 = allocator.allocate().unwrap();
    let a2 = allocator.allocate().unwrap();

    assert_eq!(a1, HeapOffset(16));
    assert_eq!(a2, HeapOffset(8));

    assert_eq!(
        allocator.allocate(),
        Err(Error::OutOfMemory {
            capacity: 4,
            available: 0,
            requested: 1,
        })
    );
}

#[test]
fn allocations_are_distinct_multiples_of_the_block_size() {
    let mut allocator = BlockAllocator::new(HeapOffset(32), 8);
    let mut seen: Vec<HeapOffset> = Vec::new();
    for _ in 0..8 {
        let offset = allocator.allocate().unwrap();
        assert_eq!(offset.0 % 32, 0);
        assert!(offset.0 < 8 * 32);
        assert!(!seen.contains(&offset));
        assert!(allocator.is_allocated(offset));
        seen.push(offset);
    }
    assert!(allocator.allocate().is_err());
}

#[test]
fn freed_block_comes_back_first() {
    let mut allocator = BlockAllocator::new(HeapOffset(4), 3);
    let a = allocator.allocate().unwrap();
    let b = allocator.allocate().unwrap();
    assert_eq!((a, b), (HeapOffset(0), HeapOffset(4)));
    assert!(allocator.is_allocated(a));
    assert!(!allocator.is_allocated(HeapOffset(8)));
    assert!(!allocator.is_allocated(HeapOffset(2)));
    assert!(!allocator.is_allocated(HeapOffset(12)));
    allocator.free(a);
    assert!(!allocator.is_allocated(a));
    assert_eq!(allocator.allocate(), Ok(a));
    assert_eq!(allocator.allocate(), Ok(HeapOffset(8)));
}

#[test]
fn empty_table_is_out_of_memory_at_once() {
    let mut allocator = BlockAllocator::new(HeapOffset(16), 0);
    assert_eq!(
        allocator.allocate(),
        Err(Error::OutOfMemory {
            capacity: 0,
            available: 0,
            requested: 1,
        })
    );
}
