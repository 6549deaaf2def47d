use plinth::ring_allocator::{Error, RingAllocator};

#[test]
fn with_heap() {
    // The heap begins one byte behind an address that every alignment in use divides.
    let base = 4096 + 1;
    let mut allocator = RingAllocator::new(128, base);

    let a = allocator.allocate(10, 64).unwrap();
    assert_eq!(a.size(), 64);
    assert_eq!(a.alloc_id(), 0);
    assert_eq!((base + a.offset() % 128) % 64, 0);
    assert!(a.offset() % 128 + u64::from(a.size()) <= 128);

    let b = allocator.allocate(10, 8).unwrap();
    assert_eq!(b.size(), 16);
    assert_eq!(b.alloc_id(), 1);
    assert_eq!((base + b.offset() % 128) % 8, 0);
    assert!(b.offset() % 128 + u64::from(b.size()) <= 128);

    assert!(
        !allocator.is_full(),
        "allocated 80 bytes out of 128, allocator.is_full() should be false"
    );

    {
        let bytes_allocated = allocator.bytes_allocated();
        let bytes_deallocated = allocator.bytes_deallocated();
        let allocations_served = allocator.allocations_served();
        let allocations_freed = allocator.allocations_freed();

        assert_eq!(allocator.allocate(1, 64), Err(Error::OutOfMemory));

        assert_eq!(
            allocator.bytes_allocated(),
            bytes_allocated,
            "failed allocation cannot change allocator state"
        );
        assert_eq!(
            allocator.bytes_deallocated(),
            bytes_deallocated,
            "failed allocation cannot change allocator state"
        );
        assert_eq!(
            allocator.allocations_served(),
            allocations_served,
            "failed allocation cannot change allocator state"
        );
        assert_eq!(
            allocator.allocations_freed(),
            allocations_freed,
            "failed allocation cannot change allocator state"
        );
    }

    allocator.free(a);
    assert!(!allocator.is_free());

    allocator.free(b);
    assert!(
        allocator.is_free(),
        "allocator must be free after all allocations are freed"
    );

    // wrapping allocation
    let c = allocator.allocate(128, 1).unwrap();
    assert_eq!(c.size(), 128);
    assert_eq!(c.alloc_id(), 2);
    assert_eq!(c.offset() % 128, 0);
    assert!(allocator.is_full());

    allocator.free(c);
    assert!(allocator.is_free());
}

#[test]
fn ring_places_behind_the_head_or_at_the_start() {
    let base = 4096 + 1;
    let mut allocator = RingAllocator::new(128, base);
    assert_eq!(allocator.capacity(), 128);
    assert!(allocator.accepts(10, 64));
    assert!(!allocator.accepts(10, 3));
    assert!(!allocator.accepts(u64::from(u32::MAX), 64));

    // The first aligned address lies 63 bytes into the heap; the tail moves up to it.
    let a = allocator.allocate(10, 64).unwrap();
    assert_eq!((a.offset(), a.size(), a.alloc_id()), (63, 64, 0));
    assert_eq!(allocator.bytes_deallocated(), 63);
    assert_eq!(allocator.bytes_allocated(), 127);

    // Behind the head one byte is left: the request goes to the first aligned
    // address of the heap, seven bytes in.
    let b = allocator.allocate(10, 8).unwrap();
    assert_eq!((b.offset(), b.size(), b.alloc_id()), (135, 16, 1));
    assert_eq!(b.offset() % 128, 7);

    assert_eq!(allocator.allocate(129, 1), Err(Error::InsufficientCapacity));
    assert_eq!(allocator.allocate(65, 64), Err(Error::OutOfMemory));

    assert!(allocator.can_free(&a));
    assert!(!allocator.can_free(&b));
    allocator.free(a);
    assert!(allocator.can_free(&b));
    assert_eq!(allocator.bytes_deallocated(), 127);
    assert_eq!(allocator.allocations_freed(), 1);
}

#[test]
fn ring_that_is_full_is_out_of_memory() {
    let mut allocator = RingAllocator::new(64, 0);
    let a = allocator.allocate(64, 1).unwrap();
    assert!(allocator.is_full());
    assert_eq!(allocator.allocate(1, 1), Err(Error::OutOfMemory));
    allocator.free(a);
    assert!(allocator.is_free());
    assert_eq!(allocator.allocate(1, 1).unwrap().offset(), 64);
}
