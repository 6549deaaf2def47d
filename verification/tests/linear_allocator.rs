use plinth::linear_allocator::{align_offset, is_power_of_two, Error, LinearAllocator};

#[test]
fn allocations_are_aligned_by_address() {
    let base = 4096 + 1;
    let mut allocator = LinearAllocator::new(256, base);
    assert_eq!(allocator.capacity(), 256);
    assert_eq!(allocator.bytes_allocated(), 0);
    assert!(!allocator.is_full());

    assert!(allocator.can_fit(10, 64));
    assert_eq!(allocator.allocate(10, 64), Ok(63));
    // 63 bytes of padding and 64 for the ten, rounded up
    assert_eq!(allocator.bytes_allocated(), 127);
    assert_eq!(allocator.allocate(1, 1), Ok(127));
    assert_eq!(allocator.bytes_allocated(), 128);

    // 63 bytes of padding again, and 64 bytes: one byte short of the end
    assert!(allocator.can_fit(64, 64));
    assert!(!allocator.can_fit(65, 64));
    assert_eq!(allocator.allocate(65, 64), Err(Error::OutOfMemory));
    assert_eq!(allocator.bytes_allocated(), 128);
    assert_eq!(allocator.allocate(64, 64), Ok(191));
    assert_eq!((base + 191) % 64, 0);
    assert_eq!(allocator.bytes_allocated(), 255);
    assert_eq!(allocator.allocate(1, 1), Ok(255));
    assert!(allocator.is_full());
    assert_eq!(allocator.allocate(1, 1), Err(Error::OutOfMemory));
    assert_eq!(allocator.allocate(0, 1), Ok(256));

    allocator.clear();
    assert_eq!(allocator.bytes_allocated(), 0);
    assert_eq!(allocator.allocate(8, 8), Ok(7));
}

#[test]
fn align_offset_leads_to_the_next_multiple() {
    assert_eq!(align_offset(4097, 64), 63);
    assert_eq!(align_offset(4096, 64), 0);
    assert_eq!(align_offset(7, 1), 0);
    assert_eq!(align_offset(1, 8), 7);
    assert!(is_power_of_two(1));
    assert!(is_power_of_two(4096));
    assert!(!is_power_of_two(0));
    assert!(!is_power_of_two(24));
}
