use plinth::memory::temp_allocator::{next_multiple_of, Allocation, Allocator, FrameMarker};
use plinth::memory::Error;

#[test]
fn temp_allocator_test() {
    let mut allocator = Allocator::new(100, None);

    let m0 = {
        let mut frame = allocator.begin_frame();
        assert_eq!(
            frame.allocate(20, 4),
            Ok(Allocation {
                size: 20,
                virtual_offset: 0,
                heap_offset: 0,
            })
        );
        frame.finish()
    };

    assert_eq!(m0, FrameMarker { end: 20, start: 0 });

    let m1 = {
        let mut frame = allocator.begin_frame();
        assert_eq!(
            frame.allocate(70, 4),
            Ok(Allocation {
                size: 70,
                virtual_offset: 20,
                heap_offset: 20,
            })
        );
        frame.finish()
    };

    assert_eq!(m1, FrameMarker { end: 90, start: 20 });
    allocator.free_frame(m0);

    let m2 = {
        let mut frame = allocator.begin_frame();
        assert_eq!(
            frame.allocate(20, 8),
            Ok(Allocation {
                size: 20,
                virtual_offset: 100,
                heap_offset: 0,
            })
        );
        frame.finish()
    };

    assert_eq!(
        m2,
        FrameMarker {
            end: 120,
            start: 90
        }
    );
    allocator.free_frame(m1);

    let m3 = {
        let mut frame = allocator.begin_frame();
        assert_eq!(
            frame.allocate(15, 64).unwrap(),
            Allocation {
                size: 15,
                virtual_offset: 164,
                heap_offset: 64,
            }
        );
        frame.finish()
    };

    assert_eq!(
        m3,
        FrameMarker {
            end: 179,
            start: 120
        }
    );
    allocator.free_frame(m2);
    allocator.free_frame(m3);

    let m4 = {
        let mut frame = allocator.begin_frame();
        assert_eq!(
            frame.allocate(80, 16),
            Ok(Allocation {
                size: 80,
                virtual_offset: 200,
                heap_offset: 0,
            })
        );
        frame.finish()
    };

    assert_eq!(
        m4,
        FrameMarker {
            end: 280,
            start: 179
        }
    );
    assert_eq!(m4.end, 280);
}

#[test]
fn request_larger_than_ring_is_insufficient_capacity() {
    let mut allocator = Allocator::new(64, None);
    let mut frame = allocator.begin_frame();
    assert_eq!(frame.allocate(65, 1), Err(Error::InsufficientCapacity));
    assert_eq!(
        frame.allocate(64, 1),
        Ok(Allocation {
            size: 64,
            virtual_offset: 0,
            heap_offset: 0
        })
    );
    // even a full ring answers an oversized request with its size
    assert_eq!(frame.allocate(65, 1), Err(Error::InsufficientCapacity));
}

#[test]
fn full_ring_is_out_of_memory() {
    let mut allocator = Allocator::new(100, None);
    let mut frame = allocator.begin_frame();
    assert!(frame.allocate(100, 1).is_ok());
    // the live bytes occupy the whole capacity
    assert_eq!(
        frame.allocate(1, 1),
        Err(Error::OutOfMemory {
            capacity: 100,
            available: 0,
            requested: 1
        })
    );
    let marker = frame.finish();
    assert_eq!(allocator.bytes_free(), 0);
    allocator.free_frame(marker);
    assert_eq!(allocator.bytes_free(), 100);
}

#[test]
fn failed_allocation_leaves_the_frame_as_it_was() {
    let mut allocator = Allocator::new(128, None);
    let mut frame = allocator.begin_frame();
    assert_eq!(frame.allocate(64, 64).unwrap().heap_offset, 0);
    assert_eq!(frame.allocate(16, 8).unwrap().heap_offset, 64);
    // behind the head 48 bytes are left, and the tail is at zero
    assert_eq!(
        frame.allocate(49, 1),
        Err(Error::OutOfMemory {
            capacity: 128,
            available: 48,
            requested: 49
        })
    );
    assert_eq!(
        frame.allocate(48, 1),
        Ok(Allocation {
            size: 48,
            virtual_offset: 80,
            heap_offset: 80
        })
    );
    let marker = frame.finish();
    assert_eq!((marker.start, marker.end), (0, 128));
}

#[test]
fn gap_between_head_and_tail_is_used_up_to_the_tail() {
    let mut allocator = Allocator::new(100, None);
    let m0 = {
        let mut frame = allocator.begin_frame();
        frame.allocate(60, 1).unwrap();
        frame.finish()
    };
    let m1 = {
        let mut frame = allocator.begin_frame();
        frame.allocate(30, 1).unwrap();
        frame.finish()
    };
    allocator.free_frame(m0);
    // live: 60..90. Wrap to the front, where 60 bytes are free.
    let m2 = {
        let mut frame = allocator.begin_frame();
        assert_eq!(
            frame.allocate(20, 1),
            Ok(Allocation {
                size: 20,
                virtual_offset: 100,
                heap_offset: 0
            })
        );
        frame.finish()
    };
    assert_eq!((m2.start, m2.end), (90, 120));
    // head at 20, tail at 60: a request that ends at the tail fits, a longer one does not
    let mut frame = allocator.begin_frame();
    assert_eq!(
        frame.allocate(41, 1),
        Err(Error::OutOfMemory {
            capacity: 100,
            available: 40,
            requested: 41
        })
    );
    assert_eq!(
        frame.allocate(40, 1),
        Ok(Allocation {
            size: 40,
            virtual_offset: 120,
            heap_offset: 20
        })
    );
    let m3 = frame.finish();
    allocator.free_frame(m1);
    allocator.free_frame(m2);
    allocator.free_frame(m3);
    assert_eq!(allocator.bytes_free(), 100);
}

#[test]
fn alignment_that_overshoots_the_ring_wraps_or_fails() {
    let mut allocator = Allocator::new(100, None);
    let m0 = {
        let mut frame = allocator.begin_frame();
        frame.allocate(90, 1).unwrap();
        frame.finish()
    };
    let mut frame = allocator.begin_frame();
    // the next multiple of 64 behind 90 lies outside the ring, and the tail is at zero
    assert_eq!(
        frame.allocate(4, 64),
        Err(Error::OutOfMemory {
            capacity: 100,
            available: 10,
            requested: 4
        })
    );
    let m1 = frame.finish();
    assert_eq!((m1.start, m1.end), (90, 90));
    allocator.free_frame(m0);
    allocator.free_frame(m1);
    let mut frame = allocator.begin_frame();
    // nothing is live: the request goes to the front
    assert_eq!(
        frame.allocate(4, 64),
        Ok(Allocation {
            size: 4,
            virtual_offset: 100,
            heap_offset: 0
        })
    );
}

#[test]
fn markers_are_accepted_in_allocation_order_only() {
    let mut allocator = Allocator::new(64, None);
    let m0 = {
        let mut frame = allocator.begin_frame();
        frame.allocate(8, 1).unwrap();
        frame.finish()
    };
    let m1 = {
        let mut frame = allocator.begin_frame();
        frame.allocate(8, 1).unwrap();
        frame.finish()
    };
    assert!(allocator.accepts(&m0));
    assert!(!allocator.accepts(&m1));
    allocator.free_frame(m0);
    assert!(!allocator.accepts(&m0));
    assert!(allocator.accepts(&m1));
    allocator.free_frame(m1);
    assert_eq!(allocator.bytes_freed(), 16);
    assert_eq!(allocator.bytes_allocated(), 16);
    assert_eq!(allocator.capacity(), 64);
}

#[test]
fn markers_compare_by_their_start() {
    let a = FrameMarker { end: 20, start: 0 };
    let b = FrameMarker { end: 99, start: 0 };
    let c = FrameMarker { end: 30, start: 20 };
    assert!(a == b);
    assert!(a != c);
    assert!(a < c);
    assert!(c > b);
    assert_eq!(a.partial_cmp(&b), Some(std::cmp::Ordering::Equal));
}

#[test]
fn upload_copies_into_the_heap() {
    let mut allocator = Allocator::new(16, Some(vec![0u8; 16]));
    let marker = {
        let mut frame = allocator.begin_frame();
        assert_eq!(frame.upload(&[1, 2, 3], 1).unwrap().heap_offset, 0);
        assert_eq!(
            frame.upload(&[9, 8], 4),
            Ok(Allocation {
                size: 2,
                virtual_offset: 4,
                heap_offset: 4
            })
        );
        frame.finish()
    };
    assert_eq!((marker.start, marker.end), (0, 6));
    assert_eq!(
        allocator.heap().unwrap().as_slice(),
        &[1, 2, 3, 0, 9, 8, 0, 0, 0, 0, 0, 0, 0, 0, 0, 0]
    );
}

#[test]
fn upload_without_heap_reserves_and_reports_no_heap() {
    let mut allocator = Allocator::new(16, None);
    let mut frame = allocator.begin_frame();
    assert_eq!(frame.upload(&[1, 2, 3], 1), Err(Error::NoHeap));
    assert_eq!(frame.upload(&[0; 17], 1), Err(Error::InsufficientCapacity));
    let marker = frame.finish();
    assert_eq!((marker.start, marker.end), (0, 3));
    assert!(allocator.heap().is_none());
}

#[test]
fn upload_rows_lays_rows_out_at_the_pitch() {
    let mut allocator = Allocator::new(16, Some(vec![7u8; 16]));
    let mut frame = allocator.begin_frame();
    frame.allocate(2, 1).unwrap();
    let staged = frame.upload_rows(&[1, 2, 3, 4, 5, 6], 2, 3, 4, 4).unwrap();
    assert_eq!(
        staged,
        Allocation {
            size: 12,
            virtual_offset: 4,
            heap_offset: 4
        }
    );
    frame.finish();
    assert_eq!(
        allocator.heap().unwrap().as_slice(),
        &[7, 7, 7, 7, 1, 2, 7, 7, 3, 4, 7, 7, 5, 6, 7, 7]
    );
}

#[test]
fn next_multiple_of_rounds_up() {
    assert_eq!(next_multiple_of(0, 4), 0);
    assert_eq!(next_multiple_of(1, 4), 4);
    assert_eq!(next_multiple_of(8, 4), 8);
    assert_eq!(next_multiple_of(90, 64), 128);
    assert_eq!(next_multiple_of(7, 1), 7);
}
