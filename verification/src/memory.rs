//! Allocators for GPU-visible memory: a ring of transient per-frame bytes and
//! a table of fixed-size slots.

use vstd::prelude::*;

pub mod block_allocator;
pub mod temp_allocator;

verus! {

/// Why an allocation request was turned down.
#[derive(Debug, PartialEq, Eq)]
pub enum Error {
    /// The heap does not have enough free memory to satisfy the allocation
    /// request.
    OutOfMemory { capacity: u64, available: u64, requested: u64 },
    /// The heap is not large enough to satisfy the allocation request.
    InsufficientCapacity,
    /// The allocator does not have access to the heap.
    NoHeap,
}

/// Byte offset into the address space that a block allocator manages.
#[derive(Clone, Copy, Debug, Default, PartialEq, Eq, PartialOrd, Ord, Hash)]
pub struct HeapOffset(pub u64);

} // verus!
