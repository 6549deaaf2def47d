//! Ring allocator over a heap whose first byte has a known address.
//!
//! Memory is handed out at the head of a fixed-size ring and released at its
//! tail, in the order in which it was handed out. Allocations are aligned by
//! address: the heap itself may begin anywhere.

use crate::linear_allocator::align_offset;
use crate::linear_allocator::lemma_align_offset;
use crate::linear_allocator::spec_align_offset;
use crate::linear_allocator::spec_is_power_of_two;
use crate::memory::temp_allocator::lemma_live_positions;
use crate::memory::temp_allocator::lemma_next_multiple_of;
use crate::memory::temp_allocator::spec_next_multiple_of;
use vstd::arithmetic::div_mod::*;
use vstd::prelude::*;

verus! {

/// Why an allocation request was turned down.
#[derive(Clone, Copy, Debug, PartialEq, Eq)]
pub enum Error {
    /// The allocator does not have enough free memory to satisfy the
    /// allocation.
    OutOfMemory,
    /// The allocator is not large enough to satisfy the allocation.
    InsufficientCapacity,
}

/// A stretch of the ring that was handed out.
#[derive(Debug, PartialEq, Eq)]
pub struct Allocation {
    size: u32,
    alloc_id: u32,
    offset: u64,
}

/// An allocation as contracts see it.
pub struct AllocationView {
    /// Number of bytes: what was asked for, rounded up to the alignment.
    pub size: u32,
    /// The number of the allocation; allocations are released by number.
    pub alloc_id: u32,
    /// Position in the counter space of the ring, which never wraps. The offset
    /// from the start of the heap is this value modulo the capacity.
    pub offset: u64,
}

impl View for Allocation {
    type V = AllocationView;

    closed spec fn view(&self) -> AllocationView {
        AllocationView { size: self.size, alloc_id: self.alloc_id, offset: self.offset }
    }
}

impl Allocation {
    /// Number of bytes: what was asked for, rounded up to the alignment.
    pub fn size(&self) -> (size: u32)
        ensures
            size == self@.size,
    {
        self.size
    }

    /// The number of the allocation; allocations are released by number.
    pub fn alloc_id(&self) -> (id: u32)
        ensures
            id == self@.alloc_id,
    {
        self.alloc_id
    }

    /// Position in the counter space of the ring. The offset from the start of
    /// the heap is this value modulo the capacity.
    pub fn offset(&self) -> (offset: u64)
        ensures
            offset == self@.offset,
    {
        self.offset
    }
}

/// The state of a ring allocator as contracts see it.
pub struct RingView {
    pub capacity: nat,
    /// The address of the first byte of the heap.
    pub base: nat,
    /// The counter value behind the last allocation.
    pub allocated: nat,
    /// The counter value up to which memory was released.
    pub deallocated: nat,
    /// Number of allocations that were handed out.
    pub served: u32,
    /// Number of allocations that were released.
    pub freed: u32,
}

/// Where a request lands: its counter position, and the counter value up to
/// which memory counts as released once it is placed.
pub struct RingFit {
    pub offset: nat,
    pub deallocated: nat,
}

impl RingView {
    /// The counters are ordered, what is live fits in the ring, and the ring in
    /// the address space.
    pub open spec fn wf(self) -> bool {
        &&& self.capacity > 0
        &&& self.deallocated <= self.allocated
        &&& self.allocated - self.deallocated <= self.capacity
        &&& self.base + self.capacity <= u64::MAX
        &&& self.freed <= self.served
    }

    /// The offset of the head from the start of the heap.
    pub open spec fn head(self) -> nat {
        self.allocated % self.capacity
    }

    /// The offset of the tail from the start of the heap.
    pub open spec fn tail(self) -> nat {
        self.deallocated % self.capacity
    }

    /// A request placed at the first aligned address behind the head.
    pub open spec fn fit_at_head(self, align: nat) -> RingFit {
        RingFit {
            offset: (self.allocated + spec_align_offset(
                (self.base + self.head()) as int,
                align as int,
            )) as nat,
            deallocated: self.deallocated,
        }
    }

    /// A request placed at the first aligned address of the heap, skipping what
    /// is left behind the head.
    pub open spec fn fit_at_start(self, align: nat) -> RingFit {
        RingFit {
            offset: (self.allocated + (self.capacity - self.head()) + spec_align_offset(
                self.base as int,
                align as int,
            )) as nat,
            deallocated: self.deallocated,
        }
    }

    /// The placement rule for a request of `size` bytes, which is a multiple of
    /// `align`.
    ///
    /// With nothing live the request goes behind the head if it fits there, else
    /// to the start of the heap, and the tail moves up to it. With the whole ring
    /// live nothing fits. In between, the request goes behind the head if it fits
    /// there without crossing the end of the heap or the tail, else to the start
    /// of the heap if it fits in front of the tail.
    #[verifier::opaque]
    pub open spec fn fit(self, size: nat, align: nat) -> Option<RingFit> {
        let head = self.head();
        let tail = self.tail();
        let live = self.allocated - self.deallocated;
        let at_head = head + spec_align_offset((self.base + head) as int, align as int);
        let at_start = spec_align_offset(self.base as int, align as int);
        if live == 0 {
            if at_head + size <= self.capacity {
                Some(
                    RingFit {
                        deallocated: self.fit_at_head(align).offset,
                        ..self.fit_at_head(align)
                    },
                )
            } else if at_start + size <= self.capacity {
                Some(
                    RingFit {
                        deallocated: self.fit_at_start(align).offset,
                        ..self.fit_at_start(align)
                    },
                )
            } else {
                None
            }
        } else if live >= self.capacity {
            None
        } else if head > tail {
            if at_head + size <= self.capacity {
                Some(self.fit_at_head(align))
            } else if at_start + size <= tail {
                Some(self.fit_at_start(align))
            } else {
                None
            }
        } else {
            if at_head + size <= tail {
                Some(self.fit_at_head(align))
            } else {
                None
            }
        }
    }

    /// What `allocate` answers to a request for `size` bytes at a multiple of
    /// `align`.
    pub open spec fn outcome(self, size: nat, align: nat) -> Result<AllocationView, Error> {
        let aligned_size = spec_next_multiple_of(size as int, align as int) as nat;
        if aligned_size > self.capacity {
            Err(Error::InsufficientCapacity)
        } else {
            match self.fit(aligned_size, align) {
                Some(fit) => Ok(
                    AllocationView {
                        size: aligned_size as u32,
                        alloc_id: self.served,
                        offset: fit.offset as u64,
                    },
                ),
                None => Err(Error::OutOfMemory),
            }
        }
    }

    /// The ring after the request was answered.
    pub open spec fn after(self, size: nat, align: nat) -> RingView {
        let aligned_size = spec_next_multiple_of(size as int, align as int) as nat;
        if aligned_size > self.capacity {
            self
        } else {
            match self.fit(aligned_size, align) {
                Some(fit) => RingView {
                    allocated: fit.offset + aligned_size,
                    deallocated: fit.deallocated,
                    served: (self.served + 1) as u32,
                    ..self
                },
                None => self,
            }
        }
    }

    /// Whether `allocation` is the next one to be released: it has the number
    /// of the next release and lies in what is live.
    pub open spec fn can_free(self, allocation: AllocationView) -> bool {
        &&& allocation.alloc_id == self.freed
        &&& self.freed < self.served
        &&& self.deallocated <= allocation.offset
        &&& allocation.offset + allocation.size <= self.allocated
    }
}

/// An allocator of memory from a fixed-size ring buffer.
///
/// Memory must be freed in the same order it was allocated.
pub struct RingAllocator {
    capacity: u64,
    base: u64,
    bytes_allocated: u64,
    bytes_deallocated: u64,
    allocations_served: u32,
    allocations_freed: u32,
}

impl View for RingAllocator {
    type V = RingView;

    closed spec fn view(&self) -> RingView {
        RingView {
            capacity: self.capacity as nat,
            base: self.base as nat,
            allocated: self.bytes_allocated as nat,
            deallocated: self.bytes_deallocated as nat,
            served: self.allocations_served,
            freed: self.allocations_freed,
        }
    }
}

/// Wherever the ring places a request, the request lies within the heap
/// without crossing its end, behind everything that was handed out before,
/// and what is live afterwards fits in the ring. A request that is not empty
/// begins at an address that is a multiple of the alignment.
pub proof fn lemma_fit_in_bounds(ring: RingView, size: nat, align: nat)
    requires
        ring.wf(),
        align > 0,
        size <= ring.capacity,
        ring.fit(size, align) is Some,
    ensures
        ({
            let fit = ring.fit(size, align)->0;
            let position = fit.offset % ring.capacity;
            &&& ring.allocated <= fit.offset
            &&& fit.offset + size <= ring.allocated + 2 * ring.capacity
            &&& ring.deallocated <= fit.deallocated <= fit.offset
            &&& fit.offset + size - fit.deallocated <= ring.capacity
            &&& position + size <= ring.capacity
            &&& size > 0 ==> (ring.base + position) as int % (align as int) == 0
        }),
{
    reveal(RingView::fit);
    let c = ring.capacity as int;
    let head = ring.head() as int;
    let tail = ring.tail() as int;
    let fit = ring.fit(size, align)->0;
    lemma_mod_bound(ring.allocated as int, c);
    lemma_mod_bound(ring.deallocated as int, c);
    lemma_fundamental_div_mod(ring.allocated as int, c);
    lemma_fundamental_div_mod(ring.deallocated as int, c);
    lemma_align_offset(ring.base + head, align as int);
    lemma_align_offset(ring.base as int, align as int);
    let q = ring.allocated as int / c;
    let live = ring.allocated - ring.deallocated;
    if 0 < live < c {
        lemma_live_positions(ring.capacity, ring.deallocated, ring.allocated, ring.deallocated as int);
        let qd = ring.deallocated as int / c;
        if head > tail {
            assert(q == qd) by (nonlinear_arith)
                requires
                    ring.allocated == c * q + head,
                    ring.deallocated == c * qd + tail,
                    0 <= tail < head < c,
                    0 < ring.allocated - ring.deallocated < c,
            ;
        } else {
            assert(q == qd + 1) by (nonlinear_arith)
                requires
                    ring.allocated == c * q + head,
                    ring.deallocated == c * qd + tail,
                    0 <= head < tail < c,
                    0 < ring.allocated - ring.deallocated < c,
            ;
            assert(c * q == c * qd + c) by (nonlinear_arith)
                requires
                    q == qd + 1,
            ;
        }
    }
    let at_head = head + spec_align_offset(ring.base + head, align as int);
    let at_start = spec_align_offset(ring.base as int, align as int);
    let limit = if live == 0 || head > tail {
        c
    } else {
        tail
    };
    assert((q + 1) * c == c * (q + 1)) by (nonlinear_arith);
    assert(q * c == c * q) by (nonlinear_arith);
    if at_head + size <= limit {
        assert(fit.offset == c * q + at_head);
        if at_head < c {
            lemma_fundamental_div_mod_converse(fit.offset as int, c, q, at_head);
        } else {
            assert(fit.offset == c * (q + 1) + 0) by (nonlinear_arith)
                requires
                    fit.offset == c * q + at_head,
                    at_head == c,
            ;
            lemma_fundamental_div_mod_converse(fit.offset as int, c, q + 1, 0);
        }
    } else {
        assert(fit.offset == c * (q + 1) + at_start) by (nonlinear_arith)
            requires
                fit.offset == ring.allocated + (c - head) + at_start,
                ring.allocated == c * q + head,
        ;
        if at_start < c {
            lemma_fundamental_div_mod_converse(fit.offset as int, c, q + 1, at_start);
        } else {
            assert(fit.offset == c * (q + 2) + 0) by (nonlinear_arith)
                requires
                    fit.offset == c * (q + 1) + at_start,
                    at_start == c,
            ;
            assert((q + 2) * c == c * (q + 2)) by (nonlinear_arith);
            lemma_fundamental_div_mod_converse(fit.offset as int, c, q + 2, 0);
        }
    }
}

/// The ring hands out no byte that is live.
pub proof fn lemma_fit_is_free(ring: RingView, size: nat, align: nat, byte: int)
    requires
        ring.wf(),
        align > 0,
        0 < size <= ring.capacity,
        ring.fit(size, align) is Some,
        ring.fit(size, align)->0.deallocated <= byte < ring.allocated,
    ensures
        ({
            let position = ring.fit(size, align)->0.offset % ring.capacity;
            !(position <= byte % (ring.capacity as int) < position + size)
        }),
{
    reveal(RingView::fit);
    lemma_fit_in_bounds(ring, size, align);
    let c = ring.capacity as int;
    let head = ring.head() as int;
    let fit = ring.fit(size, align)->0;
    lemma_mod_bound(ring.allocated as int, c);
    lemma_fundamental_div_mod(ring.allocated as int, c);
    lemma_align_offset(ring.base + head, align as int);
    lemma_align_offset(ring.base as int, align as int);
    let q = ring.allocated as int / c;
    lemma_live_positions(ring.capacity, ring.deallocated, ring.allocated, byte);
    let tail = ring.tail() as int;
    let at_head = head + spec_align_offset(ring.base + head, align as int);
    let at_start = spec_align_offset(ring.base as int, align as int);
    let limit = if head > tail {
        c
    } else {
        tail
    };
    assert((q + 1) * c == c * (q + 1)) by (nonlinear_arith);
    assert(q * c == c * q) by (nonlinear_arith);
    if at_head + size <= limit {
        assert(fit.offset == c * q + at_head);
        lemma_fundamental_div_mod_converse(fit.offset as int, c, q, at_head);
    } else {
        assert(fit.offset == c * (q + 1) + at_start) by (nonlinear_arith)
            requires
                fit.offset == ring.allocated + (c - head) + at_start,
                ring.allocated == c * q + head,
        ;
        lemma_fundamental_div_mod_converse(fit.offset as int, c, q + 1, at_start);
    }
}

impl RingAllocator {
    /// The view is sound.
    pub open spec fn wf(&self) -> bool {
        self@.wf()
    }

    /// An empty ring over `capacity` bytes of which the first has the address
    /// `base`.
    pub fn new(capacity: u64, base: u64) -> (ring: Self)
        requires
            capacity > 0,
            base + capacity <= u64::MAX,
        ensures
            ring.wf(),
            ring@ == (RingView {
                capacity: capacity as nat,
                base: base as nat,
                allocated: 0,
                deallocated: 0,
                served: 0,
                freed: 0,
            }),
    {
        Self {
            capacity,
            base,
            bytes_allocated: 0,
            bytes_deallocated: 0,
            allocations_served: 0,
            allocations_freed: 0,
        }
    }

    /// Number of bytes in the ring.
    pub fn capacity(&self) -> (capacity: u64)
        ensures
            capacity == self@.capacity,
    {
        self.capacity
    }

    /// The counter value behind the last allocation.
    pub fn bytes_allocated(&self) -> (bytes: u64)
        ensures
            bytes == self@.allocated,
    {
        self.bytes_allocated
    }

    /// The counter value up to which memory was released.
    pub fn bytes_deallocated(&self) -> (bytes: u64)
        ensures
            bytes == self@.deallocated,
    {
        self.bytes_deallocated
    }

    /// Number of allocations that were handed out.
    pub fn allocations_served(&self) -> (count: u32)
        ensures
            count == self@.served,
    {
        self.allocations_served
    }

    /// Number of allocations that were released.
    pub fn allocations_freed(&self) -> (count: u32)
        ensures
            count == self@.freed,
    {
        self.allocations_freed
    }

    /// Returns true if the allocator has no extant allocations.
    pub fn is_free(&self) -> (free: bool)
        ensures
            free == (self@.allocated == self@.deallocated),
    {
        self.bytes_allocated == self.bytes_deallocated
    }

    /// Returns true if the allocator cannot satisfy any more allocations.
    pub fn is_full(&self) -> (full: bool)
        requires
            self.wf(),
        ensures
            full == (self@.allocated - self@.deallocated == self@.capacity),
    {
        self.bytes_allocated - self.bytes_deallocated == self.capacity
    }

    /// Whether a request can be made: the alignment is a power of two, the
    /// request, rounded up to it, is smaller than four gibibytes, and the
    /// counters have room.
    pub fn accepts(&self, size: u64, align: u64) -> (ok: bool)
        requires
            self.wf(),
        ensures
            ok == (spec_is_power_of_two(align) && spec_next_multiple_of(size as int, align as int)
                <= u32::MAX && self@.served < u32::MAX && self@.allocated + 2 * self@.capacity
                <= u64::MAX),
    {
        if !crate::linear_allocator::is_power_of_two(align) {
            return false;
        }
        proof {
            lemma_next_multiple_of(size as int, align as int);
        }
        let max: u64 = u32::MAX as u64;
        if size > max {
            return false;
        }
        let remainder: u64 = size % align;
        let rounding: u64 = if remainder == 0 {
            0
        } else {
            align - remainder
        };
        rounding <= max - size && self.allocations_served < u32::MAX && self.capacity <= u64::MAX
            / 2 && self.bytes_allocated <= u64::MAX - 2 * self.capacity
    }

    /// Allocates a region of `size` bytes whose first byte has an address that
    /// is a multiple of `align`. The size is rounded up to a multiple of `align`.
    ///
    /// Returns `Error::InsufficientCapacity` if the ring is not large enough to
    /// satisfy the request, and `Error::OutOfMemory` if it cannot satisfy the
    /// request due to extant allocations. A request that fails leaves the ring
    /// as it was.
    ///
    /// The alignment is a power of two, and the rounded size is smaller than
    /// four gibibytes.
    pub fn allocate(&mut self, size: u64, align: u64) -> (r: Result<Allocation, Error>)
        requires
            old(self).wf(),
            spec_is_power_of_two(align),
            spec_next_multiple_of(size as int, align as int) <= u32::MAX,
            old(self)@.served < u32::MAX,
            old(self)@.allocated + 2 * old(self)@.capacity <= u64::MAX,
        ensures
            final(self).wf(),
            final(self)@ == old(self)@.after(size as nat, align as nat),
            match r {
                Ok(allocation) => old(self)@.outcome(size as nat, align as nat) == Ok::<
                    AllocationView,
                    Error,
                >(allocation@),
                Err(e) => old(self)@.outcome(size as nat, align as nat) == Err::<
                    AllocationView,
                    Error,
                >(e),
            },
    {
        proof {
            reveal(RingView::fit);
            lemma_next_multiple_of(size as int, align as int);
        }
        let aligned_size: u64 = crate::memory::temp_allocator::next_multiple_of(size, align);
        if aligned_size > self.capacity {
            return Err(Error::InsufficientCapacity);
        }
        // allocate from head, free from tail
        let heap_tail: u64 = self.bytes_deallocated % self.capacity;
        let heap_head: u64 = self.bytes_allocated % self.capacity;
        let live: u64 = self.bytes_allocated - self.bytes_deallocated;

        // The heap may begin at an address that is not aligned.
        let aligned_head_amount: u64 = align_offset(self.base + heap_head, align);
        let aligned_start: u64 = align_offset(self.base, align);

        // `Some(false)` places behind the head, `Some(true)` at the start of the heap.
        let at_start: Option<bool> = if live == 0 {
            if has_room(heap_head, aligned_head_amount, aligned_size, self.capacity) {
                Some(false)
            } else if has_room(0, aligned_start, aligned_size, self.capacity) {
                Some(true)
            } else {
                None
            }
        } else if live >= self.capacity {
            None
        } else if heap_head > heap_tail {
            if has_room(heap_head, aligned_head_amount, aligned_size, self.capacity) {
                Some(false)
            } else if has_room(0, aligned_start, aligned_size, heap_tail) {
                Some(true)
            } else {
                None
            }
        } else {
            if has_room(heap_head, aligned_head_amount, aligned_size, heap_tail) {
                Some(false)
            } else {
                None
            }
        };
        match at_start {
            None => Err(Error::OutOfMemory),
            Some(wrapped) => {
                proof {
                    lemma_fit_in_bounds(old(self)@, aligned_size as nat, align as nat);
                }
                let alloc_offset: u64 = if wrapped {
                    self.bytes_allocated + (self.capacity - heap_head) + aligned_start
                } else {
                    self.bytes_allocated + aligned_head_amount
                };
                if live == 0 {
                    self.bytes_deallocated = alloc_offset;
                }
                let alloc = Allocation {
                    size: aligned_size as u32,
                    alloc_id: self.allocations_served,
                    offset: alloc_offset,
                };
                self.bytes_allocated = alloc_offset + aligned_size;
                self.allocations_served = self.allocations_served + 1;
                Ok(alloc)
            },
        }
    }

    /// Whether `allocation` is the next one to be released.
    pub fn can_free(&self, allocation: &Allocation) -> (ok: bool)
        ensures
            ok == self@.can_free(allocation@),
    {
        allocation.alloc_id == self.allocations_freed && self.allocations_freed
            < self.allocations_served && self.bytes_deallocated <= allocation.offset
            && allocation.size as u64 <= u64::MAX - allocation.offset && allocation.offset
            + allocation.size as u64 <= self.bytes_allocated
    }

    /// Frees an allocation.
    ///
    /// Allocations must be freed in the same order they were allocated: the
    /// allocation is the oldest that was not freed yet.
    pub fn free(&mut self, allocation: Allocation)
        requires
            old(self).wf(),
            old(self)@.can_free(allocation@),
        ensures
            final(self).wf(),
            final(self)@ == (RingView {
                deallocated: (allocation@.offset + allocation@.size) as nat,
                freed: (old(self)@.freed + 1) as u32,
                ..old(self)@
            }),
    {
        self.allocations_freed = self.allocations_freed + 1;
        self.bytes_deallocated = allocation.offset + allocation.size as u64;
    }
}

/// Whether `size` bytes fit behind `pad` bytes of padding from `start` on
/// without reaching `limit`.
fn has_room(start: u64, pad: u64, size: u64, limit: u64) -> (fits: bool)
    ensures
        fits == (start + pad + size <= limit),
{
    start <= limit && pad <= limit - start && size <= limit - start - pad
}

} // verus!
