//! Bump allocator over a heap whose first byte has a known address.
//!
//! Allocations are aligned by address, not by offset: the heap itself may
//! begin anywhere.

use vstd::arithmetic::div_mod::*;
use vstd::prelude::*;

verus! {

/// Why an allocation request was turned down.
#[derive(Clone, Copy, Debug, PartialEq, Eq)]
pub enum Error {
    /// The allocator does not have enough free memory to satisfy the
    /// allocation.
    OutOfMemory,
}

/// Whether `align` is a power of two.
pub open spec fn spec_is_power_of_two(align: u64) -> bool {
    align > 0 && align & ((align - 1) as u64) == 0
}

/// Whether `align` is a power of two, as alignments are.
pub fn is_power_of_two(align: u64) -> (power: bool)
    ensures
        power == spec_is_power_of_two(align),
{
    align > 0 && align & (align - 1) == 0
}

/// Number of bytes from `address` up to the next multiple of `align`.
pub open spec fn spec_align_offset(address: int, align: int) -> int {
    (align - address % align) % align
}

/// The bytes that `spec_align_offset` adds lead to a multiple of `align`, and
/// they are fewer than `align`.
pub proof fn lemma_align_offset(address: int, align: int)
    requires
        0 <= address,
        0 < align,
    ensures
        0 <= spec_align_offset(address, align) < align,
        (address + spec_align_offset(address, align)) % align == 0,
        address % align == 0 ==> spec_align_offset(address, align) == 0,
{
    lemma_mod_bound(address, align);
    lemma_fundamental_div_mod(address, align);
    let r = address % align;
    let q = address / align;
    if r == 0 {
        lemma_mod_self_0(align);
        lemma_mod_multiples_basic(q, align);
        assert(q * align == align * q) by (nonlinear_arith);
    } else {
        lemma_small_mod((align - r) as nat, align as nat);
        assert(address + (align - r) == align * (q + 1)) by (nonlinear_arith)
            requires
                address == align * q + r,
        ;
        lemma_mod_multiples_basic(q + 1, align);
        assert((q + 1) * align == align * (q + 1)) by (nonlinear_arith);
    }
}

/// Number of bytes from `address` up to the next multiple of `align`.
pub fn align_offset(address: u64, align: u64) -> (offset: u64)
    requires
        align > 0,
    ensures
        offset == spec_align_offset(address as int, align as int),
        offset < align,
{
    proof {
        lemma_align_offset(address as int, align as int);
    }
    let remainder: u64 = address % align;
    if remainder == 0 {
        proof {
            lemma_mod_self_0(align as int);
        }
        0
    } else {
        proof {
            lemma_small_mod((align - remainder) as nat, align as nat);
        }
        align - remainder
    }
}

/// The state of a linear allocator as contracts see it.
pub struct LinearView {
    pub capacity: nat,
    /// The address of the first byte of the heap.
    pub base: nat,
    pub bytes_allocated: nat,
}

impl LinearView {
    /// The bytes that a request takes: `size` rounded up to a multiple of
    /// `align`, behind the padding that aligns its first byte.
    pub open spec fn alloc_size(self, size: nat, align: nat) -> (int, int) {
        let padding = spec_align_offset((self.base + self.bytes_allocated) as int, align as int);
        let rounded = crate::memory::temp_allocator::spec_next_multiple_of(
            size as int,
            align as int,
        );
        (padding + rounded, padding)
    }

    /// Whether a request fits behind what is allocated.
    pub open spec fn can_fit(self, size: nat, align: nat) -> bool {
        self.bytes_allocated + self.alloc_size(size, align).0 <= self.capacity
    }
}

/// An allocator that hands out the bytes of a heap from its first to its last,
/// and takes them back all at once.
pub struct LinearAllocator {
    capacity: u64,
    base: u64,
    bytes_allocated: u64,
}

impl View for LinearAllocator {
    type V = LinearView;

    closed spec fn view(&self) -> LinearView {
        LinearView {
            capacity: self.capacity as nat,
            base: self.base as nat,
            bytes_allocated: self.bytes_allocated as nat,
        }
    }
}

impl LinearAllocator {
    /// What is allocated lies within the heap, and the heap within the address
    /// space.
    pub closed spec fn wf(&self) -> bool {
        &&& self.bytes_allocated <= self.capacity
        &&& self.base + self.capacity <= u64::MAX
    }

    /// What `wf` says, over the view.
    pub proof fn lemma_wf(&self)
        requires
            self.wf(),
        ensures
            self@.bytes_allocated <= self@.capacity,
            self@.base + self@.capacity <= u64::MAX,
    {
    }

    /// An allocator over `capacity` bytes of which the first has the address
    /// `base`.
    pub fn new(capacity: u64, base: u64) -> (allocator: Self)
        requires
            base + capacity <= u64::MAX,
        ensures
            allocator.wf(),
            allocator@ == (LinearView {
                capacity: capacity as nat,
                base: base as nat,
                bytes_allocated: 0,
            }),
    {
        Self { capacity, base, bytes_allocated: 0 }
    }

    /// Number of bytes that are handed out, padding included.
    pub fn bytes_allocated(&self) -> (bytes: u64)
        ensures
            bytes == self@.bytes_allocated,
    {
        self.bytes_allocated
    }

    /// Whether every byte is handed out.
    pub fn is_full(&self) -> (full: bool)
        ensures
            full == (self@.bytes_allocated == self@.capacity),
    {
        self.bytes_allocated == self.capacity
    }

    /// Number of bytes in the heap.
    pub fn capacity(&self) -> (capacity: u64)
        ensures
            capacity == self@.capacity,
    {
        self.capacity
    }

    /// The bytes that a request takes and the padding in front of it, where the
    /// request fits.
    fn alloc_size(&self, size: u64, align: u64) -> (r: Option<(u64, u64)>)
        requires
            self.wf(),
            align > 0,
        ensures
            match r {
                Some((bytes, padding)) => self@.can_fit(size as nat, align as nat) && (
                    bytes as int,
                    padding as int,
                ) == self@.alloc_size(size as nat, align as nat),
                None => !self@.can_fit(size as nat, align as nat),
            },
    {
        proof {
            lemma_align_offset((self.base + self.bytes_allocated) as int, align as int);
            crate::memory::temp_allocator::lemma_next_multiple_of(size as int, align as int);
        }
        let room: u64 = self.capacity - self.bytes_allocated;
        let padding: u64 = align_offset(self.base + self.bytes_allocated, align);
        if padding > room || size > room - padding {
            return None;
        }
        let remainder: u64 = size % align;
        let rounding: u64 = if remainder == 0 {
            0
        } else {
            align - remainder
        };
        if rounding > room - padding - size {
            return None;
        }
        Some((padding + size + rounding, padding))
    }

    /// Whether a request for `size` bytes at a multiple of `align` fits.
    pub fn can_fit(&self, size: u64, align: u64) -> (fits: bool)
        requires
            self.wf(),
            spec_is_power_of_two(align),
        ensures
            fits == self@.can_fit(size as nat, align as nat),
    {
        self.alloc_size(size, align).is_some()
    }

    /// Reserves `size` bytes whose first byte has an address that is a multiple
    /// of `align`, and returns the offset of that byte from the start of the
    /// heap. The bytes up to the next multiple of `align` behind the request are
    /// reserved with it.
    pub fn allocate(&mut self, size: u64, align: u64) -> (r: Result<u64, Error>)
        requires
            old(self).wf(),
            spec_is_power_of_two(align),
        ensures
            final(self).wf(),
            match r {
                Ok(offset) => {
                    &&& old(self)@.can_fit(size as nat, align as nat)
                    &&& offset == old(self)@.bytes_allocated + old(self)@.alloc_size(
                        size as nat,
                        align as nat,
                    ).1
                    &&& final(self)@ == (LinearView {
                        bytes_allocated: (old(self)@.bytes_allocated + old(self)@.alloc_size(
                            size as nat,
                            align as nat,
                        ).0) as nat,
                        ..old(self)@
                    })
                },
                Err(e) => {
                    &&& e == Error::OutOfMemory
                    &&& !old(self)@.can_fit(size as nat, align as nat)
                    &&& final(self)@ == old(self)@
                },
            },
    {
        match self.alloc_size(size, align) {
            None => Err(Error::OutOfMemory),
            Some((alloc_size, align_amount)) => {
                proof {
                    lemma_align_offset((self.base + self.bytes_allocated) as int, align as int);
                    crate::memory::temp_allocator::lemma_next_multiple_of(
                        size as int,
                        align as int,
                    );
                }
                let offset: u64 = self.bytes_allocated + align_amount;
                self.bytes_allocated = self.bytes_allocated + alloc_size;
                Ok(offset)
            },
        }
    }

    /// Gives up everything that is allocated.
    pub fn clear(&mut self)
        ensures
            final(self)@ == (LinearView { bytes_allocated: 0, ..old(self)@ }),
            old(self).wf() ==> final(self).wf(),
    {
        self.bytes_allocated = 0;
    }
}

/// What is handed out lies within the heap behind everything that was handed
/// out before, and its first byte has an address that is a multiple of the
/// alignment.
pub proof fn lemma_allocation_is_aligned_and_new(view: LinearView, size: nat, align: nat)
    requires
        view.bytes_allocated <= view.capacity,
        align > 0,
        view.can_fit(size, align),
    ensures
        ({
            let offset = view.bytes_allocated + view.alloc_size(size, align).1;
            &&& view.bytes_allocated <= offset
            &&& offset + size <= view.bytes_allocated + view.alloc_size(size, align).0
            &&& offset + size <= view.capacity
            &&& (view.base + offset) % (align as int) == 0
        }),
{
    lemma_align_offset((view.base + view.bytes_allocated) as int, align as int);
    crate::memory::temp_allocator::lemma_next_multiple_of(size as int, align as int);
}

} // verus!
