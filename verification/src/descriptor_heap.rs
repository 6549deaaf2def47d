//! Resource views: slots of a descriptor table, named by their addresses.

use crate::memory::block_allocator::BlockAllocator;
use crate::memory::block_allocator::BlockAllocatorView;
use crate::memory::Error;
use crate::memory::HeapOffset;
use vstd::prelude::*;

verus! {

/// The addresses of a resource view: where the CPU writes it, and where the GPU
/// reads it, if the table is visible to shaders; zero where it is not.
#[derive(Debug, Default, Clone, Copy, PartialEq, Eq)]
pub struct Descriptor {
    pub cpu: u64,
    pub gpu: u64,
}

/// The state of a descriptor heap as contracts see it.
pub struct DescriptorHeapView {
    /// The CPU address of the first slot.
    pub cpu_start: u64,
    /// The GPU address of the first slot; zero for a table that shaders do not
    /// see.
    pub gpu_start: u64,
    pub slots: BlockAllocatorView,
}

impl DescriptorHeapView {
    /// The view at `offset` from the start of the table.
    pub open spec fn shader_view_at(self, offset: HeapOffset) -> Descriptor {
        Descriptor {
            cpu: (self.cpu_start + offset.0) as u64,
            gpu: (self.gpu_start + offset.0) as u64,
        }
    }

    /// The view at `offset` from the start of the table, for the CPU alone.
    pub open spec fn target_view_at(self, offset: HeapOffset) -> Descriptor {
        Descriptor { cpu: (self.cpu_start + offset.0) as u64, gpu: 0 }
    }

    /// The offset of `descriptor` from the start of the table.
    pub open spec fn offset_of(self, descriptor: Descriptor) -> HeapOffset {
        HeapOffset((descriptor.cpu - self.cpu_start) as u64)
    }

    /// Whether `descriptor` is a view of this table that is handed out.
    pub open spec fn is_allocated(self, descriptor: Descriptor) -> bool {
        descriptor.cpu >= self.cpu_start && self.slots.is_allocated(self.offset_of(descriptor))
    }
}

/// A table of resource views of one size.
pub struct DescriptorHeap {
    cpu_start: u64,
    gpu_start: u64,
    allocator: BlockAllocator,
}

impl View for DescriptorHeap {
    type V = DescriptorHeapView;

    closed spec fn view(&self) -> DescriptorHeapView {
        DescriptorHeapView {
            cpu_start: self.cpu_start,
            gpu_start: self.gpu_start,
            slots: self.allocator@,
        }
    }
}

impl DescriptorHeap {
    /// The slots are sound, and the address of every slot fits in 64 bits.
    pub closed spec fn wf(&self) -> bool {
        &&& self.allocator.wf()
        &&& self.cpu_start + self@.slots.capacity * self@.slots.block_size <= u64::MAX
        &&& self.gpu_start + self@.slots.capacity * self@.slots.block_size <= u64::MAX
    }

    /// A table of `max_descriptors` views of `increment` bytes each that starts
    /// at the given addresses, with every view free.
    pub fn new(cpu_start: u64, gpu_start: u64, increment: u64, max_descriptors: u32) -> (heap: Self)
        requires
            increment > 0,
            increment * max_descriptors < u64::MAX,
            cpu_start + increment * max_descriptors <= u64::MAX,
            gpu_start + increment * max_descriptors <= u64::MAX,
        ensures
            heap.wf(),
            heap@.cpu_start == cpu_start,
            heap@.gpu_start == gpu_start,
            heap@.slots == (BlockAllocatorView {
                block_size: increment as nat,
                capacity: max_descriptors as nat,
                free: Seq::new(max_descriptors as nat, |i: int| i as nat),
            }),
    {
        let heap = Self {
            cpu_start,
            gpu_start,
            allocator: BlockAllocator::new(HeapOffset(increment), max_descriptors),
        };
        assert(heap@.slots.capacity * heap@.slots.block_size == increment * max_descriptors)
            by (nonlinear_arith)
            requires
                heap@.slots.capacity == max_descriptors,
                heap@.slots.block_size == increment,
        ;
        heap
    }

    /// Takes the next free slot and returns its offset.
    fn take_slot(&mut self) -> (r: Result<HeapOffset, Error>)
        requires
            old(self).wf(),
        ensures
            final(self).wf(),
            final(self)@.cpu_start == old(self)@.cpu_start,
            final(self)@.gpu_start == old(self)@.gpu_start,
            old(self)@.slots.free.len() > 0 ==> r == Ok::<HeapOffset, Error>(
                old(self)@.slots.offset_of(old(self)@.slots.free[0]),
            ) && final(self)@.slots == (BlockAllocatorView {
                free: old(self)@.slots.free.drop_first(),
                ..old(self)@.slots
            }) && r->Ok_0.0 + old(self)@.cpu_start <= u64::MAX && r->Ok_0.0 + old(self)@.gpu_start
                <= u64::MAX,
            old(self)@.slots.free.len() == 0 ==> r == Err::<HeapOffset, Error>(
                Error::OutOfMemory {
                    capacity: old(self)@.slots.capacity as u64,
                    available: 0,
                    requested: 1,
                },
            ) && final(self)@.slots == old(self)@.slots,
    {
        proof {
            self.allocator.lemma_wf();
            if self@.slots.free.len() > 0 {
                let index = self@.slots.free[0];
                crate::memory::block_allocator::lemma_offset_of(self@.slots, index);
                assert(index * self@.slots.block_size <= self@.slots.capacity
                    * self@.slots.block_size) by (nonlinear_arith)
                    requires
                        index < self@.slots.capacity,
                ;
            }
        }
        self.allocator.allocate()
    }

    /// Hands out a view that shaders can read, or fails with `OutOfMemory` when
    /// the table is full.
    pub fn create_shader_resource_view(&mut self) -> (r: Result<Descriptor, Error>)
        requires
            old(self).wf(),
        ensures
            final(self).wf(),
            final(self)@.cpu_start == old(self)@.cpu_start,
            final(self)@.gpu_start == old(self)@.gpu_start,
            old(self)@.slots.free.len() > 0 ==> r == Ok::<Descriptor, Error>(
                old(self)@.shader_view_at(old(self)@.slots.offset_of(old(self)@.slots.free[0])),
            ) && final(self)@.slots == (BlockAllocatorView {
                free: old(self)@.slots.free.drop_first(),
                ..old(self)@.slots
            }),
            old(self)@.slots.free.len() == 0 ==> r == Err::<Descriptor, Error>(
                Error::OutOfMemory {
                    capacity: old(self)@.slots.capacity as u64,
                    available: 0,
                    requested: 1,
                },
            ) && final(self)@.slots == old(self)@.slots,
    {
        match self.take_slot() {
            Ok(offset) => Ok(
                Descriptor { cpu: self.cpu_start + offset.0, gpu: self.gpu_start + offset.0 },
            ),
            Err(e) => Err(e),
        }
    }

    /// Hands out a view for the CPU alone, as render targets have them, or fails
    /// with `OutOfMemory` when the table is full.
    pub fn create_render_target_view(&mut self) -> (r: Result<Descriptor, Error>)
        requires
            old(self).wf(),
        ensures
            final(self).wf(),
            final(self)@.cpu_start == old(self)@.cpu_start,
            final(self)@.gpu_start == old(self)@.gpu_start,
            old(self)@.slots.free.len() > 0 ==> r == Ok::<Descriptor, Error>(
                old(self)@.target_view_at(old(self)@.slots.offset_of(old(self)@.slots.free[0])),
            ) && final(self)@.slots == (BlockAllocatorView {
                free: old(self)@.slots.free.drop_first(),
                ..old(self)@.slots
            }),
            old(self)@.slots.free.len() == 0 ==> r == Err::<Descriptor, Error>(
                Error::OutOfMemory {
                    capacity: old(self)@.slots.capacity as u64,
                    available: 0,
                    requested: 1,
                },
            ) && final(self)@.slots == old(self)@.slots,
    {
        match self.take_slot() {
            Ok(offset) => Ok(Descriptor { cpu: self.cpu_start + offset.0, gpu: 0 }),
            Err(e) => Err(e),
        }
    }

    /// Whether `descriptor` is a view of this table that is handed out.
    pub fn is_allocated(&self, descriptor: &Descriptor) -> (allocated: bool)
        requires
            self.wf(),
        ensures
            allocated == self@.is_allocated(*descriptor),
    {
        descriptor.cpu >= self.cpu_start && self.allocator.is_allocated(
            HeapOffset(descriptor.cpu - self.cpu_start),
        )
    }

    /// Takes back a view that was handed out. Its slot is the next one to be
    /// handed out again.
    pub fn free(&mut self, descriptor: Descriptor)
        requires
            old(self).wf(),
            old(self)@.is_allocated(descriptor),
        ensures
            final(self).wf(),
            final(self)@ == (DescriptorHeapView {
                slots: BlockAllocatorView {
                    free: seq![
                        old(self)@.offset_of(descriptor).0 as nat / old(self)@.slots.block_size,
                    ] + old(self)@.slots.free,
                    ..old(self)@.slots
                },
                ..old(self)@
            }),
    {
        let offset: u64 = descriptor.cpu - self.cpu_start;
        self.allocator.free(HeapOffset(offset));
    }
}

} // verus!
