//! Allocator of equal-size slots from a table whose capacity is fixed when it
//! is made.
//!
//! The free slots form a stack: each free slot stores the index of the next
//! one, and the slot that was freed last is handed out first.

use super::Error;
use super::HeapOffset;
use vstd::prelude::*;

verus! {

#[derive(Clone, Copy, Debug, Default)]
struct Block {
    start: HeapOffset,
    next: usize,
}

/// The state of a block allocator as contracts see it.
pub struct BlockAllocatorView {
    /// Size of one slot in bytes.
    pub block_size: nat,
    /// Number of slots.
    pub capacity: nat,
    /// Indices of the free slots, the one that is handed out next first.
    pub free: Seq<nat>,
}

impl BlockAllocatorView {
    /// The offset of the slot with the given index.
    pub open spec fn offset_of(self, index: nat) -> HeapOffset {
        HeapOffset((index * self.block_size) as u64)
    }

    /// Whether `offset` is the offset of a slot that is handed out.
    pub open spec fn is_allocated(self, offset: HeapOffset) -> bool {
        &&& offset.0 as nat % self.block_size == 0
        &&& offset.0 as nat / self.block_size < self.capacity
        &&& !self.free.contains(offset.0 as nat / self.block_size)
    }
}

/// Hands out and takes back the slots of a table.
pub struct BlockAllocator {
    blocks: Vec<Block>,
    block_size: HeapOffset,
    first_free_block: usize,
    free: Ghost<Seq<nat>>,
}

impl View for BlockAllocator {
    type V = BlockAllocatorView;

    closed spec fn view(&self) -> BlockAllocatorView {
        BlockAllocatorView {
            block_size: self.block_size.0 as nat,
            capacity: self.blocks@.len(),
            free: self.free@,
        }
    }
}

impl BlockAllocator {
    /// The index that follows position `k` of the free stack; the number of
    /// slots marks its end.
    spec fn link(&self, k: int) -> nat {
        if k < self.free@.len() {
            self.free@[k]
        } else {
            self.blocks@.len()
        }
    }

    /// Every slot starts at its index times the slot size, and the links of the
    /// free slots spell out the free stack, which names no slot twice.
    pub closed spec fn wf(&self) -> bool {
        &&& self.block_size.0 > 0
        &&& self.blocks@.len() * self.block_size.0 < u64::MAX
        &&& self.blocks@.len() <= u32::MAX
        &&& forall|i: int|
            0 <= i < self.blocks@.len() ==> (#[trigger] self.blocks@[i]).start.0 == i
                * self.block_size.0
        &&& self.first_free_block == self.link(0)
        &&& forall|k: int|
            0 <= k < self.free@.len() ==> (#[trigger] self.free@[k]) < self.blocks@.len()
        &&& forall|k: int|
            0 <= k < self.free@.len() ==> self.blocks@[(#[trigger] self.free@[k]) as int].next
                == self.link(k + 1)
        &&& forall|j: int, k: int|
            0 <= j < k < self.free@.len() ==> #[trigger] self.free@[j] != #[trigger] self.free@[k]
    }

    /// What `wf` says of the view: the free stack names slots of the table, none
    /// of them twice, and the offset of every slot fits.
    pub proof fn lemma_wf(&self)
        requires
            self.wf(),
        ensures
            self@.block_size > 0,
            self@.capacity * self@.block_size < u64::MAX,
            self@.capacity <= u32::MAX,
            forall|k: int| 0 <= k < self@.free.len() ==> (#[trigger] self@.free[k]) < self@.capacity,
            forall|j: int, k: int|
                0 <= j < k < self@.free.len() ==> #[trigger] self@.free[j] != #[trigger] self@.free[k],
    {
    }

    /// A table of `max_blocks` slots of `block_size` bytes each, all of them
    /// free, the one with the lowest offset on top.
    pub fn new(block_size: HeapOffset, max_blocks: u32) -> (allocator: Self)
        requires
            block_size.0 > 0,
            block_size.0 * max_blocks < u64::MAX,
        ensures
            allocator.wf(),
            allocator@.block_size == block_size.0,
            allocator@.capacity == max_blocks,
            allocator@.free == Seq::new(max_blocks as nat, |i: int| i as nat),
    {
        let mut blocks: Vec<Block> = Vec::new();
        let count: usize = max_blocks as usize;
        let mut i: usize = 0;
        while i < count
            invariant
                count == max_blocks,
                i <= count,
                block_size.0 > 0,
                block_size.0 * max_blocks < u64::MAX,
                blocks@.len() == i,
                forall|j: int|
                    0 <= j < i ==> (#[trigger] blocks@[j]).start.0 == j * block_size.0 && blocks@[j].next
                        == j + 1,
            decreases count - i,
        {
            assert(i * block_size.0 <= block_size.0 * max_blocks) by (nonlinear_arith)
                requires
                    i < max_blocks,
                    block_size.0 > 0,
            ;
            blocks.push(Block { start: HeapOffset(i as u64 * block_size.0), next: i + 1 });
            i = i + 1;
        }
        let ghost free = Seq::new(max_blocks as nat, |i: int| i as nat);
        let allocator = Self { blocks, block_size, first_free_block: 0, free: Ghost(free) };
        assert(allocator.blocks@.len() * block_size.0 == block_size.0 * max_blocks)
            by (nonlinear_arith)
            requires
                allocator.blocks@.len() == max_blocks,
        ;
        allocator
    }

    /// Hands out the slot on top of the free stack, or fails with `OutOfMemory`
    /// when no slot is free.
    pub fn allocate(&mut self) -> (r: Result<HeapOffset, Error>)
        requires
            old(self).wf(),
        ensures
            final(self).wf(),
            old(self)@.free.len() > 0 ==> r == Ok::<HeapOffset, Error>(
                old(self)@.offset_of(old(self)@.free[0]),
            ) && final(self)@ == (BlockAllocatorView {
                free: old(self)@.free.drop_first(),
                ..old(self)@
            }),
            old(self)@.free.len() == 0 ==> r == Err::<HeapOffset, Error>(
                Error::OutOfMemory {
                    capacity: old(self)@.capacity as u64,
                    available: 0,
                    requested: 1,
                },
            ) && final(self)@ == old(self)@,
    {
        if self.first_free_block < self.blocks.len() {
            let block = self.blocks[self.first_free_block];
            proof {
                let free = self.free@;
                assert(free.len() > 0);
                assert(free[0] == self.first_free_block);
                assert forall|k: int| 0 <= k < free.drop_first().len() implies self.blocks@[(
                #[trigger] free.drop_first()[k]) as int].next == (if k + 1
                    < free.drop_first().len() {
                    free.drop_first()[k + 1]
                } else {
                    self.blocks@.len()
                }) by {
                    assert(free.drop_first()[k] == free[k + 1]);
                }
                assert forall|j: int, k: int| 0 <= j < k < free.drop_first().len() implies (
                #[trigger] free.drop_first()[j]) != (#[trigger] free.drop_first()[k]) by {
                    assert(free.drop_first()[j] == free[j + 1]);
                    assert(free.drop_first()[k] == free[k + 1]);
                }
                assert forall|k: int| 0 <= k < free.drop_first().len() implies (
                #[trigger] free.drop_first()[k]) < self.blocks@.len() by {
                    assert(free.drop_first()[k] == free[k + 1]);
                }
                assert(block.next == self.link(1));
                if free.len() > 1 {
                    assert(free.drop_first()[0] == free[1]);
                }
            }
            self.first_free_block = block.next;
            self.free = Ghost(self.free@.drop_first());
            Ok(block.start)
        } else {
            Err(Error::OutOfMemory { capacity: self.blocks.len() as u64, available: 0, requested: 1 })
        }
    }

    /// Whether `offset` is the offset of a slot that is handed out: a multiple of
    /// the slot size, inside the table, and not on the free stack.
    pub fn is_allocated(&self, offset: HeapOffset) -> (allocated: bool)
        requires
            self.wf(),
        ensures
            allocated == self@.is_allocated(offset),
    {
        if offset.0 % self.block_size.0 != 0 {
            return false;
        }
        let index: u64 = offset.0 / self.block_size.0;
        if index >= self.blocks.len() as u64 {
            return false;
        }
        let ghost free = self.free@;
        let mut current: usize = self.first_free_block;
        let ghost mut k: int = 0;
        while current < self.blocks.len()
            invariant
                self.wf(),
                free == self.free@,
                0 <= k <= free.len(),
                current == self.link(k),
                index as nat == offset.0 as nat / self@.block_size,
                forall|j: int| 0 <= j < k ==> free[j] != index,
            decreases free.len() - k,
        {
            if current as u64 == index {
                assert(free[k] == index as nat);
                assert(free.contains(free[k]));
                assert(index as nat == offset.0 as nat / self@.block_size);
                return false;
            }
            current = self.blocks[current].next;
            proof {
                k = k + 1;
            }
        }
        assert(k == free.len());
        assert(index as nat == offset.0 as nat / self@.block_size);
        true
    }

    /// Takes back the slot at `offset` and puts it on top of the free stack.
    ///
    /// The offset is that of a slot which is handed out: a multiple of the slot
    /// size, inside the table, and not free already.
    pub fn free(&mut self, offset: HeapOffset)
        requires
            old(self).wf(),
            old(self)@.is_allocated(offset),
        ensures
            final(self).wf(),
            final(self)@ == (BlockAllocatorView {
                free: seq![offset.0 as nat / old(self)@.block_size] + old(self)@.free,
                ..old(self)@
            }),
    {
        let block_index: usize = (offset.0 / self.block_size.0) as usize;
        let start = self.blocks[block_index].start;
        let ghost before = self.free@;
        let ghost after = seq![block_index as nat] + before;
        self.blocks[block_index] = Block { start, next: self.first_free_block };
        self.first_free_block = block_index;
        self.free = Ghost(after);
        proof {
            assert forall|k: int| 0 <= k < after.len() implies self.blocks@[(
            #[trigger] after[k]) as int].next == self.link(k + 1) by {
                if k > 0 {
                    assert(after[k] == before[k - 1]);
                    assert(before.contains(before[k - 1]));
                    if k < before.len() {
                        assert(after[k + 1] == before[k]);
                    }
                } else {
                    if before.len() > 0 {
                        assert(after[1] == before[0]);
                    }
                }
            }
            assert forall|j: int, k: int| 0 <= j < k < after.len() implies (#[trigger] after[j]) != (
            #[trigger] after[k]) by {
                assert(after[k] == before[k - 1]);
                assert(before.contains(before[k - 1]));
                if j > 0 {
                    assert(after[j] == before[j - 1]);
                }
            }
            assert forall|k: int| 0 <= k < after.len() implies (#[trigger] after[k])
                < self.blocks@.len() by {
                if k > 0 {
                    assert(after[k] == before[k - 1]);
                }
            }
        }
    }
}

/// The slots that are free have offsets that differ from one another, each a
/// multiple of the slot size: so do the offsets that successive allocations
/// return, which are the free stack's entries from the top down.
pub proof fn lemma_free_offsets_distinct(view: BlockAllocatorView, j: int, k: int)
    requires
        view.block_size > 0,
        view.capacity * view.block_size < u64::MAX,
        forall|i: int| 0 <= i < view.free.len() ==> (#[trigger] view.free[i]) < view.capacity,
        forall|a: int, b: int|
            0 <= a < b < view.free.len() ==> #[trigger] view.free[a] != #[trigger] view.free[b],
        0 <= j < k < view.free.len(),
    ensures
        view.offset_of(view.free[j]) != view.offset_of(view.free[k]),
        view.offset_of(view.free[j]).0 as nat % view.block_size == 0,
        view.offset_of(view.free[k]).0 as nat % view.block_size == 0,
        view.offset_of(view.free[j]).0 == view.free[j] * view.block_size,
{
    let a = view.free[j];
    let b = view.free[k];
    lemma_offset_of(view, a);
    lemma_offset_of(view, b);
    assert(a * view.block_size != b * view.block_size) by (nonlinear_arith)
        requires
            a != b,
            view.block_size > 0,
    ;
}

/// The offset of a slot of the table is its index times the slot size, without
/// loss, and gives the index back when divided by the slot size.
pub proof fn lemma_offset_of(view: BlockAllocatorView, index: nat)
    requires
        view.block_size > 0,
        view.capacity * view.block_size < u64::MAX,
        index < view.capacity,
    ensures
        view.offset_of(index).0 == index * view.block_size,
        view.offset_of(index).0 as nat % view.block_size == 0,
        view.offset_of(index).0 as nat / view.block_size == index,
{
    assert(index * view.block_size <= view.capacity * view.block_size) by (nonlinear_arith)
        requires
            index < view.capacity,
    ;
    vstd::arithmetic::div_mod::lemma_mod_multiples_basic(index as int, view.block_size as int);
    vstd::arithmetic::div_mod::lemma_div_by_multiple(index as int, view.block_size as int);
}

/// A slot that is freed is the one that the next allocation returns.
pub proof fn lemma_freed_slot_comes_back(view: BlockAllocatorView, offset: HeapOffset)
    requires
        view.block_size > 0,
        view.capacity * view.block_size < u64::MAX,
        view.is_allocated(offset),
    ensures
        ({
            let freed = BlockAllocatorView {
                free: seq![offset.0 as nat / view.block_size] + view.free,
                ..view
            };
            freed.offset_of(freed.free[0]) == offset
        }),
{
    let index = offset.0 as nat / view.block_size;
    vstd::arithmetic::div_mod::lemma_fundamental_div_mod(offset.0 as int, view.block_size as int);
    assert(index * view.block_size == view.block_size * index) by (nonlinear_arith);
}

} // verus!
