//! An object pool whose handles carry a generation, so that a handle to a
//! slot that has since been reused is told apart from a handle to what the
//! slot holds now.

use crate::flagvec::FlagVec;
use std::marker::PhantomData;
use vstd::prelude::*;

verus! {

/// What a handle names: a slot, and the generation of the slot at the time the
/// handle was made.
pub struct HandleView {
    pub index: u32,
    pub generation: u32,
}

/// The two halves of a packed handle.
pub open spec fn pack(index: u32, generation: u32) -> u64 {
    ((generation as u64) << 32) | (index as u64)
}

/// Packing loses nothing, and only the handle of slot zero in generation zero
/// packs to zero.
pub proof fn lemma_pack(index: u32, generation: u32)
    ensures
        (pack(index, generation) & 0xffff_ffff) as u32 == index,
        (pack(index, generation) >> 32) as u32 == generation,
        pack(index, generation) == 0 <==> index == 0 && generation == 0,
{
    let i = index as u64;
    let g = generation as u64;
    assert(((g << 32) | i) & 0xffff_ffff == i && ((g << 32) | i) >> 32 == g && (((g << 32) | i) == 0
        <==> (i == 0 && g == 0))) by (bit_vector)
        requires
            i <= 0xffff_ffff,
            g <= 0xffff_ffff,
    ;
}

/// The text that describes the handle of slot `index` in generation
/// `generation`: the two numbers in decimal, under their names.
pub uninterp spec fn handle_text(index: u32, generation: u32) -> Seq<char>;

/// The text that describes the raw handle of slot `index`: the number in
/// decimal, under its name.
pub uninterp spec fn raw_handle_text(index: u32) -> Seq<char>;

/// `format!`: the text `Handle { index: .., generation: .. }` with the two
/// numbers written in decimal.
#[verifier::external_body]
fn format_handle(index: u32, generation: u32) -> (text: String)
    ensures
        text@ == handle_text(index, generation),
{
    format!("Handle {{ index: {}, generation: {} }}", index, generation)
}

/// `format!`: the text `RawHandle { index: .. }` with the number written in
/// decimal.
#[verifier::external_body]
fn format_raw_handle(index: u32) -> (text: String)
    ensures
        text@ == raw_handle_text(index),
{
    format!("RawHandle {{ index: {} }}", index)
}

/// Handle to an item in a generational pool: the index of a slot in the lower
/// half of a 64-bit value, the generation of the slot in the upper half.
#[derive(Debug)]
pub struct Handle<T> {
    raw: u64,
    phantom: PhantomData<T>,
}

impl<T> View for Handle<T> {
    type V = HandleView;

    closed spec fn view(&self) -> HandleView {
        HandleView {
            index: (self.raw & 0xffff_ffff) as u32,
            generation: (self.raw >> 32) as u32,
        }
    }
}

impl<T> Clone for Handle<T> {
    fn clone(&self) -> (copy: Self)
        ensures
            copy == *self,
    {
        Self { raw: self.raw, phantom: PhantomData }
    }
}

impl<T> Copy for Handle<T> {

}

impl<T> PartialEq for Handle<T> {
    fn eq(&self, other: &Self) -> (same: bool) {
        self.raw == other.raw
    }
}

impl<T> vstd::std_specs::cmp::PartialEqSpecImpl for Handle<T> {
    open spec fn obeys_eq_spec() -> bool {
        true
    }

    open spec fn eq_spec(&self, other: &Self) -> bool {
        self.bits() == other.bits()
    }
}

impl<T> Eq for Handle<T> {

}

impl<T> PartialOrd for Handle<T> {
    fn partial_cmp(&self, other: &Self) -> (order: Option<core::cmp::Ordering>) {
        if self.raw < other.raw {
            Some(core::cmp::Ordering::Less)
        } else if self.raw == other.raw {
            Some(core::cmp::Ordering::Equal)
        } else {
            Some(core::cmp::Ordering::Greater)
        }
    }
}

impl<T> vstd::std_specs::cmp::PartialOrdSpecImpl for Handle<T> {
    open spec fn obeys_partial_cmp_spec() -> bool {
        true
    }

    open spec fn partial_cmp_spec(&self, other: &Self) -> Option<core::cmp::Ordering> {
        if self.bits() < other.bits() {
            Some(core::cmp::Ordering::Less)
        } else if self.bits() == other.bits() {
            Some(core::cmp::Ordering::Equal)
        } else {
            Some(core::cmp::Ordering::Greater)
        }
    }
}

impl<T> Handle<T> {
    /// The packed value.
    pub closed spec fn bits(&self) -> u64 {
        self.raw
    }

    /// The handle of slot `index` in generation `generation`.
    fn from_parts(index: u32, generation: u32) -> (handle: Self)
        ensures
            handle@ == (HandleView { index, generation }),
            handle.bits() == pack(index, generation),
    {
        proof {
            lemma_pack(index, generation);
        }
        Self { raw: ((generation as u64) << 32) | (index as u64), phantom: PhantomData }
    }

    /// The index of the slot that the handle names.
    pub fn index(&self) -> (index: u32)
        ensures
            index == self@.index,
    {
        (self.raw & 0xffff_ffff) as u32
    }

    /// The generation that the handle was made in.
    pub fn generation(&self) -> (generation: u32)
        ensures
            generation == self@.generation,
    {
        (self.raw >> 32) as u32
    }

    /// The handle in words: its index and its generation.
    pub fn describe(&self) -> (text: String)
        ensures
            text@ == handle_text(self@.index, self@.generation),
    {
        format_handle(self.index(), self.generation())
    }

    /// The handle without its generation.
    ///
    /// What the raw handle reaches is whatever the slot holds when it is used:
    /// use it only while the slot is known not to be freed.
    #[must_use]
    pub fn raw(&self) -> (raw: RawHandle<T>)
        ensures
            raw@ == self@.index,
    {
        RawHandle { index: self.index(), phantom: PhantomData }
    }
}

/// An unchecked handle to a slot of a pool: the index alone.
#[derive(Debug, Hash)]
pub struct RawHandle<T> {
    index: u32,
    phantom: PhantomData<T>,
}

impl<T> View for RawHandle<T> {
    type V = u32;

    closed spec fn view(&self) -> u32 {
        self.index
    }
}

impl<T> Clone for RawHandle<T> {
    fn clone(&self) -> (copy: Self)
        ensures
            copy == *self,
    {
        Self { index: self.index, phantom: PhantomData }
    }
}

impl<T> Copy for RawHandle<T> {

}

impl<T> PartialEq for RawHandle<T> {
    fn eq(&self, other: &Self) -> (same: bool) {
        self.index == other.index
    }
}

impl<T> vstd::std_specs::cmp::PartialEqSpecImpl for RawHandle<T> {
    open spec fn obeys_eq_spec() -> bool {
        true
    }

    open spec fn eq_spec(&self, other: &Self) -> bool {
        self@ == other@
    }
}

impl<T> Eq for RawHandle<T> {

}

impl<T> RawHandle<T> {
    /// The index of the slot that the handle names.
    pub fn index(&self) -> (index: u32)
        ensures
            index == self@,
    {
        self.index
    }

    /// The handle in words: its index.
    pub fn describe(&self) -> (text: String)
        ensures
            text@ == raw_handle_text(self@),
    {
        format_raw_handle(self.index)
    }
}

/// What a slot of a pool holds: a value, or the link to the slot that is handed
/// out after it.
pub enum Item<T> {
    Free { next: Option<u32> },
    Occupied { value: T },
}

/// A slot of a pool. The generation lies beside the item, so that it outlives
/// the item's time in the free list.
pub struct Slot<T> {
    generation: u32,
    item: Item<T>,
}

/// A slot as contracts see it.
pub struct SlotView<T> {
    pub generation: u32,
    /// The value that the slot holds; `None` when it is free or retired.
    pub value: Option<T>,
}

impl<T> View for Slot<T> {
    type V = SlotView<T>;

    closed spec fn view(&self) -> SlotView<T> {
        SlotView {
            generation: self.generation,
            value: match self.item {
                Item::Occupied { value } => Some(value),
                Item::Free { .. } => None,
            },
        }
    }
}

/// The views of `slots`, one for one.
pub open spec fn slot_views<T>(slots: Seq<Slot<T>>) -> Seq<SlotView<T>> {
    Seq::new(slots.len(), |i: int| slots[i]@)
}

/// Lets the queue of free slots reach the item that lies in a larger slot.
pub trait ItemRef<T>: Sized {
    /// The item of the slot.
    spec fn item(&self) -> Item<T>;

    /// The slot with `item` in place of its own.
    spec fn with_item(&self, item: Item<T>) -> Self;

    /// The item of the slot, for writing. Nothing else of the slot changes.
    fn item_mut(&mut self) -> (item: &mut Item<T>)
        ensures
            *item == old(self).item(),
            *final(self) == old(self).with_item(*final(item)),
    ;

    /// A slot holds the item that was put in place, and putting its own item in
    /// place changes nothing.
    proof fn lemma_with_item(&self, item: Item<T>)
        ensures
            self.with_item(item).item() == item,
            self.with_item(self.item()) == *self,
    ;
}

impl<T> ItemRef<T> for Item<T> {
    open spec fn item(&self) -> Item<T> {
        *self
    }

    open spec fn with_item(&self, item: Item<T>) -> Self {
        item
    }

    fn item_mut(&mut self) -> (item: &mut Item<T>) {
        self
    }

    proof fn lemma_with_item(&self, item: Item<T>) {
    }
}

impl<T> ItemRef<T> for Slot<T> {
    closed spec fn item(&self) -> Item<T> {
        self.item
    }

    closed spec fn with_item(&self, item: Item<T>) -> Self {
        Slot { generation: self.generation, item }
    }

    fn item_mut(&mut self) -> (item: &mut Item<T>) {
        &mut self.item
    }

    proof fn lemma_with_item(&self, item: Item<T>) {
    }
}

/// A queue of free slots that is threaded through the slots themselves: each
/// free slot holds the index of the one that was freed after it. The slot that
/// has been free for longest is handed out first.
pub struct InlineFreeList<T> {
    next: Option<u32>,
    last: Option<u32>,
    is_free: FlagVec,
    order: Ghost<Seq<u32>>,
    phantom: PhantomData<T>,
}

/// The link that the slot at position `k` of the queue `order` holds.
pub open spec fn link_of(order: Seq<u32>, k: int) -> Option<u32> {
    if k + 1 < order.len() {
        Some(order[k + 1])
    } else {
        None
    }
}

/// The slots after the slot with the given index was appended to the queue
/// `order`: it holds the end of the queue, and the slot that was last links to
/// it.
pub open spec fn linked_behind<T, K: ItemRef<T>>(slots: Seq<K>, order: Seq<u32>, index: u32) -> Seq<
    K,
> {
    let freed = slots.update(
        index as int,
        slots[index as int].with_item(Item::Free { next: None }),
    );
    if order.len() > 0 {
        let last = order[order.len() - 1] as int;
        freed.update(last, freed[last].with_item(Item::Free { next: Some(index) }))
    } else {
        freed
    }
}

impl<T> InlineFreeList<T> {
    /// The indices of the free slots, the one that is handed out next first.
    pub closed spec fn order(&self) -> Seq<u32> {
        self.order@
    }

    /// The links in `slots` spell out the queue, which names slots of `slots`,
    /// none of them twice, and the flags mark the slots that it names.
    pub closed spec fn wf<K: ItemRef<T>>(&self, slots: Seq<K>) -> bool {
        let order = self.order@;
        &&& forall|k: int| 0 <= k < order.len() ==> (#[trigger] order[k]) < slots.len()
        &&& forall|j: int, k: int|
            0 <= j < k < order.len() ==> #[trigger] order[j] != #[trigger] order[k]
        &&& forall|k: int|
            0 <= k < order.len() ==> slots[(#[trigger] order[k]) as int].item() == (
            Item::Free::<T> { next: link_of(order, k) })
        &&& self.next == (if order.len() > 0 {
            Some(order[0])
        } else {
            None
        })
        &&& self.last == (if order.len() > 0 {
            Some(order[order.len() - 1])
        } else {
            None
        })
        &&& forall|i: nat| self.is_free@.set.contains(i) <==> (i <= u32::MAX && order.contains(i as u32))
    }

    /// What `wf` says of the queue and of the slots: the queue names slots of
    /// `slots`, none of them twice, and each of them holds a link and no value.
    pub proof fn lemma_wf<K: ItemRef<T>>(&self, slots: Seq<K>)
        requires
            self.wf(slots),
        ensures
            forall|k: int| 0 <= k < self.order().len() ==> (#[trigger] self.order()[k]) < slots.len(),
            forall|j: int, k: int|
                0 <= j < k < self.order().len() ==> #[trigger] self.order()[j]
                    != #[trigger] self.order()[k],
            forall|k: int|
                0 <= k < self.order().len() ==> slots[(#[trigger] self.order()[k]) as int].item()
                    == (Item::Free::<T> { next: link_of(self.order(), k) }),
            self.first() == (if self.order().len() > 0 {
                Some(self.order()[0])
            } else {
                None
            }),
    {
    }

    /// A change to a slot that the queue does not name leaves the queue
    /// well-formed.
    pub proof fn lemma_wf_update<K: ItemRef<T>>(&self, slots: Seq<K>, index: int, slot: K)
        requires
            self.wf(slots),
            0 <= index < slots.len(),
            index <= u32::MAX,
            !self.order().contains(index as u32),
        ensures
            self.wf(slots.update(index, slot)),
    {
        let order = self.order@;
        assert forall|k: int| 0 <= k < order.len() implies slots.update(index, slot)[(
        #[trigger] order[k]) as int].item() == (Item::Free::<T> { next: link_of(order, k) }) by {
            assert(order.contains(order[k]));
        }
    }

    /// With another slot behind them the slots still fit the queue.
    pub proof fn lemma_wf_push<K: ItemRef<T>>(&self, slots: Seq<K>, slot: K)
        requires
            self.wf(slots),
        ensures
            self.wf(slots.push(slot)),
    {
    }

    /// Whether the queue is as `new` makes it.
    pub closed spec fn is_new(&self) -> bool {
        &&& self.order@.len() == 0
        &&& self.next is None
        &&& self.last is None
        &&& self.is_free@.set == Set::<nat>::empty()
    }

    /// A new queue fits any slots.
    pub proof fn lemma_new_wf<K: ItemRef<T>>(&self, slots: Seq<K>)
        requires
            self.is_new(),
        ensures
            self.wf(slots),
            self.order() == Seq::<u32>::empty(),
    {
        assert(self.order@ =~= Seq::<u32>::empty());
    }

    /// A queue without slots.
    pub fn new() -> (list: Self)
        ensures
            list.is_new(),
            list.order() == Seq::<u32>::empty(),
    {
        Self {
            next: None,
            last: None,
            is_free: FlagVec::new(),
            order: Ghost(Seq::empty()),
            phantom: PhantomData,
        }
    }

    /// Whether the slot with the given index is in the queue.
    pub fn is_free(&self, index: u32) -> (free: bool)
        ensures
            free == self.flagged(index),
    {
        self.is_free.get(index as usize)
    }

    /// Whether the flag of the slot with the given index is set. In a well-formed
    /// queue it is set for the slots in the queue and for no other.
    pub closed spec fn flagged(&self, index: u32) -> bool {
        self.is_free@.set.contains(index as nat)
    }

    /// In a well-formed queue the flags mark the slots that the queue names.
    pub proof fn lemma_flagged<K: ItemRef<T>>(&self, slots: Seq<K>, index: u32)
        requires
            self.wf(slots),
        ensures
            self.flagged(index) == self.order().contains(index),
    {
    }

    /// Whether the queue names no slot.
    pub fn is_empty(&self) -> (empty: bool)
        ensures
            empty == (self.first() is None),
    {
        self.next.is_none()
    }

    /// The head of the queue as it is stored. In a well-formed queue it is the
    /// first entry of the order.
    pub closed spec fn first(&self) -> Option<u32> {
        self.next
    }

    /// The slot that is handed out next.
    pub fn head(&self) -> (head: Option<u32>)
        ensures
            head == self.first(),
    {
        self.next
    }

    /// Appends the slot with the given index to the queue. What the slot held
    /// is dropped.
    pub fn push<K: ItemRef<T>>(&mut self, index: u32, items: &mut Vec<K>)
        requires
            old(self).wf(old(items)@),
            index < old(items)@.len(),
            !old(self).order().contains(index),
        ensures
            final(self).wf(final(items)@),
            final(self).order() == old(self).order().push(index),
            final(items)@ == linked_behind(old(items)@, old(self).order(), index),
    {
        let ghost before = items@;
        let ghost order = self.order@;
        let len: usize = items.len();
        assert(index < len);
        let freed = items[index as usize].item_mut();
        *freed = Item::Free { next: None };
        let ghost middle = items@;
        match self.last {
            Some(last) => {
                assert(last == order[order.len() - 1]);
                let behind = items[last as usize].item_mut();
                *behind = Item::Free { next: Some(index) };
            },
            None => {
                self.next = Some(index);
            },
        }
        self.last = Some(index);
        self.is_free.set(index as usize, true);
        self.order = Ghost(order.push(index));
        proof {
            let after = self.order@;
            assert(items@ =~= linked_behind(before, order, index));
            before[index as int].lemma_with_item(Item::Free { next: None });
            if order.len() > 0 {
                middle[order[order.len() - 1] as int].lemma_with_item(
                    Item::Free { next: Some(index) },
                );
                assert(order.contains(order[order.len() - 1]));
            }
            assert forall|k: int| 0 <= k < after.len() implies items@[(
            #[trigger] after[k]) as int].item() == (Item::Free::<T> { next: link_of(after, k) }) by {
                if k < order.len() {
                    assert(after[k] == order[k]);
                    assert(order.contains(order[k]));
                    if k + 1 < order.len() {
                        assert(after[k + 1] == order[k + 1]);
                        assert(order[k] != order[order.len() - 1]);
                    }
                }
            }
            assert forall|j: int, k: int| 0 <= j < k < after.len() implies (#[trigger] after[j]) != (
            #[trigger] after[k]) by {
                assert(after[j] == order[j]);
                assert(order.contains(order[j]));
                if k < order.len() {
                    assert(after[k] == order[k]);
                }
            }
            assert forall|k: int| 0 <= k < after.len() implies (#[trigger] after[k]) < items@.len() by {
                if k < order.len() {
                    assert(after[k] == order[k]);
                }
            }
            assert forall|i: nat| self.is_free@.set.contains(i) <==> (i <= u32::MAX
                && after.contains(i as u32)) by {
                if i <= u32::MAX && after.contains(i as u32) {
                    let k = choose|k: int| 0 <= k < after.len() && after[k] == i as u32;
                    if k < order.len() {
                        assert(order[k] == after[k]);
                        assert(order.contains(i as u32));
                    }
                }
                if i <= u32::MAX && order.contains(i as u32) {
                    let k = choose|k: int| 0 <= k < order.len() && order[k] == i as u32;
                    assert(after[k] == i as u32);
                }
                if i == index {
                    assert(after[order.len() as int] == index);
                }
            }
        }
    }

    /// Takes the first slot off the queue and returns its index with the slot
    /// itself, for the caller to fill.
    pub fn pop<'a, K: ItemRef<T>>(&mut self, items: &'a mut Vec<K>) -> (r: Option<
        (u32, &'a mut K),
    >)
        requires
            old(self).wf(old(items)@),
        ensures
            final(self).wf(final(items)@),
            match r {
                Some((index, slot)) => {
                    &&& old(self).order().len() > 0
                    &&& index == old(self).order()[0]
                    &&& final(self).order() == old(self).order().drop_first()
                    &&& *slot == old(items)@[index as int]
                    &&& final(items)@ == old(items)@.update(index as int, *final(slot))
                },
                None => {
                    &&& old(self).order().len() == 0
                    &&& final(self).order() == old(self).order()
                    &&& final(items)@ == old(items)@
                },
            },
    {
        let ghost order = self.order@;
        match self.next {
            None => None,
            Some(index) => {
                assert(index == order[0]);
                let len: usize = items.len();
                assert(index < len);
                proof {
                    items@[index as int].lemma_with_item(items@[index as int].item());
                }
                let link = items[index as usize].item_mut();
                let next: Option<u32> = match link {
                    Item::Free { next } => *next,
                    Item::Occupied { .. } => None,
                };
                assert(items@ =~= old(items)@);
                let slot = &mut items[index as usize];
                self.next = next;
                if next.is_none() {
                    self.last = None;
                }
                self.is_free.set(index as usize, false);
                self.order = Ghost(order.drop_first());
                proof {
                    let after = self.order@;
                    let slots = old(items)@.update(index as int, *final(slot));
                    assert forall|k: int| 0 <= k < after.len() implies (#[trigger] after[k])
                        < slots.len() && slots[after[k] as int].item() == (Item::Free::<T> {
                        next: link_of(after, k),
                    }) by {
                        assert(after[k] == order[k + 1]);
                        if k + 1 < after.len() {
                            assert(after[k + 1] == order[k + 2]);
                        }
                    }
                    assert forall|j: int, k: int| 0 <= j < k < after.len() implies (
                    #[trigger] after[j]) != (#[trigger] after[k]) by {
                        assert(after[j] == order[j + 1]);
                        assert(after[k] == order[k + 1]);
                    }
                    assert forall|i: nat| self.is_free@.set.contains(i) <==> (i <= u32::MAX
                        && after.contains(i as u32)) by {
                        if i <= u32::MAX && after.contains(i as u32) {
                            let k = choose|k: int| 0 <= k < after.len() && after[k] == i as u32;
                            assert(order[k + 1] == after[k]);
                            assert(order.contains(i as u32));
                        }
                        if i <= u32::MAX && order.contains(i as u32) && i != index {
                            let k = choose|k: int| 0 <= k < order.len() && order[k] == i as u32;
                            assert(after[k - 1] == i as u32);
                        }
                    }
                    if order.len() > 1 {
                        assert(after[0] == order[1]);
                        assert(after[after.len() - 1] == order[order.len() - 1]);
                    }
                }
                Some((index, slot))
            },
        }
    }
}

/// The state of a pool as contracts see it.
pub struct PoolView<T> {
    /// The slots, by index.
    pub slots: Seq<SlotView<T>>,
    /// The indices of the free slots, the one that has been free for longest
    /// first.
    pub free: Seq<u32>,
}

impl<T> PoolView<T> {
    /// Whether the slot with the given index holds a value.
    pub open spec fn occupied(self, index: u32) -> bool {
        index < self.slots.len() && self.slots[index as int].value is Some
    }

    /// A handle is valid when its slot holds a value and is in the generation
    /// that the handle was made in.
    pub open spec fn valid(self, handle: HandleView) -> bool {
        self.occupied(handle.index) && self.slots[handle.index as int].generation
            == handle.generation
    }

    /// The value that a handle reaches.
    pub open spec fn get(self, handle: HandleView) -> Option<T> {
        if self.valid(handle) {
            self.slots[handle.index as int].value
        } else {
            None
        }
    }

    /// The handle that the next insertion returns: the free slot that has waited
    /// for longest, in its generation, or a new slot behind the others, in
    /// generation zero.
    pub open spec fn next_handle(self) -> HandleView {
        if self.free.len() > 0 {
            HandleView {
                index: self.free[0],
                generation: self.slots[self.free[0] as int].generation,
            }
        } else {
            HandleView { index: self.slots.len() as u32, generation: 0 }
        }
    }

    /// The pool after the insertion of `value`.
    pub open spec fn insert(self, value: T) -> PoolView<T> {
        if self.free.len() > 0 {
            PoolView {
                slots: self.slots.update(
                    self.free[0] as int,
                    SlotView {
                        generation: self.slots[self.free[0] as int].generation,
                        value: Some(value),
                    },
                ),
                free: self.free.drop_first(),
            }
        } else {
            PoolView {
                slots: self.slots.push(SlotView { generation: 0, value: Some(value) }),
                free: self.free,
            }
        }
    }

    /// The pool after the value of the slot with the given index was taken out:
    /// the slot moves on to the next generation and joins the free slots, or,
    /// in the last generation, stays out of use for good.
    pub open spec fn vacate(self, index: u32) -> PoolView<T> {
        let generation = self.slots[index as int].generation;
        if generation < u32::MAX {
            PoolView {
                slots: self.slots.update(
                    index as int,
                    SlotView { generation: (generation + 1) as u32, value: None },
                ),
                free: self.free.push(index),
            }
        } else {
            PoolView {
                slots: self.slots.update(index as int, SlotView { generation, value: None }),
                free: self.free,
            }
        }
    }

    /// The pool after the removal of what `handle` reaches.
    pub open spec fn remove(self, handle: HandleView) -> PoolView<T> {
        if self.valid(handle) {
            self.vacate(handle.index)
        } else {
            self
        }
    }

    /// The pool has a slot zero, which is past generation zero, so that no
    /// handle packs to zero; indices fit in 32 bits; and the free slots are
    /// slots of the pool, each named once and none holding a value.
    pub open spec fn wf(self) -> bool {
        &&& 1 <= self.slots.len() <= u32::MAX + 1
        &&& self.slots[0].generation >= 1
        &&& forall|k: int| 0 <= k < self.free.len() ==> (#[trigger] self.free[k]) < self.slots.len()
        &&& forall|j: int, k: int|
            0 <= j < k < self.free.len() ==> #[trigger] self.free[j] != #[trigger] self.free[k]
        &&& forall|k: int|
            0 <= k < self.free.len() ==> self.slots[(#[trigger] self.free[k]) as int].value is None
    }
}

/// An object pool that makes use of generational indices to avoid the ABA
/// problem.
pub struct GenerationalPool<T> {
    items: Vec<Slot<T>>,
    free_list: InlineFreeList<T>,
}

impl<T> View for GenerationalPool<T> {
    type V = PoolView<T>;

    closed spec fn view(&self) -> PoolView<T> {
        PoolView { slots: slot_views(self.items@), free: self.free_list.order() }
    }
}

impl<T> Default for GenerationalPool<T> {
    fn default() -> (pool: Self)
        ensures
            pool.wf(),
            pool@ == (PoolView::<T> {
                slots: seq![SlotView { generation: 1, value: None }],
                free: seq![0u32],
            }),
    {
        Self::new()
    }
}

impl<T> GenerationalPool<T> {
    /// The slots and the queue of free slots fit together, and the view is
    /// well-formed.
    pub closed spec fn wf(&self) -> bool {
        &&& self.free_list.wf(self.items@)
        &&& 1 <= self.items@.len() <= u32::MAX + 1
        &&& self.items@[0].generation >= 1
    }

    /// A well-formed pool has a well-formed view.
    pub proof fn lemma_wf(&self)
        requires
            self.wf(),
        ensures
            self@.wf(),
    {
        self.free_list.lemma_wf(self.items@);
    }

    /// The queue of free slots.
    pub closed spec fn spec_free_list(&self) -> InlineFreeList<T> {
        self.free_list
    }

    /// A pool with one slot, which is free and in generation one.
    #[must_use]
    pub fn new() -> (pool: Self)
        ensures
            pool.wf(),
            pool@ == (PoolView::<T> {
                slots: seq![SlotView { generation: 1, value: None }],
                free: seq![0u32],
            }),
    {
        let mut items: Vec<Slot<T>> = Vec::new();
        items.push(Slot { generation: 1, item: Item::Free { next: None } });
        let mut free_list = InlineFreeList::new();
        assert(!free_list.order().contains(0u32));
        let ghost before = items@;
        free_list.push(0, &mut items);
        assert(slot_views(items@).len() == slot_views(before).len());
        assert(slot_views(items@)[0] == items@[0]@);
        let pool = Self { items, free_list };
        assert(pool@.slots =~= seq![SlotView::<T> { generation: 1, value: None }]);
        assert(pool@.free =~= seq![0u32]);
        pool
    }

    /// Number of slots, free ones and retired ones included.
    pub fn slot_count(&self) -> (count: usize)
        ensures
            count == self@.slots.len(),
    {
        self.items.len()
    }

    /// The generation that the slot with the given index is in.
    pub fn generation(&self, index: u32) -> (generation: u32)
        requires
            index < self@.slots.len(),
        ensures
            generation == self@.slots[index as int].generation,
    {
        self.items[index as usize].generation
    }

    /// The queue of free slots.
    pub fn free_list(&self) -> (list: &InlineFreeList<T>)
        ensures
            *list == self.spec_free_list(),
            list.order() == self@.free,
            self.wf() ==> list.first() == (if self@.free.len() > 0 {
                Some(self@.free[0])
            } else {
                None
            }),
    {
        proof {
            if self.wf() {
                self.free_list.lemma_wf(self.items@);
            }
        }
        &self.free_list
    }

    /// The item that `handle` reaches: `None` where the slot is free or retired,
    /// or holds a value of another generation.
    #[must_use]
    pub fn get(&self, handle: Handle<T>) -> (r: Option<&T>)
        requires
            self.wf(),
        ensures
            match r {
                Some(value) => self@.get(handle@) == Some(*value),
                None => self@.get(handle@) is None,
            },
    {
        let index: u32 = handle.index();
        proof {
            self.free_list.lemma_wf(self.items@);
            self.free_list.lemma_flagged(self.items@, index);
        }
        if self.free_list.is_free(index) {
            proof {
                let k = choose|k: int|
                    0 <= k < self.free_list.order().len() && self.free_list.order()[k] == index;
                assert(self.items@[self.free_list.order()[k] as int]@.value is None);
            }
            None
        } else if (index as usize) < self.items.len() {
            let slot = &self.items[index as usize];
            if slot.generation == handle.generation() {
                match &slot.item {
                    Item::Occupied { value } => Some(value),
                    Item::Free { .. } => None,
                }
            } else {
                None
            }
        } else {
            None
        }
    }

    /// Validates a handle and returns a raw handle if it is valid. This is the
    /// checked way to a `RawHandle`.
    #[must_use]
    pub fn validate(&self, handle: Handle<T>) -> (r: Option<RawHandle<T>>)
        requires
            self.wf(),
        ensures
            match r {
                Some(raw) => self@.valid(handle@) && raw@ == handle@.index,
                None => !self@.valid(handle@),
            },
    {
        match self.get(handle) {
            Some(_) => Some(handle.raw()),
            None => None,
        }
    }

    /// The handle that reaches what the slot of `handle` holds now, if it holds
    /// anything.
    #[must_use]
    pub fn recover_key(&self, handle: RawHandle<T>) -> (r: Option<Handle<T>>)
        requires
            self.wf(),
        ensures
            match r {
                Some(key) => self@.occupied(handle@) && key@ == (HandleView {
                    index: handle@,
                    generation: self@.slots[handle@ as int].generation,
                }),
                None => !self@.occupied(handle@),
            },
    {
        let index: u32 = handle.index;
        if (index as usize) < self.items.len() {
            let slot = &self.items[index as usize];
            match &slot.item {
                Item::Occupied { .. } => Some(Handle::from_parts(index, slot.generation)),
                Item::Free { .. } => None,
            }
        } else {
            None
        }
    }

    /// The item in the slot of `handle`, whatever its generation.
    ///
    /// The slot holds a value: a slot that was freed in the meantime and filled
    /// again holds another value than the one the handle was made for.
    #[must_use]
    pub fn get_raw(&self, handle: RawHandle<T>) -> (value: &T)
        requires
            self.wf(),
            self@.occupied(handle@),
        ensures
            Some(*value) == self@.slots[handle@ as int].value,
    {
        match &self.items[handle.index as usize].item {
            Item::Occupied { value } => value,
            Item::Free { .. } => {
                proof {
                    assert(false);
                }
                vstd::pervasive::unreached()
            },
        }
    }

    /// Puts `value` into the pool and returns the handle that reaches it.
    ///
    /// The free slot that has waited for longest is used again, in its
    /// generation. Where no slot is free the pool grows by one slot, in
    /// generation zero, and leaves every other slot as it is.
    #[must_use]
    pub fn insert(&mut self, value: T) -> (handle: Handle<T>)
        requires
            old(self).wf(),
            old(self)@.free.len() == 0 ==> old(self)@.slots.len() <= u32::MAX,
        ensures
            final(self).wf(),
            final(self)@ == old(self)@.insert(value),
            handle@ == old(self)@.next_handle(),
            handle.bits() == pack(handle@.index, handle@.generation),
            handle.bits() != 0,
    {
        proof {
            self.free_list.lemma_wf(self.items@);
        }
        match self.free_list.pop(&mut self.items) {
            Some((index, slot)) => {
                let handle = Handle::from_parts(index, slot.generation);
                slot.item = Item::Occupied { value };
                proof {
                    lemma_pack(handle@.index, handle@.generation);
                    assert(self@.slots =~= old(self)@.insert(value).slots);
                }
                handle
            },
            None => {
                let index: u32 = self.items.len() as u32;
                let handle = Handle::from_parts(index, 0);
                proof {
                    self.free_list.lemma_wf_push(
                        self.items@,
                        Slot { generation: 0, item: Item::Occupied { value } },
                    );
                    lemma_pack(index, 0);
                }
                self.items.push(Slot { generation: 0, item: Item::Occupied { value } });
                proof {
                    assert(self@.slots =~= old(self)@.insert(value).slots);
                }
                handle
            },
        }
    }

    /// The item that `handle` reaches, for writing: `None` where the slot is free
    /// or retired, or holds a value of another generation.
    #[must_use]
    pub fn get_mut(&mut self, handle: Handle<T>) -> (r: Option<&mut T>)
        requires
            old(self).wf(),
        ensures
            final(self).wf(),
            match r {
                Some(value) => {
                    &&& old(self)@.get(handle@) == Some(*value)
                    &&& final(self)@ == (PoolView {
                        slots: old(self)@.slots.update(
                            handle@.index as int,
                            SlotView { generation: handle@.generation, value: Some(*final(value)) },
                        ),
                        free: old(self)@.free,
                    })
                },
                None => old(self)@.get(handle@) is None && final(self)@ == old(self)@,
            },
    {
        match self.validate(handle) {
            Some(raw) => Some(self.get_raw_mut(raw)),
            None => None,
        }
    }

    /// The item in the slot of `handle`, whatever its generation, for writing.
    ///
    /// The slot holds a value.
    #[must_use]
    pub fn get_raw_mut(&mut self, handle: RawHandle<T>) -> (value: &mut T)
        requires
            old(self).wf(),
            old(self)@.occupied(handle@),
        ensures
            final(self).wf(),
            Some(*value) == old(self)@.slots[handle@ as int].value,
            final(self)@ == (PoolView {
                slots: old(self)@.slots.update(
                    handle@ as int,
                    SlotView {
                        generation: old(self)@.slots[handle@ as int].generation,
                        value: Some(*final(value)),
                    },
                ),
                free: old(self)@.free,
            }),
    {
        let index: u32 = handle.index;
        proof {
            self.free_list.lemma_wf(self.items@);
        }
        let ghost before = self.items@;
        let slot = &mut self.items[index as usize];
        match &mut slot.item {
            Item::Occupied { value } => {
                proof {
                    let filled = Slot {
                        generation: before[index as int].generation,
                        item: Item::Occupied { value: *final(value) },
                    };
                    if self.free_list.order().contains(index) {
                        let k = choose|k: int|
                            0 <= k < self.free_list.order().len() && self.free_list.order()[k]
                                == index;
                        assert(before[self.free_list.order()[k] as int]@.value is None);
                    }
                    self.free_list.lemma_wf_update(before, index as int, filled);
                    assert(slot_views(before.update(index as int, filled)) =~= slot_views(
                        before,
                    ).update(
                        index as int,
                        SlotView {
                            generation: before[index as int].generation,
                            value: Some(*final(value)),
                        },
                    ));
                }
                value
            },
            Item::Free { .. } => {
                proof {
                    assert(false);
                }
                vstd::pervasive::unreached()
            },
        }
    }

    /// Takes the value out of the slot with the given index, which holds one,
    /// and moves the slot on: to its next generation and into the queue of free
    /// slots, or, from the last generation, out of use.
    fn vacate(&mut self, index: u32) -> (value: T)
        requires
            old(self).wf(),
            old(self)@.occupied(index),
        ensures
            final(self).wf(),
            Some(value) == old(self)@.slots[index as int].value,
            final(self)@ == old(self)@.vacate(index),
    {
        proof {
            self.free_list.lemma_wf(self.items@);
            if self.free_list.order().contains(index) {
                let k = choose|k: int|
                    0 <= k < self.free_list.order().len() && self.free_list.order()[k] == index;
                assert(self.items@[self.free_list.order()[k] as int]@.value is None);
            }
        }
        let ghost before = self.items@;
        let generation: u32 = self.items[index as usize].generation;
        let reusable: bool = generation < u32::MAX;
        let next_generation: u32 = if reusable {
            generation + 1
        } else {
            generation
        };
        let mut slot = Slot { generation: next_generation, item: Item::Free { next: None } };
        proof {
            self.free_list.lemma_wf_update(before, index as int, slot);
        }
        core::mem::swap(&mut self.items[index as usize], &mut slot);
        if reusable {
            self.free_list.push(index, &mut self.items);
        }
        proof {
            assert(self@.slots =~= old(self)@.vacate(index).slots);
            if index == 0 {
                assert(slot_views(self.items@)[0] == self.items@[0]@);
            } else {
                assert(slot_views(self.items@)[0] == self.items@[0]@);
                assert(slot_views(before)[0] == before[0]@);
            }
            assert(slot_views(self.items@).len() == self.items@.len());
        }
        match slot.item {
            Item::Occupied { value } => value,
            Item::Free { .. } => {
                proof {
                    assert(false);
                }
                vstd::pervasive::unreached()
            },
        }
    }

    /// Removes the value that `handle` reaches and returns it; `None`, and no
    /// change, where the handle is not valid.
    ///
    /// The slot moves on to its next generation and joins the free slots behind
    /// those that wait already. A slot in the last generation is retired
    /// instead: no later insertion uses it.
    pub fn remove(&mut self, handle: Handle<T>) -> (r: Option<T>)
        requires
            old(self).wf(),
        ensures
            final(self).wf(),
            r == old(self)@.get(handle@),
            final(self)@ == old(self)@.remove(handle@),
    {
        match self.validate(handle) {
            Some(raw) => Some(self.vacate(raw.index)),
            None => None,
        }
    }

    /// Removes the value in the slot of `handle`, whatever its generation, and
    /// returns it.
    ///
    /// The slot holds a value.
    pub fn remove_raw(&mut self, handle: RawHandle<T>) -> (value: T)
        requires
            old(self).wf(),
            old(self)@.occupied(handle@),
        ensures
            final(self).wf(),
            Some(value) == old(self)@.slots[handle@ as int].value,
            final(self)@ == old(self)@.vacate(handle@),
    {
        self.vacate(handle.index)
    }
}

/// A handle to a value that was removed reaches nothing any more, whatever is
/// inserted afterwards, and in particular where the next insertion fills the
/// same slot again; the handle of that insertion reaches the new value.
pub proof fn lemma_stale_handle_misses<T>(pool: PoolView<T>, first: T, second: T)
    requires
        pool.wf(),
        pool.free.len() == 0 ==> pool.slots.len() <= u32::MAX,
        ({
            let removed = pool.insert(first).remove(pool.next_handle());
            removed.free.len() == 0 ==> removed.slots.len() <= u32::MAX
        }),
    ensures
        ({
            let h1 = pool.next_handle();
            let removed = pool.insert(first).remove(h1);
            let h2 = removed.next_handle();
            let last = removed.insert(second);
            &&& pool.insert(first).get(h1) == Some(first)
            &&& removed.get(h1) is None
            &&& last.get(h1) is None
            &&& last.get(h2) == Some(second)
            &&& h1 != h2
        }),
{
    let h1 = pool.next_handle();
    let filled = pool.insert(first);
    lemma_insert_keeps_wf(pool, first);
    assert(filled.valid(h1));
    let removed = filled.remove(h1);
    lemma_remove_keeps_wf(filled, h1);
    let h2 = removed.next_handle();
    let last = removed.insert(second);
    let generation = filled.slots[h1.index as int].generation;
    assert(removed == filled.vacate(h1.index));
    assert(removed.slots[h1.index as int].value is None);
    assert forall|k: int| 0 <= k < filled.free.len() implies (#[trigger] filled.free[k])
        != h1.index by {
        assert(filled.slots[filled.free[k] as int].value is None);
    }
    if removed.free.len() > 0 {
        let reused = removed.free[0];
        assert(removed.slots[reused as int].value is None);
        if reused == h1.index {
            if generation < u32::MAX {
                assert(removed.slots[reused as int].generation == generation + 1);
            } else {
                assert(removed.free[0] == filled.free[0]);
            }
        }
        assert(last.slots[reused as int] == (SlotView {
            generation: removed.slots[reused as int].generation,
            value: Some(second),
        }));
    } else {
        assert(h2.index == removed.slots.len());
        assert(last.slots[removed.slots.len() as int] == (SlotView {
            generation: 0,
            value: Some(second),
        }));
    }
}

/// Insertion keeps the view well-formed where the pool can take another slot.
pub proof fn lemma_insert_keeps_wf<T>(pool: PoolView<T>, value: T)
    requires
        pool.wf(),
        pool.free.len() == 0 ==> pool.slots.len() <= u32::MAX,
    ensures
        pool.insert(value).wf(),
{
    let after = pool.insert(value);
    if pool.free.len() > 0 {
        assert forall|k: int| 0 <= k < after.free.len() implies (#[trigger] after.free[k])
            < after.slots.len() && after.slots[after.free[k] as int].value is None by {
            assert(after.free[k] == pool.free[k + 1]);
        }
        assert forall|j: int, k: int| 0 <= j < k < after.free.len() implies (
        #[trigger] after.free[j]) != (#[trigger] after.free[k]) by {
            assert(after.free[j] == pool.free[j + 1]);
            assert(after.free[k] == pool.free[k + 1]);
        }
    }
}

/// Removal keeps the view well-formed.
pub proof fn lemma_remove_keeps_wf<T>(pool: PoolView<T>, handle: HandleView)
    requires
        pool.wf(),
    ensures
        pool.remove(handle).wf(),
{
    let after = pool.remove(handle);
    if pool.valid(handle) {
        assert forall|k: int| 0 <= k < pool.free.len() implies (#[trigger] pool.free[k])
            != handle.index by {
            assert(pool.slots[pool.free[k] as int].value is None);
        }
        assert forall|j: int, k: int| 0 <= j < k < after.free.len() implies (
        #[trigger] after.free[j]) != (#[trigger] after.free[k]) by {
            if j < pool.free.len() {
                assert(after.free[j] == pool.free[j]);
            }
            if k < pool.free.len() {
                assert(after.free[k] == pool.free[k]);
            }
        }
        assert forall|k: int| 0 <= k < after.free.len() implies (#[trigger] after.free[k])
            < after.slots.len() && after.slots[after.free[k] as int].value is None by {
            if k < pool.free.len() {
                assert(after.free[k] == pool.free[k]);
            }
        }
    }
}

impl<T> PoolView<T> {
    /// Whether the slot with the given index is out of use for good: it holds
    /// no value, is in its last generation, and is not among the free slots.
    pub open spec fn retired(self, index: u32) -> bool {
        &&& index < self.slots.len()
        &&& self.slots[index as int].value is None
        &&& self.slots[index as int].generation == u32::MAX
        &&& !self.free.contains(index)
    }
}

/// A slot whose value is removed in the last generation is retired, and a
/// retired slot stays retired: no insertion uses it, and no handle reaches
/// anything in it.
pub proof fn lemma_retired_slot_is_never_reused<T>(
    pool: PoolView<T>,
    index: u32,
    value: T,
    handle: HandleView,
)
    requires
        pool.wf(),
        pool.free.len() == 0 ==> pool.slots.len() <= u32::MAX,
    ensures
        pool.occupied(index) && pool.slots[index as int].generation == u32::MAX ==> pool.vacate(
            index,
        ).retired(index),
        pool.retired(index) ==> {
            &&& pool.next_handle().index != index
            &&& pool.insert(value).retired(index)
            &&& pool.remove(handle).retired(index)
            &&& handle.index == index ==> pool.get(handle) is None
        },
{
    if pool.occupied(index) && pool.slots[index as int].generation == u32::MAX {
        assert forall|k: int| 0 <= k < pool.free.len() implies (#[trigger] pool.free[k])
            != index by {
            assert(pool.slots[pool.free[k] as int].value is None);
        }
    }
    if pool.retired(index) {
        if pool.free.len() > 0 {
            assert(pool.free.contains(pool.free[0]));
            let after = pool.insert(value);
            assert forall|k: int| 0 <= k < after.free.len() implies (#[trigger] after.free[k])
                != index by {
                assert(after.free[k] == pool.free[k + 1]);
                assert(pool.free.contains(pool.free[k + 1]));
            }
        }
        if pool.valid(handle) {
            let after = pool.remove(handle);
            assert(handle.index != index);
            assert forall|k: int| 0 <= k < after.free.len() implies (#[trigger] after.free[k])
                != index by {
                if k < pool.free.len() {
                    assert(after.free[k] == pool.free[k]);
                    assert(pool.free.contains(pool.free[k]));
                }
            }
        }
    }
}

/// Where no slot is free, an insertion adds one slot behind the others and
/// changes none of them.
pub proof fn lemma_insert_grows_by_one<T>(pool: PoolView<T>, value: T)
    requires
        pool.wf(),
        pool.free.len() == 0,
    ensures
        pool.insert(value).slots.len() == pool.slots.len() + 1,
        forall|i: int| 0 <= i < pool.slots.len() ==> pool.insert(value).slots[i] == pool.slots[i],
        pool.next_handle().index == pool.slots.len() || pool.slots.len() > u32::MAX,
        pool.insert(value).slots[pool.slots.len() as int] == (SlotView {
            generation: 0,
            value: Some(value),
        }),
{
}

} // verus!
