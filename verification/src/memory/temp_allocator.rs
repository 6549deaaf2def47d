//! Ring allocator for short-lived, frame-scoped memory.
//!
//! Two counters that only grow, `allocated` and `freed`, mark the live span of
//! a circular buffer; reduced modulo the capacity they give the head and the
//! tail of the ring. Allocations are grouped into frames, and frames are
//! released in the order in which they were made.

use super::Error;
use vstd::arithmetic::div_mod::*;
use vstd::prelude::*;
use vstd::slice::slice_subrange;

verus! {

/// The smallest multiple of `b` that is not below `a`.
pub open spec fn spec_next_multiple_of(a: int, b: int) -> int {
    if a % b == 0 {
        a
    } else {
        a + b - a % b
    }
}

/// Rounds `a` up to a multiple of `b`.
pub fn next_multiple_of(a: u64, b: u64) -> (r: u64)
    requires
        b > 0,
        spec_next_multiple_of(a as int, b as int) <= u64::MAX,
    ensures
        r == spec_next_multiple_of(a as int, b as int),
{
    let rem: u64 = a % b;
    if rem == 0 {
        a
    } else {
        a + (b - rem)
    }
}

/// `spec_next_multiple_of(a, b)` is a multiple of `b`, is at least `a`, and no
/// multiple of `b` lies between the two.
pub proof fn lemma_next_multiple_of(a: int, b: int)
    requires
        0 <= a,
        0 < b,
    ensures
        spec_next_multiple_of(a, b) % b == 0,
        a <= spec_next_multiple_of(a, b) < a + b,
        forall|p: int| a <= p && #[trigger] (p % b) == 0 ==> spec_next_multiple_of(a, b) <= p,
{
    let n = spec_next_multiple_of(a, b);
    lemma_fundamental_div_mod(a, b);
    lemma_mod_bound(a, b);
    let q = a / b;
    if a % b != 0 {
        assert(n == b * (q + 1)) by (nonlinear_arith)
            requires
                n == a + b - a % b,
                a == b * q + a % b,
        ;
        lemma_mod_multiples_basic(q + 1, b);
        assert((q + 1) * b == b * (q + 1)) by (nonlinear_arith);
    }
    assert forall|p: int| a <= p && #[trigger] (p % b) == 0 implies n <= p by {
        lemma_fundamental_div_mod(p, b);
        let k = p / b;
        if p < n {
            // p = b * k with a <= p < n <= b * (q + 1) and a >= b * q
            assert(a % b != 0);
            assert(b * q < b * k && b * k < b * (q + 1)) by (nonlinear_arith)
                requires
                    a == b * q + a % b,
                    0 < a % b,
                    a <= p,
                    p == b * k,
                    p < n,
                    n == b * (q + 1),
            ;
            assert(false) by (nonlinear_arith)
                requires
                    0 < b,
                    b * q < b * k,
                    b * k < b * (q + 1),
            ;
        }
    }
}

/// Where a request lands in the ring: how many bytes are skipped in front of
/// it, and the offset of its first byte from the base of the heap.
pub struct Placement {
    pub padding: nat,
    pub heap_offset: nat,
}

/// Placement at the next aligned position after the head.
pub open spec fn place_aligned(head: nat, alignment: nat) -> Placement {
    let aligned = spec_next_multiple_of(head as int, alignment as int);
    Placement { padding: (aligned - head) as nat, heap_offset: aligned as nat }
}

/// Placement at the start of the buffer, skipping what is left behind the head.
pub open spec fn place_wrapped(capacity: nat, head: nat) -> Placement {
    Placement { padding: (capacity - head) as nat, heap_offset: 0 }
}

/// The placement rule of the ring. `freed` and `cursor` are the two counters;
/// the bytes between them are live.
///
/// With nothing live the whole buffer is free. With a live span of the whole
/// capacity or more nothing is. In between, the live bytes lie from the tail
/// up to the head, possibly across the seam, and a request goes to the next
/// aligned position behind the head if it fits there without crossing the seam
/// or the tail, else to offset zero if the tail leaves room there.
#[verifier::opaque]
pub open spec fn ring_placement(
    capacity: nat,
    freed: nat,
    cursor: nat,
    size: nat,
    alignment: nat,
) -> Option<Placement> {
    let tail = freed % capacity;
    let head = cursor % capacity;
    let aligned = spec_next_multiple_of(head as int, alignment as int);
    let live = cursor - freed;
    if live == 0 {
        if aligned + size <= capacity {
            Some(place_aligned(head, alignment))
        } else {
            Some(place_wrapped(capacity, head))
        }
    } else if live >= capacity {
        None
    } else if tail < head {
        if aligned + size <= capacity {
            Some(place_aligned(head, alignment))
        } else if size <= tail {
            Some(place_wrapped(capacity, head))
        } else {
            None
        }
    } else {
        if aligned + size <= tail {
            Some(place_aligned(head, alignment))
        } else {
            None
        }
    }
}

/// Bytes of the capacity that the live span leaves over.
pub open spec fn ring_available(capacity: nat, freed: nat, cursor: nat) -> nat {
    if cursor - freed <= capacity {
        (capacity - (cursor - freed)) as nat
    } else {
        0
    }
}

/// What `allocate` answers on a ring in the given state.
pub open spec fn allocation_outcome(
    capacity: nat,
    freed: nat,
    cursor: nat,
    size: nat,
    alignment: nat,
) -> Result<Allocation, Error> {
    if size > capacity {
        Err(Error::InsufficientCapacity)
    } else {
        match ring_placement(capacity, freed, cursor, size, alignment) {
            Some(p) => Ok(
                Allocation {
                    size: size as u64,
                    virtual_offset: (cursor + p.padding) as u64,
                    heap_offset: p.heap_offset as u64,
                },
            ),
            None => Err(
                Error::OutOfMemory {
                    capacity: capacity as u64,
                    available: ring_available(capacity, freed, cursor) as u64,
                    requested: size as u64,
                },
            ),
        }
    }
}

/// What `upload` answers on a ring in the given state, with the counter value
/// behind the request and the heap as it is afterwards: the bytes lie in the
/// heap where room was found for them. Where the ring has no heap the room is
/// taken all the same.
pub open spec fn upload_outcome(
    ring: AllocatorView,
    cursor: nat,
    values: Seq<u8>,
    alignment: nat,
) -> (Result<Allocation, Error>, nat, Option<Seq<u8>>) {
    let outcome = allocation_outcome(ring.capacity, ring.freed, cursor, values.len(), alignment);
    match outcome {
        Err(e) => (Err(e), cursor, ring.heap),
        Ok(a) => match ring.heap {
            None => (Err(Error::NoHeap), cursor_after(cursor, outcome), ring.heap),
            Some(bytes) => (
                Ok(a),
                cursor_after(cursor, outcome),
                Some(overwrite(bytes, a.heap_offset as int, values)),
            ),
        },
    }
}

/// The counter value behind a request that was answered with `outcome`.
pub open spec fn cursor_after(cursor: nat, outcome: Result<Allocation, Error>) -> nat {
    match outcome {
        Ok(a) => (a.virtual_offset + a.size) as nat,
        Err(_) => cursor,
    }
}

/// A span of the ring that was handed out.
#[derive(Debug, PartialEq, Eq)]
pub struct Allocation {
    /// Number of bytes.
    pub size: u64,
    /// Position in the counter space of the ring, which never wraps.
    pub virtual_offset: u64,
    /// Offset of the first byte from the base of the heap.
    pub heap_offset: u64,
}

/// The counter range that the allocations of one frame cover.
#[derive(Debug, Clone, Copy)]
pub struct FrameMarker {
    pub end: u64,
    pub start: u64,
}

/// Two markers are the same marker when they start at the same counter value.
impl PartialEq for FrameMarker {
    fn eq(&self, other: &Self) -> (same: bool) {
        self.start == other.start
    }
}

impl vstd::std_specs::cmp::PartialEqSpecImpl for FrameMarker {
    open spec fn obeys_eq_spec() -> bool {
        true
    }

    open spec fn eq_spec(&self, other: &Self) -> bool {
        self.start == other.start
    }
}

/// Markers are ordered by the counter value at which they start.
impl PartialOrd for FrameMarker {
    fn partial_cmp(&self, other: &Self) -> (order: Option<core::cmp::Ordering>) {
        if self.start < other.start {
            Some(core::cmp::Ordering::Less)
        } else if self.start == other.start {
            Some(core::cmp::Ordering::Equal)
        } else {
            Some(core::cmp::Ordering::Greater)
        }
    }
}

impl vstd::std_specs::cmp::PartialOrdSpecImpl for FrameMarker {
    open spec fn obeys_partial_cmp_spec() -> bool {
        true
    }

    open spec fn partial_cmp_spec(&self, other: &Self) -> Option<core::cmp::Ordering> {
        if self.start < other.start {
            Some(core::cmp::Ordering::Less)
        } else if self.start == other.start {
            Some(core::cmp::Ordering::Equal)
        } else {
            Some(core::cmp::Ordering::Greater)
        }
    }
}

/// The state of a ring as contracts see it.
pub struct AllocatorView {
    pub capacity: nat,
    pub freed: nat,
    pub allocated: nat,
    pub heap: Option<Seq<u8>>,
}

impl AllocatorView {
    /// A marker is released only when it starts where the last release ended.
    pub open spec fn accepts(self, marker: FrameMarker) -> bool {
        &&& marker.start == self.freed
        &&& marker.start <= marker.end
        &&& marker.end <= self.allocated
    }

    /// The ring after the release of `marker`.
    pub open spec fn release(self, marker: FrameMarker) -> AllocatorView {
        AllocatorView { freed: marker.end as nat, ..self }
    }
}

/// A ring of `capacity` bytes.
pub struct Allocator {
    capacity: u64,
    bytes_freed: u64,
    bytes_allocated: u64,
    heap: Option<Vec<u8>>,
}

impl View for Allocator {
    type V = AllocatorView;

    closed spec fn view(&self) -> AllocatorView {
        AllocatorView {
            capacity: self.capacity as nat,
            freed: self.bytes_freed as nat,
            allocated: self.bytes_allocated as nat,
            heap: match self.heap {
                Some(bytes) => Some(bytes@),
                None => None,
            },
        }
    }
}

impl Allocator {
    /// The counters are ordered, the capacity is not zero, and a heap, where
    /// there is one, has the capacity's length.
    pub closed spec fn wf(&self) -> bool {
        &&& self.capacity > 0
        &&& self.bytes_freed <= self.bytes_allocated
        &&& match self.heap {
            Some(bytes) => bytes@.len() == self.capacity,
            None => true,
        }
    }

    /// What `wf` says, over the view.
    pub proof fn lemma_wf(&self)
        requires
            self.wf(),
        ensures
            self@.capacity > 0,
            self@.capacity <= u64::MAX,
            self@.freed <= self@.allocated <= u64::MAX,
            self@.heap is Some ==> self@.heap->0.len() == self@.capacity,
    {
    }

    /// An empty ring over `heap`, or over no memory at all.
    pub fn new(capacity: u64, heap: Option<Vec<u8>>) -> (ring: Self)
        requires
            capacity > 0,
            heap is Some ==> heap->0@.len() == capacity,
        ensures
            ring.wf(),
            ring@ == (AllocatorView {
                capacity: capacity as nat,
                freed: 0,
                allocated: 0,
                heap: match heap {
                    Some(bytes) => Some(bytes@),
                    None => None,
                },
            }),
    {
        Self { capacity, bytes_freed: 0, bytes_allocated: 0, heap }
    }

    /// Number of bytes in the ring.
    pub fn capacity(&self) -> (capacity: u64)
        ensures
            capacity == self@.capacity,
    {
        self.capacity
    }

    /// The counter value behind the last allocation that was committed.
    pub fn bytes_allocated(&self) -> (allocated: u64)
        ensures
            allocated == self@.allocated,
    {
        self.bytes_allocated
    }

    /// The counter value up to which memory was released.
    pub fn bytes_freed(&self) -> (freed: u64)
        ensures
            freed == self@.freed,
    {
        self.bytes_freed
    }

    /// Bytes of the capacity that the live span leaves over.
    pub fn bytes_free(&self) -> (free: u64)
        requires
            self.wf(),
        ensures
            free == ring_available(self@.capacity, self@.freed, self@.allocated),
    {
        let live: u64 = self.bytes_allocated - self.bytes_freed;
        if live <= self.capacity {
            self.capacity - live
        } else {
            0
        }
    }

    /// The memory behind the ring, where it has any.
    pub fn heap(&self) -> (bytes: Option<&Vec<u8>>)
        ensures
            match bytes {
                Some(b) => self@.heap == Some(b@),
                None => self@.heap is None,
            },
    {
        self.heap.as_ref()
    }

    /// Opens a frame. Nothing is committed to the ring until the frame is
    /// finished.
    pub fn begin_frame(&mut self) -> (frame: FrameAllocator<'_>)
        requires
            old(self).wf(),
        ensures
            frame.wf(),
            frame.start() == old(self)@.allocated,
            frame.cursor() == old(self)@.allocated,
            frame.ring() == old(self)@,
            *final(frame.backing()) == *final(self),
    {
        FrameAllocator::new(self)
    }

    /// Whether `marker` is the next one to be released.
    pub fn accepts(&self, marker: &FrameMarker) -> (ok: bool)
        ensures
            ok == self@.accepts(*marker),
    {
        marker.start == self.bytes_freed && marker.start <= marker.end && marker.end
            <= self.bytes_allocated
    }

    /// Releases the memory of a frame. Frames are released in the order in
    /// which they were finished.
    pub fn free_frame(&mut self, marker: FrameMarker)
        requires
            old(self).wf(),
            old(self)@.accepts(marker),
        ensures
            final(self).wf(),
            final(self)@ == old(self)@.release(marker),
    {
        self.bytes_freed = self.bytes_freed + (marker.end - marker.start);
    }
}

/// Wherever the ring places a request, the request lies inside the buffer
/// without crossing the seam, starts at a multiple of the alignment, and sits
/// at its counter position reduced modulo the capacity.
pub proof fn lemma_placement_in_bounds(
    capacity: nat,
    freed: nat,
    cursor: nat,
    size: nat,
    alignment: nat,
)
    requires
        capacity > 0,
        alignment > 0,
        freed <= cursor,
        size <= capacity,
        ring_placement(capacity, freed, cursor, size, alignment) is Some,
    ensures
        ({
            let p = ring_placement(capacity, freed, cursor, size, alignment)->0;
            &&& p.heap_offset + size <= capacity
            &&& p.heap_offset % alignment == 0
            &&& p.padding <= capacity
            &&& size > 0 ==> (cursor + p.padding) % capacity == p.heap_offset
        }),
{
    reveal(ring_placement);
    let head = cursor % capacity;
    let p = ring_placement(capacity, freed, cursor, size, alignment)->0;
    lemma_mod_bound(cursor as int, capacity as int);
    lemma_mod_bound(freed as int, capacity as int);
    lemma_next_multiple_of(head as int, alignment as int);
    lemma_fundamental_div_mod(cursor as int, capacity as int);
    let q = cursor as int / capacity as int;
    if p == place_wrapped(capacity, head) && p.heap_offset == 0 && p.padding == capacity - head {
        assert(cursor + p.padding == capacity * (q + 1)) by (nonlinear_arith)
            requires
                cursor == capacity * q + head,
                p.padding == capacity - head,
        ;
        lemma_mod_multiples_basic(q + 1, capacity as int);
        assert((q + 1) * capacity == capacity * (q + 1)) by (nonlinear_arith);
    } else {
        assert(p == place_aligned(head, alignment));
        if size > 0 {
            assert(p.heap_offset < capacity);
            assert(cursor + p.padding == capacity * q + p.heap_offset);
            assert(q * capacity == capacity * q) by (nonlinear_arith);
            lemma_fundamental_div_mod_converse(
                (cursor + p.padding) as int,
                capacity as int,
                q,
                p.heap_offset as int,
            );
        }
    }
}

/// Whether `size` bytes from offset `p` on are a free, aligned stretch of the
/// buffer that does not cross the seam.
///
/// With nothing live every stretch is free, and with a live span of the
/// capacity or more none is. In between, the free bytes are those from the head
/// up to the tail in ring order: behind the head up to the end of the buffer
/// and in front of the tail, or between the two where the live bytes cross the
/// seam.
pub open spec fn gap_at(
    capacity: nat,
    freed: nat,
    cursor: nat,
    size: nat,
    alignment: nat,
    p: int,
) -> bool {
    let tail = freed % capacity;
    let head = cursor % capacity;
    let live = cursor - freed;
    &&& 0 <= p
    &&& p % (alignment as int) == 0
    &&& if live == 0 {
        p + size <= capacity
    } else if live >= capacity {
        false
    } else if tail < head {
        (head <= p && p + size <= capacity) || p + size <= tail
    } else {
        head <= p && p + size <= tail
    }
}

/// Where the live span is shorter than the capacity, the live bytes lie from
/// the tail up to the head in ring order.
pub proof fn lemma_live_positions(capacity: nat, freed: nat, cursor: nat, v: int)
    requires
        capacity > 0,
        0 < cursor - freed < capacity,
        freed <= v < cursor,
    ensures
        ({
            let tail = (freed % capacity) as int;
            let head = (cursor % capacity) as int;
            let pos = v % (capacity as int);
            &&& tail != head
            &&& tail < head ==> tail <= pos < head
            &&& tail > head ==> pos >= tail || pos < head
            &&& 0 <= pos < capacity
        }),
{
    let c = capacity as int;
    let tail = (freed % capacity) as int;
    let head = (cursor % capacity) as int;
    let qf = freed as int / c;
    let qc = cursor as int / c;
    let qv = v / c;
    let pos = v % c;
    lemma_fundamental_div_mod(freed as int, c);
    lemma_fundamental_div_mod(cursor as int, c);
    lemma_fundamental_div_mod(v, c);
    lemma_mod_bound(freed as int, c);
    lemma_mod_bound(cursor as int, c);
    lemma_mod_bound(v, c);
    assert(qf <= qv <= qc && qc <= qf + 1) by (nonlinear_arith)
        requires
            c > 0,
            freed == c * qf + tail,
            cursor == c * qc + head,
            v == c * qv + pos,
            0 <= tail < c,
            0 <= head < c,
            0 <= pos < c,
            freed <= v < cursor,
            cursor - freed < c,
    ;
    if qc == qf {
        assert(c * qv == c * qf) by (nonlinear_arith)
            requires
                qf <= qv <= qc,
                qc == qf,
        ;
    } else {
        assert(qc == qf + 1);
        assert(c * qc == c * qf + c) by (nonlinear_arith)
            requires
                qc == qf + 1,
        ;
        if qv == qf {
            assert(c * qv == c * qf) by (nonlinear_arith)
                requires
                    qv == qf,
            ;
        } else {
            assert(c * qv == c * qc) by (nonlinear_arith)
                requires
                    qf <= qv <= qc,
                    qv != qf,
                    qc == qf + 1,
            ;
        }
    }
}

/// No live byte lies in a gap.
pub proof fn lemma_gap_is_free(
    capacity: nat,
    freed: nat,
    cursor: nat,
    size: nat,
    alignment: nat,
    p: int,
    v: int,
)
    requires
        capacity > 0,
        freed <= cursor,
        gap_at(capacity, freed, cursor, size, alignment, p),
        freed <= v < cursor,
    ensures
        !(p <= v % (capacity as int) < p + size),
{
    lemma_live_positions(capacity, freed, cursor, v);
}

/// The ring places a request in a gap, so it hands out no byte that is live.
pub proof fn lemma_placement_is_gap(
    capacity: nat,
    freed: nat,
    cursor: nat,
    size: nat,
    alignment: nat,
)
    requires
        capacity > 0,
        alignment > 0,
        freed <= cursor,
        size <= capacity,
        ring_placement(capacity, freed, cursor, size, alignment) is Some,
    ensures
        gap_at(
            capacity,
            freed,
            cursor,
            size,
            alignment,
            ring_placement(capacity, freed, cursor, size, alignment)->0.heap_offset as int,
        ),
{
    reveal(ring_placement);
    let head = cursor % capacity;
    lemma_mod_bound(cursor as int, capacity as int);
    lemma_mod_bound(freed as int, capacity as int);
    lemma_next_multiple_of(head as int, alignment as int);
    lemma_placement_in_bounds(capacity, freed, cursor, size, alignment);
}

/// A request larger than the ring is turned down for its size, whatever is
/// free. Any other request is turned down exactly when the buffer holds no free,
/// aligned stretch of its size that does not cross the seam, and then for want
/// of memory.
pub proof fn lemma_allocation_failures(
    capacity: nat,
    freed: nat,
    cursor: nat,
    size: nat,
    alignment: nat,
)
    requires
        capacity > 0,
        alignment > 0,
        freed <= cursor,
    ensures
        size > capacity <==> allocation_outcome(capacity, freed, cursor, size, alignment) == Err::<
            Allocation,
            Error,
        >(Error::InsufficientCapacity),
        size <= capacity ==> (allocation_outcome(capacity, freed, cursor, size, alignment) is Err
            <==> !exists|p: int| gap_at(capacity, freed, cursor, size, alignment, p)),
        allocation_outcome(capacity, freed, cursor, size, alignment) is Err ==> (size > capacity
            || allocation_outcome(capacity, freed, cursor, size, alignment)->Err_0
            is OutOfMemory),
{
    reveal(ring_placement);
    let head = cursor % capacity;
    lemma_mod_bound(cursor as int, capacity as int);
    lemma_mod_bound(freed as int, capacity as int);
    lemma_next_multiple_of(head as int, alignment as int);
    if size <= capacity {
        if ring_placement(capacity, freed, cursor, size, alignment) is Some {
            lemma_placement_is_gap(capacity, freed, cursor, size, alignment);
        } else {
            assert forall|p: int| !gap_at(capacity, freed, cursor, size, alignment, p) by {
                if gap_at(capacity, freed, cursor, size, alignment, p) {
                    // the first aligned position behind the head is not behind `p`
                    if head <= p {
                        assert(p % (alignment as int) == 0);
                        assert(spec_next_multiple_of(head as int, alignment as int) <= p);
                    }
                }
            }
        }
    }
}

/// The ring after the release of `markers`, one after the other.
pub open spec fn release_all(ring: AllocatorView, markers: Seq<FrameMarker>) -> AllocatorView
    decreases markers.len(),
{
    if markers.len() == 0 {
        ring
    } else {
        release_all(ring.release(markers[0]), markers.subrange(1, markers.len() as int))
    }
}

/// Whether `markers` are those of frames that were finished one after the
/// other, the first of them the oldest that `ring` has not released.
pub open spec fn in_allocation_order(ring: AllocatorView, markers: Seq<FrameMarker>) -> bool {
    &&& forall|i: int| 0 <= i < markers.len() ==> (#[trigger] markers[i]).start <= markers[i].end
    &&& forall|i: int|
        0 < i < markers.len() ==> (#[trigger] markers[i]).start == markers[i - 1].end
    &&& markers.len() > 0 ==> markers[0].start == ring.freed && markers[markers.len() - 1].end
        <= ring.allocated
}

/// Markers that are released in the order in which their frames were finished
/// are accepted, each in its turn; a marker that does not start where the ring's
/// releases have ended is not.
pub proof fn lemma_release_in_order(ring: AllocatorView, markers: Seq<FrameMarker>, k: int)
    requires
        in_allocation_order(ring, markers),
        0 <= k < markers.len(),
    ensures
        release_all(ring, markers.subrange(0, k)).accepts(markers[k]),
        release_all(ring, markers.subrange(0, k)).freed == markers[k].start,
        forall|other: FrameMarker|
            other.start != markers[k].start ==> !release_all(ring, markers.subrange(0, k)).accepts(
                other,
            ),
    decreases k,
{
    lemma_marker_ends_ordered(markers, k, markers.len() - 1);
    if k == 0 {
        assert(markers.subrange(0, 0).len() == 0);
    } else {
        let rest = markers.subrange(1, markers.len() as int);
        let next = ring.release(markers[0]);
        assert(in_allocation_order(next, rest)) by {
            assert forall|i: int| 0 < i < rest.len() implies (#[trigger] rest[i]).start == rest[i
                - 1].end by {
                assert(markers[i + 1].start == markers[i].end);
            }
            assert forall|i: int| 0 <= i < rest.len() implies (#[trigger] rest[i]).start
                <= rest[i].end by {
                assert(markers[i + 1].start <= markers[i + 1].end);
            }
            assert(markers[1].start == markers[0].end);
        }
        lemma_release_in_order(next, rest, k - 1);
        let prefix = markers.subrange(0, k);
        assert(prefix.subrange(1, prefix.len() as int) =~= rest.subrange(0, k - 1));
        assert(prefix[0] == markers[0]);
        assert(rest[k - 1] == markers[k]);
    }
}

/// Once the oldest frame is released, the frames behind it are in allocation
/// order on the ring as it is then.
pub proof fn lemma_rest_in_order(ring: AllocatorView, markers: Seq<FrameMarker>)
    requires
        in_allocation_order(ring, markers),
        markers.len() > 0,
    ensures
        ring.accepts(markers[0]),
        in_allocation_order(ring.release(markers[0]), markers.drop_first()),
        markers.drop_first().len() == 0 ==> ring.release(markers[0]).freed == markers.last().end,
{
    let rest = markers.drop_first();
    lemma_marker_ends_ordered(markers, 0, markers.len() - 1);
    assert forall|i: int| 0 < i < rest.len() implies (#[trigger] rest[i]).start == rest[i - 1].end by {
        assert(markers[i + 1].start == markers[i].end);
    }
    assert forall|i: int| 0 <= i < rest.len() implies (#[trigger] rest[i]).start <= rest[i].end by {
        assert(markers[i + 1].start <= markers[i + 1].end);
    }
    if rest.len() > 0 {
        assert(markers[1].start == markers[0].end);
        assert(rest[0] == markers[1]);
        assert(rest[rest.len() - 1] == markers[markers.len() - 1]);
    }
}

/// A frame that begins where the committed memory of the ring ends comes
/// behind the live frames in allocation order.
pub proof fn lemma_next_in_order(ring: AllocatorView, markers: Seq<FrameMarker>, next: FrameMarker)
    requires
        in_allocation_order(ring, markers),
        ring.freed <= ring.allocated,
        markers.len() > 0 ==> markers.last().end == ring.allocated,
        markers.len() == 0 ==> ring.freed == ring.allocated,
        next.start == ring.allocated,
        next.start <= next.end,
    ensures
        in_allocation_order(
            AllocatorView { allocated: next.end as nat, ..ring },
            markers.push(next),
        ),
        markers.push(next).last().end == next.end,
{
    let all = markers.push(next);
    assert forall|i: int| 0 < i < all.len() implies (#[trigger] all[i]).start == all[i - 1].end by {
        if i < markers.len() {
            assert(markers[i].start == markers[i - 1].end);
        }
    }
    assert forall|i: int| 0 <= i < all.len() implies (#[trigger] all[i]).start <= all[i].end by {
        if i < markers.len() {
            assert(markers[i].start <= markers[i].end);
        }
    }
    if markers.len() > 0 {
        assert(all[0] == markers[0]);
    }
}

/// Markers in allocation order lie within the live span of the ring.
pub proof fn lemma_markers_within(ring: AllocatorView, markers: Seq<FrameMarker>, k: int)
    requires
        in_allocation_order(ring, markers),
        0 <= k < markers.len(),
    ensures
        ring.freed <= markers[k].start <= markers[k].end <= ring.allocated,
    decreases k,
{
    lemma_marker_ends_ordered(markers, k, markers.len() - 1);
    if k > 0 {
        lemma_markers_within(ring, markers, k - 1);
        assert(markers[k].start == markers[k - 1].end);
    }
}

/// Along markers in allocation order the ends do not decrease.
proof fn lemma_marker_ends_ordered(markers: Seq<FrameMarker>, i: int, j: int)
    requires
        forall|n: int| 0 <= n < markers.len() ==> (#[trigger] markers[n]).start <= markers[n].end,
        forall|n: int|
            0 < n < markers.len() ==> (#[trigger] markers[n]).start == markers[n - 1].end,
        0 <= i <= j < markers.len(),
    ensures
        markers[i].end <= markers[j].end,
    decreases j - i,
{
    if i < j {
        lemma_marker_ends_ordered(markers, i, j - 1);
        assert(markers[j].start == markers[j - 1].end);
        assert(markers[j].start <= markers[j].end);
    }
}

/// `size` bytes fit behind `pad` bytes of padding in `room` bytes.
fn fits_behind(pad: u64, size: u64, room: u64) -> (fits: bool)
    ensures
        fits == (pad + size <= room),
{
    pad <= room && size <= room - pad
}

/// `bytes` with the values from `offset` on replaced by `values`.
pub open spec fn overwrite(bytes: Seq<u8>, offset: int, values: Seq<u8>) -> Seq<u8> {
    Seq::new(
        bytes.len(),
        |i: int|
            if offset <= i < offset + values.len() {
                values[i - offset]
            } else {
                bytes[i]
            },
    )
}

/// Copies `values` into `heap` from `offset` on.
fn write_bytes(heap: &mut Vec<u8>, offset: usize, values: &[u8])
    requires
        offset + values@.len() <= old(heap)@.len(),
    ensures
        final(heap)@ == overwrite(old(heap)@, offset as int, values@),
{
    let mut i: usize = 0;
    let len: usize = heap.len();
    while i < values.len()
        invariant
            i <= values@.len(),
            heap@.len() == len,
            len == old(heap)@.len(),
            offset + values@.len() <= heap@.len(),
            heap@ == overwrite(old(heap)@, offset as int, values@.subrange(0, i as int)),
        decreases values@.len() - i,
    {
        heap[offset + i] = values[i];
        i = i + 1;
        assert(heap@ =~= overwrite(old(heap)@, offset as int, values@.subrange(0, i as int)));
    }
    assert(values@.subrange(0, i as int) =~= values@);
}

/// `heap` with `rows` rows of `row_len` bytes each, taken from `bytes` one
/// after the other, laid out from `base` on at a distance of `pitch` bytes from
/// row to row. The bytes between the rows are those of `heap`.
pub open spec fn staged(
    heap: Seq<u8>,
    base: int,
    pitch: int,
    row_len: int,
    rows: int,
    bytes: Seq<u8>,
) -> Seq<u8> {
    Seq::new(
        heap.len(),
        |k: int|
            if in_staged_row(k - base, pitch, row_len, rows) {
                bytes[((k - base) / pitch) * row_len + (k - base) % pitch]
            } else {
                heap[k]
            },
    )
}

/// Whether the byte at distance `rel` from the base lies in one of the first
/// `rows` rows.
pub open spec fn in_staged_row(rel: int, pitch: int, row_len: int, rows: int) -> bool {
    0 <= rel < pitch * rows && rel % pitch < row_len
}

/// Laying out one more row is writing that row behind the rows laid out so far.
proof fn lemma_stage_row(
    heap: Seq<u8>,
    base: int,
    pitch: int,
    row_len: int,
    i: int,
    bytes: Seq<u8>,
)
    requires
        0 <= base,
        0 <= row_len <= pitch,
        0 < pitch,
        0 <= i,
        base + pitch * (i + 1) <= heap.len(),
        row_len * (i + 1) <= bytes.len(),
    ensures
        staged(heap, base, pitch, row_len, i + 1, bytes) == overwrite(
            staged(heap, base, pitch, row_len, i, bytes),
            base + pitch * i,
            bytes.subrange(row_len * i, row_len * (i + 1)),
        ),
{
    let before = staged(heap, base, pitch, row_len, i, bytes);
    let row = bytes.subrange(row_len * i, row_len * (i + 1));
    let after = overwrite(before, base + pitch * i, row);
    let target = staged(heap, base, pitch, row_len, i + 1, bytes);
    assert(pitch * (i + 1) == pitch * i + pitch) by (nonlinear_arith);
    assert(row_len * (i + 1) == row_len * i + row_len) by (nonlinear_arith);
    assert(pitch * i >= 0) by (nonlinear_arith)
        requires
            pitch > 0,
            i >= 0,
    ;
    assert forall|k: int| 0 <= k < heap.len() implies target[k] == after[k] by {
        let rel = k - base;
        if 0 <= rel {
            lemma_fundamental_div_mod(rel, pitch);
            lemma_mod_bound(rel, pitch);
            let q = rel / pitch;
            let r = rel % pitch;
            assert(rel == pitch * q + r);
            if pitch * i <= rel < pitch * i + pitch {
                assert(q == i) by (nonlinear_arith)
                    requires
                        rel == pitch * q + r,
                        0 <= r < pitch,
                        pitch * i <= rel < pitch * i + pitch,
                        pitch > 0,
                ;
                assert(pitch * q == pitch * i);
                assert(q * row_len == row_len * i) by (nonlinear_arith)
                    requires
                        q == i,
                ;
            }
        }
    }
    assert(target =~= after);
}

/// Collects the allocations of one frame.
pub struct FrameAllocator<'a> {
    bytes_allocated_at_start: u64,
    bytes_allocated: u64,
    allocator: &'a mut Allocator,
}

impl<'a> FrameAllocator<'a> {
    /// The counter value at which the frame began.
    pub closed spec fn start(&self) -> nat {
        self.bytes_allocated_at_start as nat
    }

    /// The counter value behind the frame's last allocation.
    pub closed spec fn cursor(&self) -> nat {
        self.bytes_allocated as nat
    }

    /// The ring that the frame allocates from.
    pub closed spec fn backing(&self) -> &'a mut Allocator {
        self.allocator
    }

    /// The state of that ring.
    pub open spec fn ring(&self) -> AllocatorView {
        (*self.backing())@
    }

    /// The frame lies behind everything that the ring has committed.
    pub closed spec fn wf(&self) -> bool {
        &&& self.allocator.wf()
        &&& self.allocator.bytes_allocated == self.bytes_allocated_at_start
        &&& self.bytes_allocated_at_start <= self.bytes_allocated
    }

    /// What `wf` says, over the spec functions.
    pub proof fn lemma_wf(&self)
        requires
            self.wf(),
        ensures
            self.backing().wf(),
            self.ring().allocated == self.start(),
            self.ring().freed <= self.start() <= self.cursor() <= u64::MAX,
    {
    }

    /// Opens a frame on `allocator`. Nothing is committed to the ring until the
    /// frame is finished.
    pub fn new(allocator: &'a mut Allocator) -> (frame: Self)
        requires
            old(allocator).wf(),
        ensures
            frame.wf(),
            frame.start() == old(allocator)@.allocated,
            frame.cursor() == old(allocator)@.allocated,
            frame.ring() == old(allocator)@,
            *final(frame.backing()) == *final(allocator),
    {
        Self {
            bytes_allocated_at_start: allocator.bytes_allocated,
            bytes_allocated: allocator.bytes_allocated,
            allocator,
        }
    }

    /// Reserves `size` bytes at a multiple of `alignment`.
    ///
    /// A request larger than the whole ring is answered with
    /// `InsufficientCapacity`; one for which the live span leaves no aligned
    /// room that does not cross the seam, with `OutOfMemory`. A request that
    /// fails leaves the frame as it was.
    pub fn allocate(&mut self, size: u64, alignment: u64) -> (r: Result<Allocation, Error>)
        requires
            old(self).wf(),
            alignment > 0,
            old(self).cursor() + 2 * old(self).ring().capacity <= u64::MAX,
        ensures
            final(self).wf(),
            final(self).backing() == old(self).backing(),
            final(self).start() == old(self).start(),
            r == allocation_outcome(
                old(self).ring().capacity,
                old(self).ring().freed,
                old(self).cursor(),
                size as nat,
                alignment as nat,
            ),
            final(self).cursor() == cursor_after(old(self).cursor(), r),
    {
        proof {
            reveal(ring_placement);
        }
        let capacity: u64 = self.allocator.capacity;
        if size > capacity {
            return Err(Error::InsufficientCapacity);
        }
        let tail: u64 = self.allocator.bytes_freed % capacity;
        let head: u64 = self.bytes_allocated % capacity;
        let live: u64 = self.bytes_allocated - self.allocator.bytes_freed;
        let rem: u64 = head % alignment;
        let pad: u64 = if rem == 0 {
            0
        } else {
            alignment - rem
        };
        // `Some(false)` places at the aligned position, `Some(true)` at offset zero.
        let wrap: Option<bool> = if live == 0 {
            Some(!fits_behind(pad, size, capacity - head))
        } else if live >= capacity {
            None
        } else if tail < head {
            if fits_behind(pad, size, capacity - head) {
                Some(false)
            } else if size <= tail {
                Some(true)
            } else {
                None
            }
        } else {
            if fits_behind(pad, size, tail - head) {
                Some(false)
            } else {
                None
            }
        };
        match wrap {
            None => {
                let available: u64 = if live <= capacity {
                    capacity - live
                } else {
                    0
                };
                Err(Error::OutOfMemory { capacity, available, requested: size })
            },
            Some(wrapped) => {
                let padding: u64 = if wrapped {
                    capacity - head
                } else {
                    pad
                };
                let heap_offset: u64 = if wrapped {
                    0
                } else {
                    head + pad
                };
                let virtual_offset: u64 = self.bytes_allocated + padding;
                self.bytes_allocated = virtual_offset + size;
                Ok(Allocation { size, virtual_offset, heap_offset })
            },
        }
    }

    /// Reserves room for `values` and copies them into the heap at the offset
    /// that was reserved.
    ///
    /// Fails as `allocate` does. On a ring without a heap the room is reserved
    /// all the same and `NoHeap` is returned.
    pub fn upload(&mut self, values: &[u8], alignment: u64) -> (r: Result<Allocation, Error>)
        requires
            old(self).wf(),
            alignment > 0,
            old(self).cursor() + 2 * old(self).ring().capacity <= u64::MAX,
        ensures
            final(self).wf(),
            *final(final(self).backing()) == *final(old(self).backing()),
            final(self).start() == old(self).start(),
            r == upload_outcome(old(self).ring(), old(self).cursor(), values@, alignment as nat).0,
            final(self).cursor() == upload_outcome(
                old(self).ring(),
                old(self).cursor(),
                values@,
                alignment as nat,
            ).1,
            final(self).ring() == (AllocatorView {
                heap: upload_outcome(
                    old(self).ring(),
                    old(self).cursor(),
                    values@,
                    alignment as nat,
                ).2,
                ..old(self).ring()
            }),
            final(self).cursor() <= old(self).cursor() + 2 * old(self).ring().capacity,
    {
        let size: u64 = values.len() as u64;
        proof {
            if allocation_outcome(
                old(self).ring().capacity,
                old(self).ring().freed,
                old(self).cursor(),
                size as nat,
                alignment as nat,
            ) is Ok {
                lemma_placement_in_bounds(
                    old(self).ring().capacity,
                    old(self).ring().freed,
                    old(self).cursor(),
                    size as nat,
                    alignment as nat,
                );
            }
        }
        let allocation = self.allocate(size, alignment)?;
        match &mut self.allocator.heap {
            None => Err(Error::NoHeap),
            Some(heap) => {
                let len: usize = heap.len();
                assert(allocation.heap_offset + size <= len);
                let offset: usize = allocation.heap_offset as usize;
                write_bytes(heap, offset, values);
                Ok(allocation)
            },
        }
    }

    /// Reserves room for `rows` rows of pixels and copies them into the heap,
    /// `row_pitch` bytes apart. `bytes` holds the rows one after the other,
    /// `row_len` bytes each.
    ///
    /// Fails as `allocate` does. On a ring without a heap the room is reserved
    /// all the same and `NoHeap` is returned.
    pub fn upload_rows(
        &mut self,
        bytes: &[u8],
        row_len: usize,
        rows: usize,
        row_pitch: u64,
        alignment: u64,
    ) -> (r: Result<Allocation, Error>)
        requires
            old(self).wf(),
            alignment > 0,
            old(self).cursor() + 2 * old(self).ring().capacity <= u64::MAX,
            bytes@.len() == row_len * rows,
            0 < row_pitch,
            row_len <= row_pitch,
            row_pitch * rows <= u64::MAX,
        ensures
            final(self).wf(),
            *final(final(self).backing()) == *final(old(self).backing()),
            final(self).start() == old(self).start(),
            final(self).cursor() == cursor_after(
                old(self).cursor(),
                allocation_outcome(
                    old(self).ring().capacity,
                    old(self).ring().freed,
                    old(self).cursor(),
                    (row_pitch * rows) as nat,
                    alignment as nat,
                ),
            ),
            match allocation_outcome(
                old(self).ring().capacity,
                old(self).ring().freed,
                old(self).cursor(),
                (row_pitch * rows) as nat,
                alignment as nat,
            ) {
                Err(e) => r == Err::<Allocation, Error>(e) && final(self).ring() == old(self).ring(),
                Ok(a) => match old(self).ring().heap {
                    None => r == Err::<Allocation, Error>(Error::NoHeap) && final(self).ring() == old(
                        self,
                    ).ring(),
                    Some(heap) => r == Ok::<Allocation, Error>(a) && final(self).ring() == (
                    AllocatorView {
                        heap: Some(
                            staged(
                                heap,
                                a.heap_offset as int,
                                row_pitch as int,
                                row_len as int,
                                rows as int,
                                bytes@,
                            ),
                        ),
                        ..old(self).ring()
                    }),
                },
            },
    {
        proof {
            assert(row_pitch * rows >= 0) by (nonlinear_arith)
                requires
                    row_pitch > 0,
                    rows >= 0,
            ;
        }
        let size: u64 = row_pitch * (rows as u64);
        let allocation = self.allocate(size, alignment)?;
        proof {
            lemma_placement_in_bounds(
                old(self).ring().capacity,
                old(self).ring().freed,
                old(self).cursor(),
                size as nat,
                alignment as nat,
            );
        }
        match &mut self.allocator.heap {
            None => Err(Error::NoHeap),
            Some(heap) => {
                let len: usize = heap.len();
                let base: usize = allocation.heap_offset as usize;
                let pitch: usize = if rows > 0 {
                    assert(row_pitch <= row_pitch * rows) by (nonlinear_arith)
                        requires
                            rows > 0,
                            row_pitch > 0,
                    ;
                    row_pitch as usize
                } else {
                    1
                };
                let ghost before = heap@;
                let total: usize = bytes.len();
                let mut i: usize = 0;
                assert(heap@ =~= staged(
                    before,
                    base as int,
                    row_pitch as int,
                    row_len as int,
                    0,
                    bytes@,
                )) by {
                    assert(row_pitch * 0 == 0);
                }
                while i < rows
                    invariant
                        i <= rows,
                        rows > 0 ==> pitch == row_pitch,
                        0 < row_pitch,
                        row_len <= row_pitch,
                        bytes@.len() == row_len * rows,
                        bytes@.len() == total,
                        heap@.len() == len,
                        before.len() == len,
                        base + row_pitch * rows <= len,
                        heap@ == staged(
                            before,
                            base as int,
                            row_pitch as int,
                            row_len as int,
                            i as int,
                            bytes@,
                        ),
                    decreases rows - i,
                {
                    proof {
                        assert(row_pitch * (i + 1) <= row_pitch * rows) by (nonlinear_arith)
                            requires
                                i < rows,
                                row_pitch > 0,
                        ;
                        assert(row_len * (i + 1) <= row_len * rows) by (nonlinear_arith)
                            requires
                                i < rows,
                                row_len >= 0,
                        ;
                        assert(row_pitch * (i + 1) == row_pitch * i + row_pitch)
                            by (nonlinear_arith);
                        assert(row_len * (i + 1) == row_len * i + row_len) by (nonlinear_arith);
                        assert(row_pitch * i >= 0 && row_len * i >= 0) by (nonlinear_arith)
                            requires
                                row_pitch > 0,
                                row_len >= 0,
                                i >= 0,
                        ;
                        lemma_stage_row(
                            before,
                            base as int,
                            row_pitch as int,
                            row_len as int,
                            i as int,
                            bytes@,
                        );
                    }
                    let row = slice_subrange(bytes, row_len * i, row_len * i + row_len);
                    write_bytes(heap, base + pitch * i, row);
                    i = i + 1;
                }
                Ok(allocation)
            },
        }
    }

    /// Closes the frame and commits its allocations to the ring.
    pub fn finish(self) -> (marker: FrameMarker)
        requires
            self.wf(),
        ensures
            marker.start == self.start(),
            marker.end == self.cursor(),
            final(self.backing()).wf(),
            final(self.backing())@ == (AllocatorView {
                allocated: self.cursor(),
                ..self.ring()
            }),
    {
        let mut this = self;
        this.allocator.bytes_allocated = this.bytes_allocated;
        FrameMarker { end: this.bytes_allocated, start: this.bytes_allocated_at_start }
    }
}

} // verus!
