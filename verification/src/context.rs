//! The graphics context: one submission queue, the ring of upload memory that
//! its frames draw from, and the images that were handed out.
//!
//! A frame goes through the context in two steps. `begin_frame` takes back what
//! the oldest complete frame owned, releases that frame's upload memory, and
//! stages the new frame's vertices and indices in upload memory. The caller
//! records and executes the commands. `submit_frame` then queues the frame, with the
//! marker of its upload memory attached, so that the memory is released only
//! when the frame is known to be complete.

use crate::generational_pool::GenerationalPool;
use crate::generational_pool::Handle;
use crate::generational_pool::PoolView;
use crate::memory::temp_allocator::allocation_outcome;
use crate::memory::temp_allocator::cursor_after;
use crate::memory::temp_allocator::in_allocation_order;
use crate::memory::temp_allocator::upload_outcome;
use crate::memory::temp_allocator::Allocation;
use crate::memory::temp_allocator::Allocator;
use crate::memory::temp_allocator::AllocatorView;
use crate::memory::temp_allocator::FrameAllocator;
use crate::memory::temp_allocator::FrameMarker;
use crate::memory::Error;
use crate::pixel_buffer::PixelBufferRef;
use crate::pixel_buffer::PixelBufferView;
use crate::queue::Graphics;
use crate::queue::QueueView;
use crate::queue::RecordPlan;
use crate::queue::Recording;
use crate::queue::SubmissionId;
use crate::queue::SubmissionView;
use crate::render_graph::all_rect_vertex_words;
use crate::render_graph::all_vertex_words;
use crate::render_graph::indices_bytes;
use crate::render_graph::words_bytes;
use crate::render_graph::DrawCall;
use crate::render_graph::GraphView;
use crate::render_graph::RenderGraph;
use crate::render_graph::RenderGraphNodeId;
use vstd::arithmetic::div_mod::lemma_fundamental_div_mod;
use vstd::prelude::*;

verus! {

/// Bytes of one immediate-mode vertex in upload memory: eight 32-bit values.
pub const VERTEX_SIZE: u64 = 32;

/// Bytes of one corner of a rounded rectangle in upload memory: eighteen 32-bit
/// values.
pub const RECT_VERTEX_SIZE: u64 = 72;

/// Alignment of vertex data in upload memory.
pub const VERTEX_ALIGNMENT: u64 = 4;

/// Alignment of index data in upload memory.
pub const INDEX_ALIGNMENT: u64 = 2;

/// Rows of texture data in upload memory begin at multiples of this many bytes
/// from the first row.
pub const TEXTURE_DATA_PITCH_ALIGNMENT: u32 = 256;

/// Texture data in upload memory begins at a multiple of this many bytes.
pub const TEXTURE_DATA_PLACEMENT_ALIGNMENT: u64 = 512;

/// The smallest multiple of `multiple` that is not below `value`.
pub open spec fn spec_next_multiple_of_u32(value: u32, multiple: u32) -> int {
    crate::memory::temp_allocator::spec_next_multiple_of(value as int, multiple as int)
}

/// Rounds `value` up to a multiple of `multiple`. The result fits in 32 bits.
pub fn next_multiple_of_u32(value: u32, multiple: u32) -> (r: u32)
    requires
        multiple > 0,
        spec_next_multiple_of_u32(value, multiple) <= u32::MAX,
    ensures
        r == spec_next_multiple_of_u32(value, multiple),
{
    let remainder: u32 = value % multiple;
    if remainder == 0 {
        value
    } else {
        value + (multiple - remainder)
    }
}

/// How the rows of an image lie in upload memory.
#[derive(Clone, Copy, Debug, PartialEq, Eq)]
pub struct Footprint {
    /// Pixels in a row.
    pub width: u32,
    /// Number of rows.
    pub height: u32,
    /// Bytes from the start of one row to the start of the next.
    pub row_pitch: u32,
}

/// The footprint of `pixels`: its width and height, with rows that begin at
/// multiples of the pitch alignment.
pub open spec fn spec_footprint(pixels: PixelBufferView) -> Footprint {
    Footprint {
        width: pixels.width,
        height: pixels.rows() as u32,
        row_pitch: spec_next_multiple_of_u32(
            pixels.row_pitch() as u32,
            TEXTURE_DATA_PITCH_ALIGNMENT,
        ) as u32,
    }
}

/// Whether an image can be staged: it is not empty in width, holds whole rows,
/// and its height and the pitch of its rows in upload memory fit in 32 bits.
pub open spec fn stageable(pixels: PixelBufferView) -> bool {
    &&& pixels.width > 0
    &&& pixels.row_pitch() + TEXTURE_DATA_PITCH_ALIGNMENT <= u32::MAX
    &&& pixels.bytes.len() % pixels.row_pitch() == 0
    &&& pixels.rows() <= u32::MAX
}

/// Whether `pixels` can be staged; see `stageable`.
pub fn is_stageable(pixels: &PixelBufferRef<'_>) -> (ok: bool)
    ensures
        ok == stageable(pixels@),
{
    let width: u32 = pixels.width();
    if width == 0 || width > (u32::MAX - TEXTURE_DATA_PITCH_ALIGNMENT) / 4 {
        return false;
    }
    let pitch: usize = width as usize * pixels.format().bytes_per_pixel();
    let len: usize = pixels.bytes().len();
    len % pitch == 0 && len / pitch <= u32::MAX as usize
}

/// The footprint that `pixels` has in upload memory.
pub fn image_footprint(pixels: &PixelBufferRef<'_>) -> (footprint: Footprint)
    requires
        stageable(pixels@),
    ensures
        footprint == spec_footprint(pixels@),
        pixels@.row_pitch() <= footprint.row_pitch,
{
    proof {
        crate::memory::temp_allocator::lemma_next_multiple_of(
            pixels@.row_pitch() as int,
            TEXTURE_DATA_PITCH_ALIGNMENT as int,
        );
    }
    let height: u32 = pixels.height();
    let row_bytes: u32 = pixels.width() * (pixels.format().bytes_per_pixel() as u32);
    Footprint {
        width: pixels.width(),
        height,
        row_pitch: next_multiple_of_u32(row_bytes, TEXTURE_DATA_PITCH_ALIGNMENT),
    }
}

/// A GPU texture with the id of the last submission that reads or writes it.
/// The texture may be destroyed once that submission is complete.
pub struct Image<R> {
    pub resource: R,
    pub last_use: SubmissionId,
}

impl<R> Image<R> {
    /// An image that no submission has used.
    pub fn new(resource: R) -> (image: Self)
        ensures
            image.resource == resource,
            image.last_use == SubmissionId(0),
    {
        Self { resource, last_use: SubmissionId(0) }
    }
}

/// Where the data of a frame lies in upload memory.
pub struct FrameUploads {
    pub vertex_memory: Allocation,
    pub index_memory: Allocation,
    pub rect_memory: Allocation,
}

/// What the caller records a frame from.
pub struct FramePlan<C, A> {
    /// What to record with: resources of a complete frame to use again, where
    /// there are any.
    pub record: RecordPlan<C, A, FrameMarker>,
    /// Where the frame's vertices and indices lie in upload memory; or why the
    /// frame cannot be drawn, in which case an empty recording is submitted.
    pub uploads: Result<FrameUploads, Error>,
    /// The draw calls to record, in drawing order.
    pub calls: Vec<DrawCall>,
    /// The id that the frame is submitted under: the value to signal the fence
    /// to behind the frame's commands.
    pub id: SubmissionId,
}

/// What the caller records the upload of an image from.
pub struct ImagePlan<C, A> {
    /// What to record with: resources of a complete frame to use again, where
    /// there are any.
    pub record: RecordPlan<C, A, FrameMarker>,
    /// Where the rows of the image lie in upload memory; or why the image
    /// cannot be uploaded, in which case an empty recording is submitted.
    pub staging: Result<Allocation, Error>,
    /// How the rows lie there.
    pub footprint: Footprint,
    /// The id that the upload is submitted under: the value to signal the fence
    /// to behind its commands.
    pub id: SubmissionId,
}

/// The markers that `submissions` carry, oldest first.
pub open spec fn markers_of<A>(submissions: Seq<SubmissionView<A, FrameMarker>>) -> Seq<
    FrameMarker,
> {
    Seq::new(submissions.len(), |i: int| submissions[i].data)
}

/// The three uploads that a frame with `content` makes, one after the other, on
/// a ring in the given state: the vertices, the indices and the corners of the
/// rectangles, each as the bytes that the GPU reads. The first upload that
/// fails ends the sequence; what was uploaded before stays. With the answer
/// come the counter value behind the last upload and the heap.
pub open spec fn frame_requests(ring: AllocatorView, cursor: nat, content: GraphView) -> (
    Result<FrameUploads, Error>,
    nat,
    Option<Seq<u8>>,
) {
    let first = upload_outcome(
        ring,
        cursor,
        words_bytes(all_vertex_words(content.vertices)),
        VERTEX_ALIGNMENT as nat,
    );
    match first.0 {
        Err(e) => (Err(e), first.1, first.2),
        Ok(vertex_memory) => {
            let second = upload_outcome(
                AllocatorView { heap: first.2, ..ring },
                first.1,
                indices_bytes(content.indices),
                INDEX_ALIGNMENT as nat,
            );
            match second.0 {
                Err(e) => (Err(e), second.1, second.2),
                Ok(index_memory) => {
                    let third = upload_outcome(
                        AllocatorView { heap: second.2, ..ring },
                        second.1,
                        words_bytes(all_rect_vertex_words(content.rect_vertices)),
                        VERTEX_ALIGNMENT as nat,
                    );
                    match third.0 {
                        Err(e) => (Err(e), third.1, third.2),
                        Ok(rect_memory) => (
                            Ok(FrameUploads { vertex_memory, index_memory, rect_memory }),
                            third.1,
                            third.2,
                        ),
                    }
                },
            }
        },
    }
}

/// The state of a context as contracts see it.
pub struct ContextView<C, A, R> {
    pub queue: QueueView<C, A, FrameMarker>,
    pub ring: AllocatorView,
    /// The marker of the frame that is being recorded.
    pub frame: Option<FrameMarker>,
    /// The images that were handed out.
    pub images: PoolView<Image<R>>,
}

impl<C, A, R> ContextView<C, A, R> {
    /// The markers of all frames whose upload memory is live: those of the
    /// queued frames, oldest first, and that of the frame being recorded.
    pub open spec fn live_markers(self) -> Seq<FrameMarker> {
        match self.frame {
            Some(marker) => markers_of(self.queue.submissions).push(marker),
            None => markers_of(self.queue.submissions),
        }
    }

    /// The queue is in order, and the live frames cover the live span of the
    /// ring, each frame beginning where the one before it ends: so the frames
    /// are released in the order in which they were made, and none before it is
    /// complete.
    pub open spec fn wf(self) -> bool {
        &&& self.queue.wf()
        &&& 0 < self.ring.capacity <= u64::MAX
        &&& self.ring.freed <= self.ring.allocated <= u64::MAX
        &&& in_allocation_order(self.ring, self.live_markers())
        &&& self.live_markers().len() > 0 ==> self.live_markers().last().end == self.ring.allocated
        &&& self.live_markers().len() == 0 ==> self.ring.freed == self.ring.allocated
        &&& self.images.wf()
    }

    /// The ring after recording began: the memory of the oldest frame is
    /// released if that frame is complete.
    pub open spec fn ring_after_record(self, completed: u64) -> AllocatorView {
        if self.queue.recycles(completed) {
            self.ring.release(self.queue.submissions[0].data)
        } else {
            self.ring
        }
    }
}

/// The graphics context.
pub struct GraphicsContext<C, A, R> {
    graphics_queue: Graphics<C, A, FrameMarker>,
    upload_allocator: Allocator,
    images: GenerationalPool<Image<R>>,
    frame: Option<FrameMarker>,
}

impl<C, A, R> View for GraphicsContext<C, A, R> {
    type V = ContextView<C, A, R>;

    closed spec fn view(&self) -> ContextView<C, A, R> {
        ContextView {
            queue: self.graphics_queue@,
            ring: self.upload_allocator@,
            frame: self.frame,
            images: self.images@,
        }
    }
}

impl<C, A, R> GraphicsContext<C, A, R> {
    /// The queue, the ring and the pool of images are sound each, and the view
    /// is.
    pub closed spec fn wf(&self) -> bool {
        &&& self@.wf()
        &&& self.upload_allocator.wf()
        &&& self.images.wf()
    }

    /// A sound context has a sound view.
    pub proof fn lemma_wf(&self)
        requires
            self.wf(),
        ensures
            self@.wf(),
    {
    }

    /// Every frame that is queued or being recorded lies within the live span
    /// of the ring, so the ring hands out none of its upload memory until the
    /// frame is taken back as complete.
    pub proof fn lemma_frames_are_live(&self, i: int)
        requires
            self.wf(),
            0 <= i < self@.live_markers().len(),
        ensures
            self@.ring.freed <= self@.live_markers()[i].start,
            self@.live_markers()[i].start <= self@.live_markers()[i].end,
            self@.live_markers()[i].end <= self@.ring.allocated,
    {
        let markers = self@.live_markers();
        crate::memory::temp_allocator::lemma_release_in_order(self@.ring, markers, i);
        crate::memory::temp_allocator::lemma_markers_within(self@.ring, markers, i);
    }

    /// A context without frames and images, over a ring of `upload_buffer_size`
    /// bytes of upload memory.
    pub fn new(upload_buffer_size: u64, heap: Option<Vec<u8>>) -> (context: Self)
        requires
            upload_buffer_size > 0,
            heap is Some ==> heap->0@.len() == upload_buffer_size,
        ensures
            context.wf(),
            context@.frame is None,
            context@.queue == (QueueView::<C, A, FrameMarker> {
                last_value: 0,
                next_value: 1,
                commands: Seq::empty(),
                submissions: Seq::empty(),
            }),
            context@.ring.capacity == upload_buffer_size,
            context@.ring.freed == 0,
            context@.ring.allocated == 0,
            context@.images == (PoolView::<Image<R>> {
                slots: seq![crate::generational_pool::SlotView { generation: 1, value: None }],
                free: seq![0u32],
            }),
    {
        let context = Self {
            graphics_queue: Graphics::new(),
            upload_allocator: Allocator::new(upload_buffer_size, heap),
            images: GenerationalPool::new(),
            frame: None,
        };
        assert(context@.live_markers() =~= Seq::empty());
        proof {
            context.images.lemma_wf();
        }
        context
    }

    /// Takes an image into the context and returns the handle that reaches it.
    /// `last_use` is the id of the submission that fills the image; zero where
    /// none does.
    pub fn upload_image(&mut self, resource: R, last_use: SubmissionId) -> (handle: Handle<Image<R>>)
        requires
            old(self).wf(),
            old(self)@.images.free.len() == 0 ==> old(self)@.images.slots.len() <= u32::MAX,
        ensures
            final(self).wf(),
            final(self)@ == (ContextView {
                images: old(self)@.images.insert(Image { resource, last_use }),
                ..old(self)@
            }),
            handle@ == old(self)@.images.next_handle(),
    {
        let handle = self.images.insert(Image { resource, last_use });
        proof {
            self.images.lemma_wf();
        }
        handle
    }

    /// The image that `handle` reaches.
    pub fn image(&self, handle: Handle<Image<R>>) -> (image: Option<&Image<R>>)
        requires
            self.wf(),
        ensures
            match image {
                Some(found) => self@.images.get(handle@) == Some(*found),
                None => self@.images.get(handle@) is None,
            },
    {
        self.images.get(handle)
    }

    /// Takes the image that `handle` reaches out of the context, for the caller
    /// to destroy, if the last submission that uses it is complete. An image
    /// that the GPU may still use stays where it is, and so does everything on a
    /// handle that reaches nothing; the answer is `None` then.
    ///
    /// `completed` is the value read from the fence. It is looked at only where
    /// the image's last use is newer than what is known to be reached.
    pub fn destroy_image(&mut self, handle: Handle<Image<R>>, completed: u64) -> (image: Option<
        Image<R>,
    >)
        requires
            old(self).wf(),
        ensures
            final(self).wf(),
            match old(self)@.images.get(handle@) {
                None => image is None && final(self)@ == old(self)@,
                Some(found) => {
                    let queue = old(self)@.queue.asked(found.last_use.0, completed);
                    if queue.is_complete(found.last_use.0) {
                        image == Some(found) && final(self)@ == (ContextView {
                            queue,
                            images: old(self)@.images.remove(handle@),
                            ..old(self)@
                        })
                    } else {
                        image is None && final(self)@ == (ContextView { queue, ..old(self)@ })
                    }
                },
            },
    {
        let last_use = match self.images.get(handle) {
            Some(found) => found.last_use,
            None => {
                return None;
            },
        };
        if self.graphics_queue.is_complete(last_use, completed) {
            let image = self.images.remove(handle);
            proof {
                self.images.lemma_wf();
            }
            image
        } else {
            None
        }
    }

    /// The submission queue.
    pub fn queue(&self) -> (queue: &Graphics<C, A, FrameMarker>)
        ensures
            queue@ == self@.queue,
    {
        &self.graphics_queue
    }

    /// The ring of upload memory.
    pub fn upload_allocator(&self) -> (ring: &Allocator)
        ensures
            ring@ == self@.ring,
            self.wf() ==> ring.wf(),
    {
        &self.upload_allocator
    }

    /// The images that were handed out.
    pub fn images(&self) -> (images: &GenerationalPool<Image<R>>)
        ensures
            images@ == self@.images,
            self.wf() ==> images.wf(),
    {
        &self.images
    }

    /// Whether a frame is being recorded.
    pub fn is_recording(&self) -> (recording: bool)
        ensures
            recording == (self@.frame is Some),
    {
        self.frame.is_some()
    }

    /// Whether the counters of the ring leave room for another frame. They
    /// count bytes in 64 bits and do not wrap.
    pub fn has_room_for_frame(&self) -> (room: bool)
        requires
            self.wf(),
        ensures
            room == (self@.ring.allocated + 6 * self@.ring.capacity <= u64::MAX),
    {
        proof {
            self.upload_allocator.lemma_wf();
        }
        let capacity: u64 = self.upload_allocator.capacity();
        let allocated: u64 = self.upload_allocator.bytes_allocated();
        capacity <= u64::MAX / 6 && allocated <= u64::MAX - 6 * capacity
    }

    /// Begins a frame that draws `content`, with the fence read at `completed`.
    ///
    /// What the oldest frame owned is taken back if that frame is complete, and
    /// its upload memory is released. Then the vertices, the indices and the
    /// rectangle corners of `content` are staged in upload memory, and the draw
    /// calls of `content` are listed, depth first from the root.
    pub fn begin_frame(&mut self, completed: u64, content: &RenderGraph) -> (plan: FramePlan<
        C,
        A,
    >)
        requires
            old(self).wf(),
            old(self)@.frame is None,
            old(self)@.ring.allocated + 6 * old(self)@.ring.capacity <= u64::MAX,
            content.wf(),
        ensures
            final(self).wf(),
            final(self)@.queue == old(self)@.queue.recorded(completed),
            match plan.record.recycled {
                Some(recycled) => old(self)@.queue.recycles(completed) && crate::queue::hands_back(
                    recycled,
                    old(self)@.queue.submissions[0],
                ),
                None => !old(self)@.queue.recycles(completed),
            },
            plan.record.commands == (if old(self)@.queue.commands.len() > 0 {
                Some(old(self)@.queue.commands.last())
            } else {
                None
            }),
            plan.uploads == frame_requests(
                old(self)@.ring_after_record(completed),
                old(self)@.ring.allocated,
                content@,
            ).0,
            final(self)@.ring == (AllocatorView {
                allocated: frame_requests(
                    old(self)@.ring_after_record(completed),
                    old(self)@.ring.allocated,
                    content@,
                ).1,
                heap: frame_requests(
                    old(self)@.ring_after_record(completed),
                    old(self)@.ring.allocated,
                    content@,
                ).2,
                ..old(self)@.ring_after_record(completed)
            }),
            final(self)@.frame == Some(
                FrameMarker {
                    start: old(self)@.ring.allocated as u64,
                    end: final(self)@.ring.allocated as u64,
                },
            ),
            plan.calls@ == content@.subtree_calls(0),
            plan.id.0 == old(self)@.queue.next_value,
            final(self)@.images == old(self)@.images,
    {
        let record = self.reclaim(completed);
        let ghost released = self.upload_allocator@;
        let ghost waiting = markers_of(self.graphics_queue@.submissions);
        let mut frame_alloc = self.upload_allocator.begin_frame();
        proof {
            frame_alloc.lemma_wf();
        }
        let uploads = reserve_uploads(&mut frame_alloc, content);
        proof {
            frame_alloc.lemma_wf();
        }
        let marker = frame_alloc.finish();
        self.frame = Some(marker);
        proof {
            crate::memory::temp_allocator::lemma_next_in_order(released, waiting, marker);
            assert(self@.live_markers() == waiting.push(marker));
        }

        let mut calls: Vec<DrawCall> = Vec::new();
        proof {
            content.lemma_wf();
        }
        content.record_render_graph(RenderGraphNodeId::root(), &mut calls);
        assert(calls@ =~= content@.subtree_calls(0));
        let id = self.graphics_queue.next_id();
        FramePlan { record, uploads, calls, id }
    }

    /// Starts a recording and releases the upload memory of the frame that is
    /// handed back, if one is.
    fn reclaim(&mut self, completed: u64) -> (record: RecordPlan<C, A, FrameMarker>)
        requires
            old(self).wf(),
            old(self)@.frame is None,
        ensures
            final(self).upload_allocator.wf(),
            final(self).images == old(self).images,
            final(self).frame is None,
            final(self).graphics_queue@.wf(),
            final(self).graphics_queue@ == old(self)@.queue.recorded(completed),
            final(self).upload_allocator@ == old(self)@.ring_after_record(completed),
            final(self).upload_allocator@.allocated == old(self)@.ring.allocated,
            final(self).upload_allocator@.capacity == old(self)@.ring.capacity,
            in_allocation_order(
                final(self).upload_allocator@,
                markers_of(final(self).graphics_queue@.submissions),
            ),
            markers_of(final(self).graphics_queue@.submissions).len() > 0 ==> markers_of(
                final(self).graphics_queue@.submissions,
            ).last().end == final(self).upload_allocator@.allocated,
            markers_of(final(self).graphics_queue@.submissions).len() == 0 ==> final(self).upload_allocator@.freed == final(self).upload_allocator@.allocated,
            match record.recycled {
                Some(recycled) => old(self)@.queue.recycles(completed) && crate::queue::hands_back(
                    recycled,
                    old(self)@.queue.submissions[0],
                ),
                None => !old(self)@.queue.recycles(completed),
            },
            record.commands == (if old(self)@.queue.commands.len() > 0 {
                Some(old(self)@.queue.commands.last())
            } else {
                None
            }),
    {
        let ghost before = self@;
        let ghost markers = markers_of(before.queue.submissions);
        assert(before.live_markers() == markers);
        let record = self.graphics_queue.record(completed);
        match &record.recycled {
            Some(recycled) => {
                proof {
                    crate::memory::temp_allocator::lemma_rest_in_order(before.ring, markers);
                    lemma_markers_of_rest(before.queue.submissions);
                }
                self.upload_allocator.free_frame(recycled.data);
            },
            None => {},
        }
        proof {
            let waiting = markers_of(self.graphics_queue@.submissions);
            if before.queue.recycles(completed) && waiting.len() > 0 {
                assert(waiting.last() == markers.last());
            }
            self.upload_allocator.lemma_wf();
        }
        record
    }

    /// Begins a frame that uploads `pixels`, with the fence read at `completed`.
    ///
    /// What the oldest frame owned is taken back if that frame is complete, and
    /// its upload memory is released. Then the rows of the image are staged in
    /// upload memory, each at a multiple of the pitch alignment from the first,
    /// which lies at a multiple of the placement alignment.
    pub fn begin_image_upload(&mut self, completed: u64, pixels: &PixelBufferRef<'_>) -> (plan:
        ImagePlan<C, A>)
        requires
            old(self).wf(),
            old(self)@.frame is None,
            old(self)@.ring.allocated + 2 * old(self)@.ring.capacity <= u64::MAX,
            stageable(pixels@),
        ensures
            final(self).wf(),
            final(self)@.queue == old(self)@.queue.recorded(completed),
            final(self)@.images == old(self)@.images,
            match plan.record.recycled {
                Some(recycled) => old(self)@.queue.recycles(completed) && crate::queue::hands_back(
                    recycled,
                    old(self)@.queue.submissions[0],
                ),
                None => !old(self)@.queue.recycles(completed),
            },
            plan.record.commands == (if old(self)@.queue.commands.len() > 0 {
                Some(old(self)@.queue.commands.last())
            } else {
                None
            }),
            plan.footprint == spec_footprint(pixels@),
            plan.id.0 == old(self)@.queue.next_value,
            ({
                let ring = old(self)@.ring_after_record(completed);
                let outcome = allocation_outcome(
                    ring.capacity,
                    ring.freed,
                    ring.allocated,
                    (plan.footprint.row_pitch * plan.footprint.height) as nat,
                    TEXTURE_DATA_PLACEMENT_ALIGNMENT as nat,
                );
                &&& final(self)@.ring.allocated == cursor_after(ring.allocated, outcome)
                &&& final(self)@.ring.capacity == ring.capacity
                &&& final(self)@.ring.freed == ring.freed
                &&& final(self)@.frame == Some(
                    FrameMarker {
                        start: ring.allocated as u64,
                        end: final(self)@.ring.allocated as u64,
                    },
                )
                &&& match outcome {
                    Err(e) => plan.staging == Err::<Allocation, Error>(e) && final(self)@.ring.heap
                        == ring.heap,
                    Ok(a) => match ring.heap {
                        None => plan.staging == Err::<Allocation, Error>(Error::NoHeap) && final(self)@.ring.heap is None,
                        Some(heap) => plan.staging == Ok::<Allocation, Error>(a) && final(self)@.ring.heap == Some(
                            crate::memory::temp_allocator::staged(
                                heap,
                                a.heap_offset as int,
                                plan.footprint.row_pitch as int,
                                pixels@.row_pitch() as int,
                                plan.footprint.height as int,
                                pixels@.bytes,
                            ),
                        ),
                    },
                }
            }),
    {
        let record = self.reclaim(completed);
        let ghost released = self.upload_allocator@;
        let ghost waiting = markers_of(self.graphics_queue@.submissions);
        let footprint = image_footprint(pixels);
        let row_len: usize = pixels.width() as usize * pixels.format().bytes_per_pixel();
        proof {
            let pitch = pixels@.row_pitch() as int;
            lemma_fundamental_div_mod(pixels@.bytes.len() as int, pitch);
            assert(pixels@.bytes.len() == row_len * footprint.height) by (nonlinear_arith)
                requires
                    pixels@.bytes.len() == pitch * (pixels@.bytes.len() as int / pitch) + 0,
                    footprint.height == pixels@.bytes.len() as int / pitch,
                    row_len == pitch,
            ;
            assert(footprint.row_pitch * footprint.height <= u64::MAX) by (nonlinear_arith)
                requires
                    footprint.row_pitch <= u32::MAX,
                    footprint.height <= u32::MAX,
            ;
        }
        let mut frame_alloc = self.upload_allocator.begin_frame();
        proof {
            frame_alloc.lemma_wf();
        }
        let staging = frame_alloc.upload_rows(
            pixels.bytes(),
            row_len,
            footprint.height as usize,
            footprint.row_pitch as u64,
            TEXTURE_DATA_PLACEMENT_ALIGNMENT,
        );
        proof {
            frame_alloc.lemma_wf();
        }
        let marker = frame_alloc.finish();
        self.frame = Some(marker);
        proof {
            crate::memory::temp_allocator::lemma_next_in_order(released, waiting, marker);
            assert(self@.live_markers() == waiting.push(marker));
        }
        let id = self.graphics_queue.next_id();
        ImagePlan { record, staging, footprint, id }
    }

    /// Queues the frame that is being recorded, and notes on `target` that the
    /// frame draws to it. The id is the one that `begin_frame` announced.
    ///
    /// The frame's upload memory stays reserved until the frame is handed back
    /// as complete.
    pub fn submit_frame(&mut self, recording: Recording<C, A>, target: &mut Image<R>) -> (id:
        SubmissionId)
        requires
            old(self).wf(),
            old(self)@.frame is Some,
            old(self)@.queue.next_value < u64::MAX,
        ensures
            final(self).wf(),
            id.0 == old(self)@.queue.next_value,
            final(self)@.queue == old(self)@.queue.submitted(recording, old(self)@.frame->0),
            final(self)@.ring == old(self)@.ring,
            final(self)@.frame is None,
            final(self)@.images == old(self)@.images,
            final(target).last_use == id,
            final(target).resource == old(target).resource,
    {
        let ghost before = self@;
        match self.frame.take() {
            Some(marker) => {
                let id = self.graphics_queue.submit(recording, marker);
                target.last_use = id;
                proof {
                    assert(self@.live_markers() =~= before.live_markers());
                }
                id
            },
            None => {
                proof {
                    assert(false);
                }
                vstd::pervasive::unreached()
            },
        }
    }

    /// Waits for everything that was submitted: the caller signals the fence to
    /// the id that is returned and, where the answer says so, blocks until the
    /// fence has reached it. Afterwards no submission is outstanding.
    pub fn flush(&mut self, completed: u64) -> (r: (SubmissionId, bool))
        requires
            old(self).wf(),
            old(self)@.queue.next_value < u64::MAX,
        ensures
            final(self).wf(),
            r.0.0 == old(self)@.queue.next_value,
            r.1 == !old(self)@.queue.asked(r.0.0, completed).is_complete(r.0.0),
            final(self)@ == (ContextView {
                queue: QueueView {
                    next_value: (old(self)@.queue.next_value + 1) as u64,
                    ..old(self)@.queue.waited(old(self)@.queue.next_value, completed)
                },
                ..old(self)@
            }),
            final(self)@.queue.outstanding() == 0,
    {
        self.graphics_queue.flush(completed)
    }
}

/// Uploads the data of a frame that draws `content`.
fn reserve_uploads(frame: &mut FrameAllocator<'_>, content: &RenderGraph) -> (r: Result<
    FrameUploads,
    Error,
>)
    requires
        old(frame).wf(),
        old(frame).cursor() + 6 * old(frame).ring().capacity <= u64::MAX,
    ensures
        final(frame).wf(),
        *final(final(frame).backing()) == *final(old(frame).backing()),
        final(frame).start() == old(frame).start(),
        r == frame_requests(old(frame).ring(), old(frame).cursor(), content@).0,
        final(frame).cursor() == frame_requests(old(frame).ring(), old(frame).cursor(), content@).1,
        final(frame).ring() == (AllocatorView {
            heap: frame_requests(old(frame).ring(), old(frame).cursor(), content@).2,
            ..old(frame).ring()
        }),
{
    let vertices = content.vertex_bytes();
    let vertex_memory = frame.upload(vertices.as_slice(), VERTEX_ALIGNMENT)?;
    let indices = content.index_bytes();
    let index_memory = frame.upload(indices.as_slice(), INDEX_ALIGNMENT)?;
    let corners = content.rect_vertex_bytes();
    let rect_memory = frame.upload(corners.as_slice(), VERTEX_ALIGNMENT)?;
    Ok(FrameUploads { vertex_memory, index_memory, rect_memory })
}

/// Upload memory is not used again while a frame that may read it is queued or
/// being recorded: whatever the ring hands out, now or behind allocations yet to
/// come, holds no byte of a frame that was not taken back as complete.
pub proof fn lemma_upload_memory_is_not_reused<C, A, R>(
    context: ContextView<C, A, R>,
    i: int,
    byte: int,
    cursor: nat,
    size: nat,
    alignment: nat,
)
    requires
        context.wf(),
        0 <= i < context.live_markers().len(),
        context.live_markers()[i].start <= byte < context.live_markers()[i].end,
        context.ring.allocated <= cursor,
        alignment > 0,
        allocation_outcome(
            context.ring.capacity,
            context.ring.freed,
            cursor,
            size,
            alignment,
        ) is Ok,
    ensures
        ({
            let handed_out = allocation_outcome(
                context.ring.capacity,
                context.ring.freed,
                cursor,
                size,
                alignment,
            )->Ok_0;
            let position = byte % (context.ring.capacity as int);
            !(handed_out.heap_offset <= position < handed_out.heap_offset + size)
        }),
{
    let ring = context.ring;
    crate::memory::temp_allocator::lemma_markers_within(ring, context.live_markers(), i);
    crate::memory::temp_allocator::lemma_placement_is_gap(
        ring.capacity,
        ring.freed,
        cursor,
        size,
        alignment,
    );
    crate::memory::temp_allocator::lemma_placement_in_bounds(
        ring.capacity,
        ring.freed,
        cursor,
        size,
        alignment,
    );
    let placement = crate::memory::temp_allocator::ring_placement(
        ring.capacity,
        ring.freed,
        cursor,
        size,
        alignment,
    )->0;
    crate::memory::temp_allocator::lemma_gap_is_free(
        ring.capacity,
        ring.freed,
        cursor,
        size,
        alignment,
        placement.heap_offset as int,
        byte,
    );
}

/// The markers of the queued frames behind the oldest are the markers behind
/// the oldest marker.
proof fn lemma_markers_of_rest<A>(submissions: Seq<SubmissionView<A, FrameMarker>>)
    requires
        submissions.len() > 0,
    ensures
        markers_of(submissions.drop_first()) == markers_of(submissions).drop_first(),
{
    assert(markers_of(submissions.drop_first()) =~= markers_of(submissions).drop_first());
}

} // verus!
