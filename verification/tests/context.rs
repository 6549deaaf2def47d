use plinth::context::{
    image_footprint, next_multiple_of_u32, Footprint, GraphicsContext, Image,
};
use plinth::memory::temp_allocator::Allocation;
use plinth::memory::Error;
use plinth::pixel_buffer::{ColorSpace, PixelBufferRef, PixelFormat};
use plinth::queue::{Recording, SubmissionId};
use plinth::render_graph::{RenderGraph, RenderGraphNodeId, RoundedRectVertex, Vertex};

/// Command buffers and allocators are stood for by numbers, textures by names.
type Context = GraphicsContext<u32, u32, &'static str>;

fn rect(at: u32) -> [RoundedRectVertex; 4] {
    let corner = RoundedRectVertex {
        position: [at, at],
        rect_size: [0; 2],
        rect_center: [0; 2],
        outer_radii: [0; 4],
        inner_radii: [0; 4],
        color: [0; 4],
    };
    [corner; 4]
}

fn scene() -> RenderGraph {
    let mut graph = RenderGraph::new();
    let root = RenderGraphNodeId::root();
    let vertex = Vertex {
        position: [0x0403_0201, 0],
        uv: [0; 2],
        color: [0, 0, 0, 0xff00_0000],
    };
    graph.draw_immediate(root, &[vertex, vertex, vertex], &[0, 1, 2]);
    graph.draw_rect(root, &rect(1));
    graph
}

/// Draws `content` to `target` as the caller of the library does: it makes or
/// resets what the plan asks for, and submits. Returns the allocator and the
/// command buffer that the frame was recorded with, and the id of the frame.
fn draw(
    context: &mut Context,
    fence: u64,
    made: &mut u32,
    target: &mut Image<&'static str>,
    content: &RenderGraph,
) -> (u32, u32, SubmissionId) {
    assert!(!context.is_recording());
    assert!(context.has_room_for_frame());
    let plan = context.begin_frame(fence, content);
    assert!(context.is_recording());
    assert!(plan.uploads.is_ok());
    assert_eq!(plan.calls.len(), 2);
    let (allocator, barriers) = match plan.record.recycled {
        Some(recycled) => (recycled.allocator, Some(recycled.barriers)),
        None => {
            *made += 1;
            (*made, None)
        }
    };
    let commands = match plan.record.commands {
        Some(commands) => commands,
        None => {
            *made += 1;
            *made
        }
    };
    let recording = match barriers {
        Some(barriers) => Recording {
            commands,
            barriers,
            allocator,
        },
        None => Recording::new(commands, allocator),
    };
    let id = context.submit_frame(recording, target);
    assert_eq!(id, plan.id);
    (allocator, commands, id)
}

#[test]
fn three_frames_reuse_the_allocator_of_a_complete_frame() {
    let mut context = Context::new(4096, Some(vec![0; 4096]));
    let mut target = Image::new("back buffer");
    let content = scene();
    let mut made = 0;
    assert_eq!(target.last_use, SubmissionId(0));

    let (first_allocator, first_commands, first) =
        draw(&mut context, 0, &mut made, &mut target, &content);
    assert_eq!(first, SubmissionId(1));
    assert_eq!(target.last_use, first);
    assert_eq!(context.queue().outstanding(), 1);

    // the fence has reached the first frame: its allocator is used again
    let (second_allocator, second_commands, second) =
        draw(&mut context, first.0, &mut made, &mut target, &content);
    assert_eq!(second_allocator, first_allocator);
    assert_eq!(second_commands, first_commands);
    assert_eq!(second, SubmissionId(2));
    assert_eq!(target.last_use, second);
    assert_eq!(context.queue().pending(), 1);

    // the fence has not moved: the third frame gets an allocator of its own
    let (third_allocator, _, third) =
        draw(&mut context, first.0, &mut made, &mut target, &content);
    assert!(third_allocator != first_allocator);
    assert_eq!(third, SubmissionId(3));
    assert_eq!(target.last_use, third);
    assert_eq!(context.queue().pending(), 2);
    assert_eq!(context.queue().outstanding(), 2);

    let (signal, block) = context.flush(first.0);
    assert_eq!(signal, SubmissionId(4));
    assert!(block);
    assert_eq!(context.queue().outstanding(), 0);
}

#[test]
fn upload_memory_of_a_frame_is_released_when_the_frame_is_taken_back() {
    let mut context = Context::new(1024, Some(vec![0; 1024]));
    let mut target = Image::new("back buffer");
    let content = scene();

    let plan = context.begin_frame(0, &content);
    let uploads = plan.uploads.unwrap();
    // three vertices of 32 bytes, three and six indices of 2 bytes, four corners of 72 bytes
    assert_eq!(
        uploads.vertex_memory,
        Allocation {
            size: 96,
            virtual_offset: 0,
            heap_offset: 0
        }
    );
    assert_eq!(
        uploads.index_memory,
        Allocation {
            size: 18,
            virtual_offset: 96,
            heap_offset: 96
        }
    );
    assert_eq!(
        uploads.rect_memory,
        Allocation {
            size: 288,
            virtual_offset: 116,
            heap_offset: 116
        }
    );
    context.submit_frame(Recording::new(1, 1), &mut target);
    assert_eq!(context.upload_allocator().bytes_allocated(), 404);
    assert_eq!(context.upload_allocator().bytes_freed(), 0);

    // the first frame is not complete: its memory stays reserved
    let plan = context.begin_frame(0, &content);
    assert!(plan.record.recycled.is_none());
    assert_eq!(plan.uploads.unwrap().vertex_memory.heap_offset, 404);
    context.submit_frame(Recording::new(2, 2), &mut target);
    assert_eq!(context.upload_allocator().bytes_freed(), 0);

    // the third frame does not fit behind the second, nor in front of the first
    let plan = context.begin_frame(0, &content);
    assert_eq!(
        plan.uploads.err(),
        Some(Error::OutOfMemory {
            capacity: 1024,
            available: 102,
            requested: 288
        })
    );
    context.submit_frame(Recording::new(3, 3), &mut target);

    // the first frame is complete and is taken back: its memory is free again
    let plan = context.begin_frame(1, &content);
    let recycled = plan.record.recycled.unwrap();
    assert_eq!(recycled.allocator, 1);
    assert_eq!((recycled.data.start, recycled.data.end), (0, 404));
    assert_eq!(context.upload_allocator().bytes_freed(), 404);
    // behind the head, then across the seam to the front, where the first frame lay
    let uploads = plan.uploads.unwrap();
    assert_eq!(uploads.vertex_memory.heap_offset, 924);
    assert_eq!(
        uploads.index_memory,
        Allocation {
            size: 18,
            virtual_offset: 1024,
            heap_offset: 0
        }
    );
    assert_eq!(uploads.rect_memory.heap_offset, 20);
}

#[test]
fn image_footprint_rounds_rows_up_to_the_pitch_alignment() {
    let bytes = vec![0u8; 3 * 4 * 2];
    let pixels = PixelBufferRef::from_bytes(&bytes, 3, PixelFormat::Rgba8, ColorSpace::Srgb);
    assert_eq!(
        image_footprint(&pixels),
        Footprint {
            width: 3,
            height: 2,
            row_pitch: 256
        }
    );
    assert_eq!(next_multiple_of_u32(256, 256), 256);
    assert_eq!(next_multiple_of_u32(257, 256), 512);
    assert_eq!(next_multiple_of_u32(0, 256), 0);
}

#[test]
fn image_rows_are_staged_at_the_row_pitch() {
    let mut context = Context::new(2048, Some(vec![0u8; 2048]));
    let bytes: Vec<u8> = (1..=16).collect();
    let pixels = PixelBufferRef::from_bytes(&bytes, 2, PixelFormat::Rgba8, ColorSpace::Srgb);

    let plan = context.begin_image_upload(0, &pixels);
    assert_eq!(plan.id, SubmissionId(1));
    assert_eq!(
        plan.footprint,
        Footprint {
            width: 2,
            height: 2,
            row_pitch: 256
        }
    );
    assert_eq!(
        plan.staging,
        Ok(Allocation {
            size: 512,
            virtual_offset: 0,
            heap_offset: 0
        })
    );
    let mut image = Image::new("texture");
    let id = context.submit_frame(Recording::new(1, 1), &mut image);
    assert_eq!(image.last_use, id);

    // a second image is placed at the next multiple of the placement alignment
    let plan = context.begin_image_upload(0, &pixels);
    assert_eq!(plan.staging.unwrap().heap_offset, 512);
    context.submit_frame(Recording::new(2, 2), &mut image);

    let heap = context.upload_allocator().heap().unwrap();
    assert_eq!(&heap[0..8], &[1, 2, 3, 4, 5, 6, 7, 8]);
    assert_eq!(&heap[8..12], &[0, 0, 0, 0]);
    assert_eq!(&heap[256..264], &[9, 10, 11, 12, 13, 14, 15, 16]);
    assert_eq!(&heap[512..520], &[1, 2, 3, 4, 5, 6, 7, 8]);
    assert_eq!(&heap[768..776], &[9, 10, 11, 12, 13, 14, 15, 16]);
}

#[test]
fn image_is_destroyed_only_after_its_last_use_is_complete() {
    let mut context = Context::new(1024, None);
    let content = scene();
    let handle = context.upload_image("texture", SubmissionId(0));
    assert_eq!(context.image(handle).unwrap().resource, "texture");

    let mut target = Image::new("texture");
    context.begin_frame(0, &content);
    let id = context.submit_frame(Recording::new(1, 1), &mut target);
    let in_use = context.upload_image("in use", id);

    // the GPU may still read the image: it stays
    assert!(context.destroy_image(in_use, 0).is_none());
    assert!(context.image(in_use).is_some());
    let destroyed = context.destroy_image(in_use, id.0).unwrap();
    assert_eq!((destroyed.resource, destroyed.last_use), ("in use", id));
    assert!(context.image(in_use).is_none());
    assert!(context.destroy_image(in_use, id.0).is_none());

    // an image that no submission uses goes at once
    assert_eq!(context.destroy_image(handle, 0).unwrap().resource, "texture");
}

#[test]
fn frame_data_is_staged_as_the_gpu_reads_it() {
    let mut context = Context::new(1024, Some(vec![0xaa; 1024]));
    let mut target = Image::new("back buffer");
    let content = scene();

    let plan = context.begin_frame(0, &content);
    let uploads = plan.uploads.unwrap();
    let heap = context.upload_allocator().heap().unwrap();

    // each vertex: position, texture coordinates, color; every value from its low byte up
    let vertices = &heap[uploads.vertex_memory.heap_offset as usize..][..96];
    assert_eq!(&vertices[0..8], &[1, 2, 3, 4, 0, 0, 0, 0]);
    assert_eq!(&vertices[28..32], &[0, 0, 0, 0xff]);
    assert_eq!(&vertices[32..36], &[1, 2, 3, 4]);

    // nine indices: the triangle, and the rectangle over the corners 0 to 3
    let indices = &heap[uploads.index_memory.heap_offset as usize..][..18];
    assert_eq!(
        indices,
        &[0, 0, 1, 0, 2, 0, 0, 0, 1, 0, 2, 0, 0, 0, 2, 0, 3, 0]
    );
    // two bytes of padding in front of the corners are left as they were
    assert_eq!(&heap[114..116], &[0xaa, 0xaa]);
    let corners = &heap[uploads.rect_memory.heap_offset as usize..][..288];
    assert_eq!(&corners[0..8], &[1, 0, 0, 0, 1, 0, 0, 0]);
    assert_eq!(&corners[8..72], &[0; 64]);
    assert_eq!(&corners[72..76], &[1, 0, 0, 0]);
    assert_eq!(&heap[404..406], &[0xaa, 0xaa]);

    context.submit_frame(Recording::new(1, 1), &mut target);
}

#[test]
fn frame_without_heap_is_not_drawn() {
    let mut context = Context::new(1024, None);
    let mut target = Image::new("back buffer");
    let plan = context.begin_frame(0, &scene());
    assert_eq!(plan.uploads.err(), Some(Error::NoHeap));
    // the frame is submitted all the same, with what it had reserved
    assert_eq!(plan.calls.len(), 2);
    let id = context.submit_frame(Recording::new(1, 1), &mut target);
    assert_eq!(id, plan.id);
    assert_eq!(context.upload_allocator().bytes_allocated(), 96);
}
