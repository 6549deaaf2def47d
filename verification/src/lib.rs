//! The frame-submission core of a 2D GPU renderer: allocators for GPU-visible
//! memory, a generational pool for long-lived resources, the per-frame render
//! graph, and the fence-gated queue that pipelines frames.

pub mod barriers;
pub mod config;
pub mod context;
pub mod descriptor_heap;
pub mod flagvec;
pub mod generational_pool;
pub mod geometry;
pub mod input;
pub mod linear_allocator;
pub mod memory;
pub mod pixel_buffer;
pub mod queue;
pub mod rect;
pub mod render_graph;
pub mod ring_allocator;
