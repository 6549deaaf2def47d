use plinth::descriptor_heap::{Descriptor, DescriptorHeap};
use plinth::memory::Error;

#[test]
fn views_are_addressed_from_the_start_of_the_table() {
    let mut heap = DescriptorHeap::new(0x1000, 0x8000, 32, 2);
    assert_eq!(
        heap.create_shader_resource_view(),
        Ok(Descriptor {
            cpu: 0x1000,
            gpu: 0x8000
        })
    );
    assert_eq!(
        heap.create_render_target_view(),
        Ok(Descriptor {
            cpu: 0x1020,
            gpu: 0
        })
    );
    assert_eq!(
        heap.create_shader_resource_view(),
        Err(Error::OutOfMemory {
            capacity: 2,
            available: 0,
            requested: 1
        })
    );
    heap.free(Descriptor {
        cpu: 0x1000,
        gpu: 0x8000,
    });
    assert_eq!(
        heap.create_shader_resource_view(),
        Ok(Descriptor {
            cpu: 0x1000,
            gpu: 0x8000
        })
    );
}
