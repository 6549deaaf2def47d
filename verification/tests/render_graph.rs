use plinth::render_graph::{
    DrawCall, Pipeline, RenderGraph, RenderGraphCommand, RenderGraphNodeId, RoundedRectVertex,
    Vertex,
};

fn vertex(x: f32, y: f32) -> Vertex {
    Vertex {
        position: [x.to_bits(), y.to_bits()],
        uv: [0; 2],
        color: [1.0f32.to_bits(); 4],
    }
}

fn corner(x: f32, y: f32) -> RoundedRectVertex {
    RoundedRectVertex {
        position: [x.to_bits(), y.to_bits()],
        rect_size: [10.0f32.to_bits(), 20.0f32.to_bits()],
        rect_center: [5.0f32.to_bits(), 10.0f32.to_bits()],
        outer_radii: [0; 4],
        inner_radii: [0; 4],
        color: [0; 4],
    }
}

fn rect() -> [RoundedRectVertex; 4] {
    [
        corner(0.0, 0.0),
        corner(10.0, 0.0),
        corner(10.0, 20.0),
        corner(0.0, 20.0),
    ]
}

#[test]
fn new_graph_holds_the_root_alone() {
    let graph = RenderGraph::new();
    let root = RenderGraphNodeId::root();
    assert_eq!(root.index(), 0);
    assert!(graph.contains(root));
    assert_eq!(*graph.get(root), RenderGraphCommand::Root);
    assert!(graph.iter_children(root).is_empty());
    assert!(graph.indices().is_empty());
    assert!(graph.vertices().is_empty());
    assert!(graph.rect_vertices().is_empty());
    let mut calls = Vec::new();
    graph.record_render_graph(root, &mut calls);
    assert!(calls.is_empty());
}

#[test]
fn children_come_back_in_insertion_order() {
    let mut graph = RenderGraph::new();
    let root = RenderGraphNodeId::root();
    let a = graph.draw_rect(root, &rect());
    let b = graph.draw_immediate(root, &[vertex(0.0, 0.0)], &[0]);
    let c = graph.draw_rect(root, &rect());
    assert_eq!(graph.iter_children(root), vec![a, b, c]);
    // the walk does not change the graph
    assert_eq!(graph.iter_children(root), vec![a, b, c]);
    assert!(graph.iter_children(a).is_empty());
    assert!(graph.iter_children(c).is_empty());
    assert_eq!((a.index(), b.index(), c.index()), (1, 2, 3));
}

#[test]
fn immediate_indices_are_rebased_by_the_vertex_offset() {
    let mut graph = RenderGraph::new();
    let root = RenderGraphNodeId::root();
    let first = graph.draw_immediate(
        root,
        &[vertex(0.0, 0.0), vertex(1.0, 0.0), vertex(0.0, 1.0)],
        &[0, 1, 2],
    );
    let second = graph.draw_immediate(
        root,
        &[vertex(5.0, 5.0), vertex(6.0, 5.0), vertex(5.0, 6.0), vertex(6.0, 6.0)],
        &[0, 1, 2, 1, 3, 2],
    );
    assert_eq!(graph.indices().as_slice(), &[0, 1, 2, 3, 4, 5, 4, 6, 5]);
    assert_eq!(graph.vertices().len(), 7);
    assert_eq!(graph.vertices()[3], vertex(5.0, 5.0));
    assert_eq!(
        *graph.get(first),
        RenderGraphCommand::DrawImmediate {
            first_index: 0,
            num_indices: 3
        }
    );
    assert_eq!(
        *graph.get(second),
        RenderGraphCommand::DrawImmediate {
            first_index: 3,
            num_indices: 6
        }
    );
}

#[test]
fn rect_draws_two_triangles_over_its_corners() {
    let mut graph = RenderGraph::new();
    let root = RenderGraphNodeId::root();
    graph.draw_immediate(root, &[vertex(0.0, 0.0)], &[0, 0, 0]);
    let a = graph.draw_rect(root, &rect());
    let b = graph.draw_rect(root, &rect());
    assert_eq!(
        graph.indices().as_slice(),
        &[0, 0, 0, 0, 1, 2, 0, 2, 3, 4, 5, 6, 4, 6, 7]
    );
    assert_eq!(graph.rect_vertices().len(), 8);
    assert_eq!(graph.rect_vertices()[6], corner(10.0, 20.0));
    assert_eq!(
        *graph.get(a),
        RenderGraphCommand::DrawRect {
            first_index: 3,
            num_indices: 6
        }
    );
    assert_eq!(
        *graph.get(b),
        RenderGraphCommand::DrawRect {
            first_index: 9,
            num_indices: 6
        }
    );
}

#[test]
fn recording_walks_depth_first_in_insertion_order() {
    let mut graph = RenderGraph::new();
    let root = RenderGraphNodeId::root();
    let a = graph.draw_rect(root, &rect());
    let b = graph.draw_immediate(root, &[vertex(0.0, 0.0)], &[0, 0, 0]);
    let a1 = graph.draw_immediate(a, &[vertex(1.0, 1.0)], &[0]);
    let a2 = graph.draw_rect(a, &rect());
    let a1x = graph.draw_rect(a1, &rect());
    let b1 = graph.draw_rect(b, &rect());
    assert_eq!(graph.iter_children(root), vec![a, b]);
    assert_eq!(graph.iter_children(a), vec![a1, a2]);
    assert_eq!(graph.iter_children(a1), vec![a1x]);
    assert_eq!(graph.iter_children(b), vec![b1]);

    let rect_call = |first_index: u32| DrawCall {
        pipeline: Pipeline::RoundedRect,
        num_indices: 6,
        first_index,
    };
    let mut calls = Vec::new();
    graph.record_render_graph(root, &mut calls);
    assert_eq!(
        calls,
        vec![
            rect_call(0),
            DrawCall {
                pipeline: Pipeline::Polygon,
                num_indices: 1,
                first_index: 9
            },
            rect_call(16),
            rect_call(10),
            DrawCall {
                pipeline: Pipeline::Polygon,
                num_indices: 3,
                first_index: 6
            },
            rect_call(22),
        ]
    );

    // a subtree is recorded behind what the list holds already
    let mut below_a1 = vec![rect_call(99)];
    graph.record_render_graph(a1, &mut below_a1);
    assert_eq!(
        below_a1,
        vec![
            rect_call(99),
            DrawCall {
                pipeline: Pipeline::Polygon,
                num_indices: 1,
                first_index: 9
            },
            rect_call(16),
        ]
    );
}

#[test]
fn vertices_and_indices_are_written_low_byte_first() {
    let mut graph = RenderGraph::new();
    let root = RenderGraphNodeId::root();
    let v = Vertex {
        position: [0x1122_3344, 0x5566_7788],
        uv: [1, 2],
        color: [3, 4, 5, 0x8000_0000],
    };
    graph.draw_immediate(root, &[v, v], &[0x0001, 0x00ff]);
    let bytes = graph.vertex_bytes();
    assert_eq!(bytes.len(), 64);
    assert_eq!(
        &bytes[0..16],
        &[0x44, 0x33, 0x22, 0x11, 0x88, 0x77, 0x66, 0x55, 1, 0, 0, 0, 2, 0, 0, 0]
    );
    assert_eq!(&bytes[28..32], &[0, 0, 0, 0x80]);
    assert_eq!(&bytes[32..36], &[0x44, 0x33, 0x22, 0x11]);
    assert_eq!(graph.index_bytes(), vec![0x01, 0x00, 0xff, 0x00]);

    let mut corner = corner(0.0, 0.0);
    corner.position = [0x0102_0304, 7];
    corner.color = [9, 9, 9, 0xffff_ffff];
    graph.draw_rect(root, &[corner; 4]);
    let bytes = graph.rect_vertex_bytes();
    assert_eq!(bytes.len(), 4 * 72);
    assert_eq!(&bytes[0..8], &[4, 3, 2, 1, 7, 0, 0, 0]);
    assert_eq!(&bytes[8..12], &10.0f32.to_le_bytes());
    assert_eq!(&bytes[68..72], &[0xff; 4]);
    assert_eq!(&bytes[72..76], &[4, 3, 2, 1]);
    assert_eq!(graph.index_bytes().len(), 2 * 8);
    assert_eq!(&graph.index_bytes()[4..8], &[0, 0, 1, 0]);
}
