//! The scene of one frame: a tree of draw commands with the vertex and index
//! data that they refer to.
//!
//! The nodes lie in one array. A node links to its first and its last child and
//! to its next sibling by index; index zero is the root, which is nobody's child
//! or sibling, so that a link of zero stands for "none". Children are kept in
//! the order in which they were inserted.

use vstd::prelude::*;

verus! {

/// A vertex of an immediate-mode mesh. Each field holds the bit patterns of
/// 32-bit floats, as the shader reads them.
#[derive(Clone, Copy, Debug, PartialEq, Eq)]
pub struct Vertex {
    pub position: [u32; 2],
    pub uv: [u32; 2],
    pub color: [u32; 4],
}

/// A corner of a rounded rectangle. Each field holds the bit patterns of 32-bit
/// floats, as the shader reads them.
#[derive(Clone, Copy, Debug, PartialEq, Eq)]
pub struct RoundedRectVertex {
    pub position: [u32; 2],
    pub rect_size: [u32; 2],
    pub rect_center: [u32; 2],
    pub outer_radii: [u32; 4],
    pub inner_radii: [u32; 4],
    pub color: [u32; 4],
}

/// Byte `k` of `word`, counted from the least significant.
pub open spec fn word_byte(word: u32, k: int) -> u8 {
    ((word >> ((8 * k) as u32)) & 0xff) as u8
}

/// The 32-bit values of a vertex in the order in which the shader reads them:
/// position, texture coordinates, color.
pub open spec fn vertex_words(vertex: Vertex) -> Seq<u32> {
    vertex.position@ + vertex.uv@ + vertex.color@
}

/// The 32-bit values of a corner of a rounded rectangle in the order in which
/// the shader reads them: position, size and center of the rectangle, outer and
/// inner radii, color.
pub open spec fn rect_vertex_words(vertex: RoundedRectVertex) -> Seq<u32> {
    vertex.position@ + vertex.rect_size@ + vertex.rect_center@ + vertex.outer_radii@
        + vertex.inner_radii@ + vertex.color@
}

/// The bytes of `words`, each word from its least significant byte up.
pub open spec fn words_bytes(words: Seq<u32>) -> Seq<u8> {
    Seq::new(4 * words.len(), |i: int| word_byte(words[i / 4], i % 4))
}

/// The bytes of `indices`, each index from its least significant byte up.
pub open spec fn indices_bytes(indices: Seq<u16>) -> Seq<u8> {
    Seq::new(
        2 * indices.len(),
        |i: int|
            if i % 2 == 0 {
                (indices[i / 2] & 0xff) as u8
            } else {
                (indices[i / 2] >> 8) as u8
            },
    )
}

/// The words of all `vertices`, one vertex after the other.
pub open spec fn all_vertex_words(vertices: Seq<Vertex>) -> Seq<u32> {
    Seq::new(8 * vertices.len(), |i: int| vertex_words(vertices[i / 8])[i % 8])
}

/// The words of all `vertices`, one corner after the other.
pub open spec fn all_rect_vertex_words(vertices: Seq<RoundedRectVertex>) -> Seq<u32> {
    Seq::new(18 * vertices.len(), |i: int| rect_vertex_words(vertices[i / 18])[i % 18])
}

/// Appends the bytes of `word` to `bytes`, the least significant first.
fn push_word(bytes: &mut Vec<u8>, word: u32)
    ensures
        final(bytes)@ == old(bytes)@ + words_bytes(seq![word]),
{
    bytes.push((word & 0xff) as u8);
    bytes.push(((word >> 8) & 0xff) as u8);
    bytes.push(((word >> 16) & 0xff) as u8);
    bytes.push(((word >> 24) & 0xff) as u8);
    proof {
        assert(word >> 0 == word) by (bit_vector);
        assert(bytes@ =~= old(bytes)@ + words_bytes(seq![word]));
    }
}

/// Appends the bytes of `words` to `bytes`.
fn push_words(bytes: &mut Vec<u8>, words: &[u32])
    ensures
        final(bytes)@ == old(bytes)@ + words_bytes(words@),
{
    let mut i: usize = 0;
    assert(bytes@ =~= old(bytes)@ + words_bytes(words@.subrange(0, 0)));
    while i < words.len()
        invariant
            i <= words@.len(),
            bytes@ == old(bytes)@ + words_bytes(words@.subrange(0, i as int)),
        decreases words@.len() - i,
    {
        let ghost before = bytes@;
        push_word(bytes, words[i]);
        i = i + 1;
        proof {
            lemma_words_bytes_push(words@.subrange(0, i - 1), words@[i - 1]);
            assert(words@.subrange(0, i - 1).push(words@[i - 1]) =~= words@.subrange(0, i as int));
            assert(before + words_bytes(seq![words@[i - 1]]) =~= old(bytes)@ + (words_bytes(
                words@.subrange(0, i - 1),
            ) + words_bytes(seq![words@[i - 1]])));
        }
    }
    assert(words@.subrange(0, i as int) =~= words@);
}

/// The bytes of words with one more word are the bytes of the words and then
/// the bytes of that word.
proof fn lemma_words_bytes_push(words: Seq<u32>, word: u32)
    ensures
        words_bytes(words.push(word)) == words_bytes(words) + words_bytes(seq![word]),
{
    let all = words_bytes(words.push(word));
    let parts = words_bytes(words) + words_bytes(seq![word]);
    assert forall|i: int| 0 <= i < all.len() implies all[i] == parts[i] by {
        if i >= 4 * words.len() {
            let j = i - 4 * words.len();
            assert(i / 4 == words.len() && i % 4 == j);
            assert(j / 4 == 0 && j % 4 == j);
        }
    }
    assert(all =~= parts);
}

/// The bytes of the words of two runs are the bytes of the one and then the
/// bytes of the other.
proof fn lemma_words_bytes_concat(a: Seq<u32>, b: Seq<u32>)
    ensures
        words_bytes(a + b) == words_bytes(a) + words_bytes(b),
{
    let all = words_bytes(a + b);
    let parts = words_bytes(a) + words_bytes(b);
    assert forall|i: int| 0 <= i < all.len() implies all[i] == parts[i] by {
        if i >= 4 * a.len() {
            let j = i - 4 * a.len();
            assert(i / 4 == a.len() + j / 4 && i % 4 == j % 4);
        }
    }
    assert(all =~= parts);
}

/// What a node draws: a run of the graph's index buffer.
#[derive(Clone, Copy, Debug, PartialEq, Eq)]
pub enum RenderGraphCommand {
    Root,
    DrawRect { first_index: u16, num_indices: u16 },
    DrawImmediate { first_index: u16, num_indices: u16 },
}

#[derive(Clone, Copy)]
struct RenderGraphNode {
    next: u16,
    first_child: u16,
    last_child: u16,
    command: RenderGraphCommand,
}

/// Names a node of a render graph.
#[derive(Clone, Copy, Debug, PartialEq, Eq)]
pub struct RenderGraphNodeId {
    index: u16,
}

impl View for RenderGraphNodeId {
    type V = u16;

    closed spec fn view(&self) -> u16 {
        self.index
    }
}

impl RenderGraphNodeId {
    /// The root of every graph.
    #[must_use]
    pub fn root() -> (id: Self)
        ensures
            id@ == 0,
    {
        Self { index: 0 }
    }

    /// The position of the node in the graph's array of nodes.
    pub fn index(&self) -> (index: u16)
        ensures
            index == self@,
    {
        self.index
    }
}

/// The pipeline that a draw call runs on.
#[derive(Clone, Copy, Debug, PartialEq, Eq)]
pub enum Pipeline {
    /// Plain triangles from the immediate-mode vertices.
    Polygon,
    /// Rounded rectangles from the rectangle vertices.
    RoundedRect,
}

/// One indexed draw, as it is recorded into a command buffer.
#[derive(Clone, Copy, Debug, PartialEq, Eq)]
pub struct DrawCall {
    pub pipeline: Pipeline,
    pub num_indices: u32,
    pub first_index: u32,
}

/// A node as contracts see it.
pub struct NodeView {
    pub command: RenderGraphCommand,
    /// The children in the order in which they were inserted.
    pub children: Seq<u16>,
}

/// A render graph as contracts see it.
pub struct GraphView {
    pub nodes: Seq<NodeView>,
    pub indices: Seq<u16>,
    pub vertices: Seq<Vertex>,
    pub rect_vertices: Seq<RoundedRectVertex>,
}

/// The draw call of one command; the root draws nothing.
pub open spec fn own_calls(command: RenderGraphCommand) -> Seq<DrawCall> {
    match command {
        RenderGraphCommand::Root => Seq::empty(),
        RenderGraphCommand::DrawImmediate { first_index, num_indices } => seq![
            DrawCall {
                pipeline: Pipeline::Polygon,
                num_indices: num_indices as u32,
                first_index: first_index as u32,
            },
        ],
        RenderGraphCommand::DrawRect { first_index, num_indices } => seq![
            DrawCall {
                pipeline: Pipeline::RoundedRect,
                num_indices: num_indices as u32,
                first_index: first_index as u32,
            },
        ],
    }
}

impl GraphView {
    /// The children of `node`, as node ids are compared: by index.
    pub open spec fn children(self, node: u16) -> Seq<u16> {
        self.nodes[node as int].children
    }

    /// The draw calls of `node` and of everything below it, depth first, a node
    /// before its children and the children in the order of their insertion.
    pub open spec fn subtree_calls(self, node: int) -> Seq<DrawCall>
        decreases self.nodes.len() - node, self.nodes[node].children.len() + 1,
    {
        if 0 <= node < self.nodes.len() {
            own_calls(self.nodes[node].command) + self.children_calls(
                node,
                self.nodes[node].children.len() as int,
            )
        } else {
            Seq::empty()
        }
    }

    /// The draw calls of the first `count` children of `node` and of everything
    /// below them.
    pub open spec fn children_calls(self, node: int, count: int) -> Seq<DrawCall>
        decreases self.nodes.len() - node, count,
    {
        if 0 <= node < self.nodes.len() && 0 < count <= self.nodes[node].children.len() {
            let child = self.nodes[node].children[count - 1] as int;
            if node < child < self.nodes.len() {
                self.children_calls(node, count - 1) + self.subtree_calls(child)
            } else {
                Seq::empty()
            }
        } else {
            Seq::empty()
        }
    }

    /// The tree is sound: the root is the one node without a command, every
    /// child lies behind its parent in the array and behind the children that
    /// were inserted before it, and every command draws from indices that the
    /// graph holds.
    pub open spec fn wf(self) -> bool {
        &&& 1 <= self.nodes.len() <= u16::MAX + 1
        &&& self.nodes[0].command is Root
        &&& forall|n: int| 1 <= n < self.nodes.len() ==> !((#[trigger] self.nodes[n]).command is Root)
        &&& forall|n: int, k: int|
            0 <= n < self.nodes.len() && 0 <= k < self.nodes[n].children.len() ==> n
                < #[trigger] self.nodes[n].children[k] < self.nodes.len()
        &&& forall|n: int, j: int, k: int|
            0 <= n < self.nodes.len() && 0 <= j < k < self.nodes[n].children.len()
                ==> #[trigger] self.nodes[n].children[j] < #[trigger] self.nodes[n].children[k]
        &&& forall|n: int|
            0 <= n < self.nodes.len() ==> command_in_range(
                (#[trigger] self.nodes[n]).command,
                self.indices.len(),
            )
    }

    /// The graph after a node with `command` was inserted as the last child of
    /// `parent`.
    pub open spec fn with_child(self, parent: u16, command: RenderGraphCommand) -> GraphView {
        let id = self.nodes.len() as u16;
        let above = self.nodes[parent as int];
        GraphView {
            nodes: self.nodes.update(
                parent as int,
                NodeView { command: above.command, children: above.children.push(id) },
            ).push(NodeView { command, children: Seq::empty() }),
            ..self
        }
    }
}

/// Whether the run of indices that `command` draws lies within `len` indices.
pub open spec fn command_in_range(command: RenderGraphCommand, len: nat) -> bool {
    match command {
        RenderGraphCommand::Root => true,
        RenderGraphCommand::DrawImmediate { first_index, num_indices } => first_index + num_indices
            <= len,
        RenderGraphCommand::DrawRect { first_index, num_indices } => first_index + num_indices
            <= len,
    }
}

/// The scene of one frame.
pub struct RenderGraph {
    imm_indices: Vec<u16>,
    imm_vertices: Vec<Vertex>,
    imm_rect_vertices: Vec<RoundedRectVertex>,
    nodes: Vec<RenderGraphNode>,
    children: Ghost<Seq<Seq<u16>>>,
    parents: Ghost<Seq<u16>>,
}

impl View for RenderGraph {
    type V = GraphView;

    closed spec fn view(&self) -> GraphView {
        GraphView {
            nodes: Seq::new(
                self.nodes@.len(),
                |n: int| NodeView { command: self.nodes@[n].command, children: self.children@[n] },
            ),
            indices: self.imm_indices@,
            vertices: self.imm_vertices@,
            rect_vertices: self.imm_rect_vertices@,
        }
    }
}

/// The link that stands for the entry at position `k` of `list`; zero behind
/// its end.
spec fn link_at(list: Seq<u16>, k: int) -> u16 {
    if 0 <= k < list.len() {
        list[k]
    } else {
        0
    }
}

impl Default for RenderGraph {
    fn default() -> (graph: Self)
        ensures
            graph.wf(),
            graph@ == (GraphView {
                nodes: seq![NodeView { command: RenderGraphCommand::Root, children: Seq::empty() }],
                indices: Seq::empty(),
                vertices: Seq::empty(),
                rect_vertices: Seq::empty(),
            }),
    {
        Self::new()
    }
}

impl RenderGraph {
    /// The links of the nodes spell out the lists of children, every node but
    /// the root is in the list of exactly one parent, and the view is sound.
    pub closed spec fn wf(&self) -> bool {
        &&& self@.wf()
        &&& links_ok(self.nodes@, self.children@, self.parents@)
    }

    /// A well-formed graph has a sound view.
    pub proof fn lemma_wf(&self)
        requires
            self.wf(),
        ensures
            self@.wf(),
    {
    }

    /// The lists of children are those of the view.
    proof fn lemma_lists(&self)
        requires
            self.wf(),
        ensures
            links_ok(self.nodes@, self.children@, self.parents@),
            forall|n: int|
                0 <= n < self.nodes@.len() ==> (#[trigger] self@.nodes[n]).children
                    == self.children@[n],
    {
    }

    /// A graph that holds the root and nothing else.
    #[must_use]
    pub fn new() -> (graph: Self)
        ensures
            graph.wf(),
            graph@ == (GraphView {
                nodes: seq![NodeView { command: RenderGraphCommand::Root, children: Seq::empty() }],
                indices: Seq::empty(),
                vertices: Seq::empty(),
                rect_vertices: Seq::empty(),
            }),
    {
        let mut nodes: Vec<RenderGraphNode> = Vec::new();
        nodes.push(
            RenderGraphNode {
                next: 0,
                first_child: 0,
                last_child: 0,
                command: RenderGraphCommand::Root,
            },
        );
        let ghost children: Seq<Seq<u16>> = Seq::empty().push(Seq::empty());
        let ghost parents: Seq<u16> = Seq::empty().push(0u16);
        let graph = Self {
            imm_indices: Vec::new(),
            imm_vertices: Vec::new(),
            imm_rect_vertices: Vec::new(),
            nodes,
            children: Ghost(children),
            parents: Ghost(parents),
        };
        assert(graph@.nodes =~= seq![
            NodeView { command: RenderGraphCommand::Root, children: Seq::empty() },
        ]);
        graph
    }

    /// Number of nodes, the root included.
    pub fn node_count(&self) -> (count: usize)
        ensures
            count == self@.nodes.len(),
    {
        self.nodes.len()
    }

    /// Whether `node` names a node of this graph.
    pub fn contains(&self, node: RenderGraphNodeId) -> (known: bool)
        ensures
            known == (node@ < self@.nodes.len()),
    {
        (node.index as usize) < self.nodes.len()
    }

    /// The command of `node`.
    #[must_use]
    pub fn get(&self, node: RenderGraphNodeId) -> (command: &RenderGraphCommand)
        requires
            node@ < self@.nodes.len(),
        ensures
            *command == self@.nodes[node@ as int].command,
    {
        &self.nodes[node.index as usize].command
    }

    /// The indices of all draws, each rebased to the vertex buffer it draws from.
    pub fn indices(&self) -> (indices: &Vec<u16>)
        ensures
            indices@ == self@.indices,
    {
        &self.imm_indices
    }

    /// The vertices of the immediate-mode meshes.
    pub fn vertices(&self) -> (vertices: &Vec<Vertex>)
        ensures
            vertices@ == self@.vertices,
    {
        &self.imm_vertices
    }

    /// The corners of the rounded rectangles.
    pub fn rect_vertices(&self) -> (vertices: &Vec<RoundedRectVertex>)
        ensures
            vertices@ == self@.rect_vertices,
    {
        &self.imm_rect_vertices
    }

    /// The vertices of the immediate-mode meshes as the shader reads them:
    /// 32 bytes for each vertex, every 32-bit value from its least significant
    /// byte up.
    pub fn vertex_bytes(&self) -> (bytes: Vec<u8>)
        ensures
            bytes@ == words_bytes(all_vertex_words(self@.vertices)),
            bytes@.len() == 32 * self@.vertices.len(),
    {
        let mut bytes: Vec<u8> = Vec::new();
        let mut i: usize = 0;
        assert(bytes@ =~= words_bytes(all_vertex_words(self.imm_vertices@.subrange(0, 0))));
        while i < self.imm_vertices.len()
            invariant
                i <= self.imm_vertices@.len(),
                bytes@ == words_bytes(all_vertex_words(self.imm_vertices@.subrange(0, i as int))),
            decreases self.imm_vertices@.len() - i,
        {
            let vertex = self.imm_vertices[i];
            let ghost before = bytes@;
            push_words(&mut bytes, vertex.position.as_slice());
            push_words(&mut bytes, vertex.uv.as_slice());
            push_words(&mut bytes, vertex.color.as_slice());
            i = i + 1;
            proof {
                let head = self.imm_vertices@.subrange(0, i - 1);
                let now = self.imm_vertices@.subrange(0, i as int);
                lemma_words_bytes_concat(vertex.position@, vertex.uv@);
                lemma_words_bytes_concat(vertex.position@ + vertex.uv@, vertex.color@);
                lemma_words_bytes_concat(all_vertex_words(head), vertex_words(vertex));
                assert(all_vertex_words(now) =~= all_vertex_words(head) + vertex_words(vertex)) by {
                    assert forall|k: int| 0 <= k < 8 * now.len() implies all_vertex_words(now)[k]
                        == (all_vertex_words(head) + vertex_words(vertex))[k] by {
                        if k >= 8 * head.len() {
                            let j = k - 8 * head.len();
                            assert(k / 8 == head.len() && k % 8 == j);
                        } else {
                            assert(now[k / 8] == head[k / 8]);
                        }
                    }
                }
                assert(bytes@ =~= before + (words_bytes(vertex.position@) + words_bytes(vertex.uv@)
                    + words_bytes(vertex.color@)));
            }
        }
        assert(self.imm_vertices@.subrange(0, i as int) =~= self.imm_vertices@);
        bytes
    }

    /// The corners of the rounded rectangles as the shader reads them: 72 bytes
    /// for each corner, every 32-bit value from its least significant byte up.
    pub fn rect_vertex_bytes(&self) -> (bytes: Vec<u8>)
        ensures
            bytes@ == words_bytes(all_rect_vertex_words(self@.rect_vertices)),
            bytes@.len() == 72 * self@.rect_vertices.len(),
    {
        let mut bytes: Vec<u8> = Vec::new();
        let mut i: usize = 0;
        assert(bytes@ =~= words_bytes(
            all_rect_vertex_words(self.imm_rect_vertices@.subrange(0, 0)),
        ));
        while i < self.imm_rect_vertices.len()
            invariant
                i <= self.imm_rect_vertices@.len(),
                bytes@ == words_bytes(
                    all_rect_vertex_words(self.imm_rect_vertices@.subrange(0, i as int)),
                ),
            decreases self.imm_rect_vertices@.len() - i,
        {
            let vertex = self.imm_rect_vertices[i];
            let ghost before = bytes@;
            push_words(&mut bytes, vertex.position.as_slice());
            push_words(&mut bytes, vertex.rect_size.as_slice());
            push_words(&mut bytes, vertex.rect_center.as_slice());
            push_words(&mut bytes, vertex.outer_radii.as_slice());
            push_words(&mut bytes, vertex.inner_radii.as_slice());
            push_words(&mut bytes, vertex.color.as_slice());
            i = i + 1;
            proof {
                let head = self.imm_rect_vertices@.subrange(0, i - 1);
                let now = self.imm_rect_vertices@.subrange(0, i as int);
                let a = vertex.position@;
                let b = a + vertex.rect_size@;
                let c = b + vertex.rect_center@;
                let d = c + vertex.outer_radii@;
                let e = d + vertex.inner_radii@;
                lemma_words_bytes_concat(a, vertex.rect_size@);
                lemma_words_bytes_concat(b, vertex.rect_center@);
                lemma_words_bytes_concat(c, vertex.outer_radii@);
                lemma_words_bytes_concat(d, vertex.inner_radii@);
                lemma_words_bytes_concat(e, vertex.color@);
                lemma_words_bytes_concat(all_rect_vertex_words(head), rect_vertex_words(vertex));
                assert(all_rect_vertex_words(now) =~= all_rect_vertex_words(head)
                    + rect_vertex_words(vertex)) by {
                    assert forall|k: int| 0 <= k < 18 * now.len() implies all_rect_vertex_words(
                        now,
                    )[k] == (all_rect_vertex_words(head) + rect_vertex_words(vertex))[k] by {
                        if k >= 18 * head.len() {
                            let j = k - 18 * head.len();
                            assert(k / 18 == head.len() && k % 18 == j);
                        } else {
                            assert(now[k / 18] == head[k / 18]);
                        }
                    }
                }
                assert(bytes@ =~= before + (words_bytes(a) + words_bytes(vertex.rect_size@)
                    + words_bytes(vertex.rect_center@) + words_bytes(vertex.outer_radii@)
                    + words_bytes(vertex.inner_radii@) + words_bytes(vertex.color@)));
            }
        }
        assert(self.imm_rect_vertices@.subrange(0, i as int) =~= self.imm_rect_vertices@);
        bytes
    }

    /// The indices as the input assembler reads them: two bytes for each index,
    /// the less significant first.
    pub fn index_bytes(&self) -> (bytes: Vec<u8>)
        ensures
            bytes@ == indices_bytes(self@.indices),
            bytes@.len() == 2 * self@.indices.len(),
    {
        let mut bytes: Vec<u8> = Vec::new();
        let mut i: usize = 0;
        while i < self.imm_indices.len()
            invariant
                i <= self.imm_indices@.len(),
                bytes@ == indices_bytes(self.imm_indices@.subrange(0, i as int)),
            decreases self.imm_indices@.len() - i,
        {
            let index: u16 = self.imm_indices[i];
            bytes.push((index & 0xff) as u8);
            bytes.push((index >> 8) as u8);
            i = i + 1;
            assert(bytes@ =~= indices_bytes(self.imm_indices@.subrange(0, i as int)));
        }
        assert(self.imm_indices@.subrange(0, i as int) =~= self.imm_indices@);
        bytes
    }

    /// The children of `node`, in the order in which they were inserted. The
    /// graph is not changed: the same call gives the same children again.
    pub fn iter_children(&self, node: RenderGraphNodeId) -> (children: Vec<RenderGraphNodeId>)
        requires
            self.wf(),
            node@ < self@.nodes.len(),
        ensures
            children@.len() == self@.children(node@).len(),
            forall|k: int| 0 <= k < children@.len() ==> (#[trigger] children@[k])@ == self@.children(node@)[k],
    {
        let ghost list = self.children@[node.index as int];
        assert(self@.nodes[node.index as int].children == list);
        assert(heads_ok(self.nodes@[node.index as int], list));
        let mut out: Vec<RenderGraphNodeId> = Vec::new();
        let mut current: u16 = self.nodes[node.index as usize].first_child;
        let ghost mut k: int = 0;
        while current != 0
            invariant
                self.wf(),
                node.index < self.nodes@.len(),
                list == self.children@[node.index as int],
                0 <= k <= list.len(),
                current == link_at(list, k),
                out@.len() == k,
                forall|j: int| 0 <= j < k ==> (#[trigger] out@[j]).index == list[j],
            decreases list.len() - k,
        {
            proof {
                reveal(child_ok);
                assert(child_ok(self.nodes@, self.children@, self.parents@, node.index as int, k));
            }
            out.push(RenderGraphNodeId { index: current });
            current = self.nodes[current as usize].next;
            proof {
                k = k + 1;
            }
        }
        proof {
            if k < list.len() {
                reveal(child_ok);
                assert(child_ok(self.nodes@, self.children@, self.parents@, node.index as int, k));
            }
        }
        out
    }

    /// Records the draw calls of `node_id` and of everything below it behind
    /// those in `calls`: depth first, a node before its children, and the
    /// children in the order of their insertion.
    pub fn record_render_graph(&self, node_id: RenderGraphNodeId, calls: &mut Vec<DrawCall>)
        requires
            self.wf(),
            node_id@ < self@.nodes.len(),
        ensures
            final(calls)@ == old(calls)@ + self@.subtree_calls(node_id@ as int),
        decreases self@.nodes.len() - node_id@,
    {
        let ghost list = self.children@[node_id.index as int];
        let ghost view = self@;
        let ghost me = node_id.index as int;
        let node: RenderGraphNode = self.nodes[node_id.index as usize];
        assert(view.nodes[me].command == node.command);
        assert(view.nodes[me].children == list);
        assert(heads_ok(self.nodes@[me], list));
        match node.command {
            RenderGraphCommand::Root => {},
            RenderGraphCommand::DrawImmediate { first_index, num_indices } => {
                calls.push(
                    DrawCall {
                        pipeline: Pipeline::Polygon,
                        num_indices: num_indices as u32,
                        first_index: first_index as u32,
                    },
                );
            },
            RenderGraphCommand::DrawRect { first_index, num_indices } => {
                calls.push(
                    DrawCall {
                        pipeline: Pipeline::RoundedRect,
                        num_indices: num_indices as u32,
                        first_index: first_index as u32,
                    },
                );
            },
        }
        assert(calls@ =~= old(calls)@ + own_calls(node.command));
        let mut current: u16 = node.first_child;
        let ghost mut k: int = 0;
        assert(view.children_calls(me, 0) =~= Seq::<DrawCall>::empty());
        while current != 0
            invariant
                self.wf(),
                view == self@,
                me == node_id.index,
                me < self.nodes@.len(),
                list == self.children@[me],
                view.nodes[me].children == list,
                0 <= k <= list.len(),
                current == link_at(list, k),
                calls@ == old(calls)@ + own_calls(node.command) + view.children_calls(me, k),
            decreases list.len() - k,
        {
            proof {
                reveal(child_ok);
                assert(child_ok(self.nodes@, self.children@, self.parents@, me, k));
            }
            self.record_render_graph(RenderGraphNodeId { index: current }, calls);
            proof {
                assert(view.children_calls(me, k + 1) == view.children_calls(me, k)
                    + view.subtree_calls(current as int));
                assert(calls@ =~= old(calls)@ + own_calls(node.command) + view.children_calls(
                    me,
                    k + 1,
                ));
            }
            current = self.nodes[current as usize].next;
            proof {
                k = k + 1;
            }
        }
        proof {
            if k < list.len() {
                reveal(child_ok);
                assert(child_ok(self.nodes@, self.children@, self.parents@, me, k));
            }
            assert(calls@ =~= old(calls)@ + view.subtree_calls(me));
        }
    }

    /// Appends a node with `command` and links it as the last child of
    /// `parent`.
    fn append_node(&mut self, parent: RenderGraphNodeId, command: RenderGraphCommand) -> (id:
        RenderGraphNodeId)
        requires
            old(self).wf(),
            parent@ < old(self)@.nodes.len(),
            old(self)@.nodes.len() <= u16::MAX,
            !(command is Root),
            command_in_range(command, old(self)@.indices.len()),
        ensures
            final(self).wf(),
            id@ == old(self)@.nodes.len(),
            final(self)@ == old(self)@.with_child(parent@, command),
    {
        let ghost nodes = self.nodes@;
        let ghost children = self.children@;
        let ghost parents = self.parents@;
        let ghost list = children[parent.index as int];
        proof {
            self.lemma_lists();
            lemma_last_child(nodes, children, parents, parent.index as int);
        }
        let node_id: u16 = self.nodes.len() as u16;
        self.nodes.push(RenderGraphNode { next: 0, first_child: 0, last_child: 0, command });

        let above: RenderGraphNode = self.nodes[parent.index as usize];
        let prev_sibling: usize = above.last_child as usize;
        if above.first_child == 0 {
            self.nodes[parent.index as usize] = RenderGraphNode {
                next: above.next,
                first_child: node_id,
                last_child: node_id,
                command: above.command,
            };
        } else {
            self.nodes[parent.index as usize] = RenderGraphNode {
                next: above.next,
                first_child: above.first_child,
                last_child: node_id,
                command: above.command,
            };
            let before: RenderGraphNode = self.nodes[prev_sibling];
            self.nodes[prev_sibling] = RenderGraphNode {
                next: node_id,
                first_child: before.first_child,
                last_child: before.last_child,
                command: before.command,
            };
        }
        self.children = Ghost(with_child_list(children, parent.index as int, node_id));
        self.parents = Ghost(parents.push(parent.index));

        proof {
            assert(self.nodes@ =~= with_child_links(nodes, list, parent.index as int, command));
            lemma_links_after_append(nodes, children, parents, parent.index as int, command);
            assert(self@.nodes =~= old(self)@.with_child(parent@, command).nodes);
            lemma_view_after_append(old(self)@, parent@, command);
        }
        RenderGraphNodeId { index: node_id }
    }

    /// Embeds the given mesh into the render graph for drawing, as the last
    /// child of `parent`.
    ///
    /// The indices are stored rebased by the number of vertices that the graph
    /// held before, so that they address the vertex buffer once it is uploaded.
    /// Node ids, index positions and rebased indices are 16 bits wide: the graph
    /// has room for another node, and the new indices fit.
    pub fn draw_immediate(
        &mut self,
        parent: RenderGraphNodeId,
        vertices: &[Vertex],
        indices: &[u16],
    ) -> (id: RenderGraphNodeId)
        requires
            old(self).wf(),
            parent@ < old(self)@.nodes.len(),
            old(self)@.nodes.len() <= u16::MAX,
            old(self)@.indices.len() <= u16::MAX,
            indices@.len() <= u16::MAX,
            forall|i: int|
                0 <= i < indices@.len() ==> (#[trigger] indices@[i]) + old(self)@.vertices.len()
                    <= u16::MAX,
        ensures
            final(self).wf(),
            id@ == old(self)@.nodes.len(),
            final(self)@ == (GraphView {
                vertices: old(self)@.vertices + vertices@,
                indices: old(self)@.indices + rebased(indices@, old(self)@.vertices.len()),
                ..old(self)@.with_child(
                    parent@,
                    RenderGraphCommand::DrawImmediate {
                        first_index: old(self)@.indices.len() as u16,
                        num_indices: indices@.len() as u16,
                    },
                )
            }),
    {
        let vertex_offset: usize = self.imm_vertices.len();
        let mut i: usize = 0;
        while i < vertices.len()
            invariant
                i <= vertices@.len(),
                self.imm_vertices@ == old(self).imm_vertices@ + vertices@.subrange(0, i as int),
                self.imm_indices == old(self).imm_indices,
                self.imm_rect_vertices == old(self).imm_rect_vertices,
                self.nodes == old(self).nodes,
                self.children == old(self).children,
                self.parents == old(self).parents,
            decreases vertices@.len() - i,
        {
            self.imm_vertices.push(vertices[i]);
            i = i + 1;
            assert(self.imm_vertices@ =~= old(self).imm_vertices@ + vertices@.subrange(0, i as int));
        }
        assert(vertices@.subrange(0, i as int) =~= vertices@);

        let first_index: usize = self.imm_indices.len();
        let mut j: usize = 0;
        while j < indices.len()
            invariant
                j <= indices@.len(),
                vertex_offset == old(self).imm_vertices@.len(),
                forall|i: int|
                    0 <= i < indices@.len() ==> (#[trigger] indices@[i]) + vertex_offset <= u16::MAX,
                self.imm_indices@ == old(self).imm_indices@ + rebased(
                    indices@.subrange(0, j as int),
                    vertex_offset as nat,
                ),
                self.imm_vertices@ == old(self).imm_vertices@ + vertices@,
                self.imm_rect_vertices == old(self).imm_rect_vertices,
                self.nodes == old(self).nodes,
                self.children == old(self).children,
                self.parents == old(self).parents,
            decreases indices@.len() - j,
        {
            let index: u16 = (indices[j] as usize + vertex_offset) as u16;
            self.imm_indices.push(index);
            j = j + 1;
            assert(self.imm_indices@ =~= old(self).imm_indices@ + rebased(
                indices@.subrange(0, j as int),
                vertex_offset as nat,
            ));
        }
        assert(indices@.subrange(0, j as int) =~= indices@);
        proof {
            lemma_more_indices(old(self)@, self@);
        }
        self.append_node(
            parent,
            RenderGraphCommand::DrawImmediate {
                first_index: first_index as u16,
                num_indices: indices.len() as u16,
            },
        )
    }

    /// Embeds a rounded rectangle, given by its four corners, into the render
    /// graph for drawing, as the last child of `parent`: two triangles over the
    /// corners.
    ///
    /// Indices are 16 bits wide: the graph has room for another node, and the
    /// indices of the four corners fit.
    pub fn draw_rect(&mut self, parent: RenderGraphNodeId, vertices: &[RoundedRectVertex; 4]) -> (id:
        RenderGraphNodeId)
        requires
            old(self).wf(),
            parent@ < old(self)@.nodes.len(),
            old(self)@.nodes.len() <= u16::MAX,
            old(self)@.indices.len() <= u16::MAX,
            old(self)@.rect_vertices.len() + 3 <= u16::MAX,
        ensures
            final(self).wf(),
            id@ == old(self)@.nodes.len(),
            final(self)@ == (GraphView {
                rect_vertices: old(self)@.rect_vertices + vertices@,
                indices: old(self)@.indices + rect_indices(old(self)@.rect_vertices.len()),
                ..old(self)@.with_child(
                    parent@,
                    RenderGraphCommand::DrawRect {
                        first_index: old(self)@.indices.len() as u16,
                        num_indices: 6,
                    },
                )
            }),
    {
        let vertex_offset: u16 = self.imm_rect_vertices.len() as u16;
        self.imm_rect_vertices.push(vertices[0]);
        self.imm_rect_vertices.push(vertices[1]);
        self.imm_rect_vertices.push(vertices[2]);
        self.imm_rect_vertices.push(vertices[3]);
        assert(self.imm_rect_vertices@ =~= old(self).imm_rect_vertices@ + vertices@);

        let first_index: usize = self.imm_indices.len();
        self.imm_indices.push(vertex_offset);
        self.imm_indices.push(vertex_offset + 1);
        self.imm_indices.push(vertex_offset + 2);
        self.imm_indices.push(vertex_offset);
        self.imm_indices.push(vertex_offset + 2);
        self.imm_indices.push(vertex_offset + 3);
        assert(self.imm_indices@ =~= old(self).imm_indices@ + rect_indices(
            old(self).imm_rect_vertices@.len(),
        ));
        proof {
            lemma_more_indices(old(self)@, self@);
        }
        self.append_node(
            parent,
            RenderGraphCommand::DrawRect { first_index: first_index as u16, num_indices: 6 },
        )
    }
}

/// A graph stays sound when indices and vertices are added behind those that
/// it holds.
proof fn lemma_more_indices(before: GraphView, after: GraphView)
    requires
        before.wf(),
        after.nodes == before.nodes,
        before.indices.len() <= after.indices.len(),
    ensures
        after.wf(),
{
    assert forall|n: int| 0 <= n < after.nodes.len() implies command_in_range(
        (#[trigger] after.nodes[n]).command,
        after.indices.len(),
    ) by {
        assert(command_in_range(before.nodes[n].command, before.indices.len()));
    }
}

/// Whether the links of `nodes` spell out the lists in `children`, each node in
/// a list has the list's owner as its parent, and the lists keep to the array.
spec fn links_ok(nodes: Seq<RenderGraphNode>, children: Seq<Seq<u16>>, parents: Seq<u16>) -> bool {
    &&& children.len() == nodes.len()
    &&& parents.len() == nodes.len()
    &&& nodes.len() >= 1
    &&& nodes[0].next == 0
    &&& forall|n: int| 0 <= n < nodes.len() ==> heads_ok(#[trigger] nodes[n], children[n])
    &&& forall|n: int, k: int|
        0 <= n < nodes.len() && 0 <= k < children[n].len() ==> child_ok(
            nodes,
            children,
            parents,
            n,
            k,
        )
}

/// Whether `node` links to the first and the last entry of `list`.
spec fn heads_ok(node: RenderGraphNode, list: Seq<u16>) -> bool {
    node.first_child == link_at(list, 0) && node.last_child == link_at(list, list.len() - 1)
}

/// Whether the child at position `k` of node `n` lies behind `n` and behind the
/// child before it, knows `n` as its parent, and links to the child after it.
#[verifier::opaque]
spec fn child_ok(
    nodes: Seq<RenderGraphNode>,
    children: Seq<Seq<u16>>,
    parents: Seq<u16>,
    n: int,
    k: int,
) -> bool {
    let child = children[n][k] as int;
    &&& n < child < nodes.len()
    &&& k > 0 ==> children[n][k - 1] < child
    &&& parents[child] == n
    &&& nodes[child].next == link_at(children[n], k + 1)
}

/// The nodes after a node with `command` was appended and linked as the last
/// child of `p`, whose children were `list`.
spec fn with_child_links(
    nodes: Seq<RenderGraphNode>,
    list: Seq<u16>,
    p: int,
    command: RenderGraphCommand,
) -> Seq<RenderGraphNode> {
    let id = nodes.len() as u16;
    let pushed = nodes.push(RenderGraphNode { next: 0, first_child: 0, last_child: 0, command });
    if list.len() == 0 {
        pushed.update(
            p,
            RenderGraphNode {
                next: nodes[p].next,
                first_child: id,
                last_child: id,
                command: nodes[p].command,
            },
        )
    } else {
        let last = list[list.len() - 1] as int;
        pushed.update(
            p,
            RenderGraphNode {
                next: nodes[p].next,
                first_child: nodes[p].first_child,
                last_child: id,
                command: nodes[p].command,
            },
        ).update(
            last,
            RenderGraphNode {
                next: id,
                first_child: nodes[last].first_child,
                last_child: nodes[last].last_child,
                command: nodes[last].command,
            },
        )
    }
}

/// The lists of children after `id` was appended to the list of `p`.
spec fn with_child_list(children: Seq<Seq<u16>>, p: int, id: u16) -> Seq<Seq<u16>> {
    children.update(p, children[p].push(id)).push(Seq::empty())
}

/// Children lie in the order of their insertion, which is that of their
/// indices.
proof fn lemma_children_ascend(
    nodes: Seq<RenderGraphNode>,
    children: Seq<Seq<u16>>,
    parents: Seq<u16>,
    n: int,
    j: int,
    k: int,
)
    requires
        links_ok(nodes, children, parents),
        0 <= n < nodes.len(),
        0 <= j < k < children[n].len(),
    ensures
        n < children[n][j] < children[n][k] < nodes.len(),
    decreases k - j,
{
    reveal(child_ok);
    assert(child_ok(nodes, children, parents, n, k));
    assert(child_ok(nodes, children, parents, n, j));
    if j + 1 < k {
        lemma_children_ascend(nodes, children, parents, n, j, k - 1);
    }
}

/// A node that links to no first child has no children, and the last child of
/// one that has children is the last entry of its list.
proof fn lemma_last_child(
    nodes: Seq<RenderGraphNode>,
    children: Seq<Seq<u16>>,
    parents: Seq<u16>,
    p: int,
)
    requires
        links_ok(nodes, children, parents),
        0 <= p < nodes.len(),
    ensures
        nodes[p].first_child == 0 <==> children[p].len() == 0,
        children[p].len() > 0 ==> nodes[p].last_child == children[p][children[p].len() - 1] && p
            < nodes[p].last_child < nodes.len(),
{
    reveal(child_ok);
    assert(heads_ok(nodes[p], children[p]));
    if children[p].len() > 0 {
        assert(child_ok(nodes, children, parents, p, 0));
        assert(child_ok(nodes, children, parents, p, children[p].len() - 1));
    }
}

/// Appending a node as the last child of `p` keeps the links in order.
proof fn lemma_links_after_append(
    nodes: Seq<RenderGraphNode>,
    children: Seq<Seq<u16>>,
    parents: Seq<u16>,
    p: int,
    command: RenderGraphCommand,
)
    requires
        links_ok(nodes, children, parents),
        0 <= p < nodes.len(),
        nodes.len() <= u16::MAX,
    ensures
        links_ok(
            with_child_links(nodes, children[p], p, command),
            with_child_list(children, p, nodes.len() as u16),
            parents.push(p as u16),
        ),
{
    let id = nodes.len() as u16;
    let list = children[p];
    let nodes2 = with_child_links(nodes, list, p, command);
    let children2 = with_child_list(children, p, id);
    let parents2 = parents.push(p as u16);
    lemma_last_child(nodes, children, parents, p);
    assert forall|n: int| 0 <= n < nodes2.len() implies heads_ok(
        #[trigger] nodes2[n],
        children2[n],
    ) by {
        if n < nodes.len() {
            assert(heads_ok(nodes[n], children[n]));
        }
    }
    assert forall|n: int, k: int| 0 <= n < nodes2.len() && 0 <= k < children2[n].len() implies child_ok(
        nodes2,
        children2,
        parents2,
        n,
        k,
    ) by {
        lemma_child_after_append(nodes, children, parents, p, command, n, k);
    }
    if list.len() > 0 {
        assert(list[list.len() - 1] > 0);
    }
}

/// Appending a node as the last child of `p` keeps the child at position `k` of
/// node `n` in order.
proof fn lemma_child_after_append(
    nodes: Seq<RenderGraphNode>,
    children: Seq<Seq<u16>>,
    parents: Seq<u16>,
    p: int,
    command: RenderGraphCommand,
    n: int,
    k: int,
)
    requires
        links_ok(nodes, children, parents),
        0 <= p < nodes.len(),
        nodes.len() <= u16::MAX,
        0 <= n < nodes.len() + 1,
        0 <= k < with_child_list(children, p, nodes.len() as u16)[n].len(),
    ensures
        child_ok(
            with_child_links(nodes, children[p], p, command),
            with_child_list(children, p, nodes.len() as u16),
            parents.push(p as u16),
            n,
            k,
        ),
{
    reveal(child_ok);
    let id = nodes.len() as u16;
    let list = children[p];
    let children2 = with_child_list(children, p, id);
    lemma_last_child(nodes, children, parents, p);
    if list.len() > 0 {
        assert(child_ok(nodes, children, parents, p, list.len() - 1));
    }
    if n == p {
        if k < list.len() {
            assert(child_ok(nodes, children, parents, p, k));
            if k + 1 < list.len() {
                lemma_children_ascend(nodes, children, parents, p, k, list.len() - 1);
            }
        }
    } else {
        assert(n < nodes.len());
        assert(children2[n] == children[n]);
        assert(child_ok(nodes, children, parents, n, k));
        let child = children[n][k] as int;
        assert(parents[child] == n);
        if list.len() > 0 {
            assert(parents[list[list.len() - 1] as int] == p);
            assert(child != list[list.len() - 1]);
        }
    }
}

/// Appending a child with a command that draws from the graph's indices keeps
/// the view sound.
proof fn lemma_view_after_append(view: GraphView, parent: u16, command: RenderGraphCommand)
    requires
        view.wf(),
        parent < view.nodes.len(),
        view.nodes.len() <= u16::MAX,
        !(command is Root),
        command_in_range(command, view.indices.len()),
    ensures
        view.with_child(parent, command).wf(),
{
    let after = view.with_child(parent, command);
    let list = view.nodes[parent as int].children;
    assert forall|n: int, k: int|
        0 <= n < after.nodes.len() && 0 <= k < after.nodes[n].children.len() implies n
        < #[trigger] after.nodes[n].children[k] < after.nodes.len() by {
        if n == parent {
            if k < list.len() {
                assert(n < view.nodes[n].children[k] < view.nodes.len());
            }
        } else {
            assert(n < view.nodes[n].children[k] < view.nodes.len());
        }
    }
    assert forall|n: int, j: int, k: int|
        0 <= n < after.nodes.len() && 0 <= j < k
            < after.nodes[n].children.len() implies #[trigger] after.nodes[n].children[j]
        < #[trigger] after.nodes[n].children[k] by {
        if n == parent {
            if k < list.len() {
                assert(view.nodes[n].children[j] < view.nodes[n].children[k]);
            } else {
                assert(n < view.nodes[n].children[j] < view.nodes.len());
            }
        } else {
            assert(view.nodes[n].children[j] < view.nodes[n].children[k]);
        }
    }
    assert forall|n: int| 1 <= n < after.nodes.len() implies !((
    #[trigger] after.nodes[n]).command is Root) by {
        if n < view.nodes.len() {
            assert(!(view.nodes[n].command is Root));
        }
    }
    assert forall|n: int| 0 <= n < after.nodes.len() implies command_in_range(
        (#[trigger] after.nodes[n]).command,
        after.indices.len(),
    ) by {
        if n < view.nodes.len() {
            assert(command_in_range(view.nodes[n].command, view.indices.len()));
        }
    }
}

/// The children of a node are kept in the order in which they were inserted: a
/// new child comes behind those that its parent had, has no children itself,
/// and leaves the children of every other node as they were.
pub proof fn lemma_children_in_insertion_order(
    view: GraphView,
    parent: u16,
    command: RenderGraphCommand,
)
    requires
        view.wf(),
        parent < view.nodes.len(),
        view.nodes.len() <= u16::MAX,
    ensures
        view.with_child(parent, command).children(parent) == view.children(parent).push(
            view.nodes.len() as u16,
        ),
        view.with_child(parent, command).children(view.nodes.len() as u16) == Seq::<u16>::empty(),
        forall|n: u16|
            n < view.nodes.len() && n != parent ==> #[trigger] view.with_child(
                parent,
                command,
            ).children(n) == view.children(n),
        view.with_child(parent, command).nodes[view.nodes.len() as int].command == command,
{
}

/// `indices`, each moved up by `offset`.
pub open spec fn rebased(indices: Seq<u16>, offset: nat) -> Seq<u16> {
    Seq::new(indices.len(), |i: int| (indices[i] + offset) as u16)
}

/// The indices of the two triangles of a rectangle whose first corner is vertex
/// `offset`.
pub open spec fn rect_indices(offset: nat) -> Seq<u16> {
    seq![
        offset as u16,
        (offset + 1) as u16,
        (offset + 2) as u16,
        offset as u16,
        (offset + 2) as u16,
        (offset + 3) as u16,
    ]
}

} // verus!
