//! Bookkeeping of the background chunk generation pipeline.
//!
//! Voxel generation runs off the simulation thread: the simulation hands out
//! generation requests, workers produce payloads, and completed payloads are
//! merged back in a non-blocking drain once per step. The loader's job here
//! is the discipline around that: a bounded in-flight counter gates new
//! submissions (a full counter silently skips a chunk — the same fresh-chunk
//! scan retries it on a later step), chunks are marked `Generating` only when
//! a submission actually went out, and every drained payload frees capacity.

use vstd::prelude::*;

use crate::dodeca::{vertex_index_spec, Vertex};
use crate::graph::{Graph, NodeId};
use crate::node::{
    chunk_at, store_wf, voxel_data_wf, same_store_structure, Chunk, ChunkId, NodeState, VoxelData,
};

verus! {

/// Everything a generation worker needs to produce one chunk's voxels.
pub struct ChunkParams {
    /// The chunk to generate.
    pub chunk: ChunkId,
    /// Generation state of the chunk's cell.
    pub state: NodeState,
    /// Number of voxels along one axis of the chunk.
    pub dimension: u8,
}

/// A generated voxel payload coming back from a worker.
pub struct LoadedChunk {
    /// The chunk the payload belongs to.
    pub chunk: ChunkId,
    /// The generated voxels.
    pub voxels: VoxelData,
}

/// Gatekeeper of the background generation pipeline: counts requests in
/// flight against a fixed capacity.
pub struct ChunkLoader {
    capacity: usize,
    fill: usize,
}

impl ChunkLoader {
    /// The fixed bound on requests in flight.
    pub closed spec fn spec_capacity(&self) -> int {
        self.capacity as int
    }

    /// The number of requests currently in flight.
    pub closed spec fn spec_fill(&self) -> int {
        self.fill as int
    }

    /// The loader never has more requests in flight than its capacity.
    pub open spec fn inv(&self) -> bool {
        0 <= self.spec_fill() <= self.spec_capacity()
    }

    /// A loader with the given capacity and nothing in flight.
    pub fn new(capacity: usize) -> (r: ChunkLoader)
        ensures
            r.inv(),
            r.spec_capacity() == capacity,
            r.spec_fill() == 0,
    {
        ChunkLoader { capacity, fill: 0 }
    }

    /// The fixed bound on requests in flight.
    pub fn capacity(&self) -> (r: usize)
        ensures
            r == self.spec_capacity(),
    {
        self.capacity
    }

    /// The number of requests currently in flight.
    pub fn fill(&self) -> (r: usize)
        ensures
            r == self.spec_fill(),
    {
        self.fill
    }

    /// Reserves capacity for one request: succeeds exactly when a slot is
    /// free, and only then takes it.
    fn load(&mut self) -> (r: bool)
        requires
            old(self).inv(),
        ensures
            final(self).inv(),
            final(self).spec_capacity() == old(self).spec_capacity(),
            r == (old(self).spec_fill() < old(self).spec_capacity()),
            r ==> final(self).spec_fill() == old(self).spec_fill() + 1,
            !r ==> final(self).spec_fill() == old(self).spec_fill(),
    {
        if self.fill == self.capacity {
            return false;
        }
        self.fill = self.fill + 1;
        true
    }

    /// Walks the fresh chunks of the given (populated) nodes and submits a
    /// generation request for each while capacity remains, marking a chunk
    /// `Generating` only when its request actually went out. Returns the
    /// requests for the workers.
    ///
    /// If capacity never ran out, no fresh chunk of the given nodes is left
    /// behind.
    pub fn load_chunks(&mut self, graph: &mut Graph, nodes: &Vec<NodeId>) -> (requests: Vec<
        ChunkParams,
    >)
        requires
            old(self).inv(),
            old(graph).wf(),
            store_wf(old(graph)),
            forall|i: int| 0 <= i < nodes@.len() ==> old(graph).contains(#[trigger] nodes@[i]),
        ensures
            final(self).inv(),
            final(self).spec_capacity() == old(self).spec_capacity(),
            final(self).spec_fill() == old(self).spec_fill() + requests@.len(),
            final(graph).wf(),
            store_wf(final(graph)),
            same_store_structure(final(graph), old(graph)),
            forall|i: int|
                0 <= i < requests@.len() ==> {
                    let req = #[trigger] requests@[i];
                    &&& old(graph).contains(req.chunk.node)
                    &&& old(graph).node_value(req.chunk.node) is Some
                    &&& chunk_at(old(graph), req.chunk) is Fresh
                    &&& chunk_at(final(graph), req.chunk) is Generating
                    &&& req.state == old(graph).node_value(req.chunk.node)->Some_0.state
                    &&& req.dimension == old(graph).spec_dimension()
                },
            forall|c: ChunkId|
                old(graph).contains(c.node) && (#[trigger] old(graph).node_value(c.node)) is Some
                    && chunk_at(final(graph), c) != chunk_at(old(graph), c) ==> chunk_at(
                    old(graph),
                    c,
                ) is Fresh && chunk_at(final(graph), c) is Generating,
            final(self).spec_fill() < final(self).spec_capacity() ==> forall|i: int, v: Vertex|
                0 <= i < nodes@.len() && old(graph).node_value(nodes@[i]) is Some && (
                #[trigger] chunk_at(
                    old(graph),
                    (ChunkId { node: nodes@[i], vertex: v }),
                )) is Fresh ==> chunk_at(
                    final(graph),
                    (ChunkId { node: nodes@[i], vertex: v }),
                ) is Generating,
    {
        let ghost pre = *old(graph);
        let dimension = graph.dimension();
        let mut requests: Vec<ChunkParams> = Vec::new();
        let mut i: usize = 0;
        while i < nodes.len()
            invariant
                i <= nodes@.len(),
                self.inv(),
                self.spec_capacity() == old(self).spec_capacity(),
                self.spec_fill() == old(self).spec_fill() + requests@.len(),
                graph.wf(),
                store_wf(graph),
                pre.wf(),
                store_wf(&pre),
                dimension == pre.spec_dimension(),
                same_store_structure(graph, &pre),
                forall|n: int| 0 <= n < nodes@.len() ==> pre.contains(#[trigger] nodes@[n]),
                forall|n: int|
                    0 <= n < requests@.len() ==> {
                        let req = #[trigger] requests@[n];
                        &&& pre.contains(req.chunk.node)
                        &&& pre.node_value(req.chunk.node) is Some
                        &&& chunk_at(&pre, req.chunk) is Fresh
                        &&& chunk_at(graph, req.chunk) is Generating
                        &&& req.state == pre.node_value(req.chunk.node)->Some_0.state
                        &&& req.dimension == pre.spec_dimension()
                    },
                forall|c: ChunkId|
                    pre.contains(c.node) && (#[trigger] pre.node_value(c.node)) is Some
                        && chunk_at(graph, c) != chunk_at(&pre, c) ==> chunk_at(&pre, c) is Fresh
                        && chunk_at(graph, c) is Generating,
                self.spec_fill() < self.spec_capacity() ==> forall|n: int, v: Vertex|
                    0 <= n < i && pre.node_value(nodes@[n]) is Some && (#[trigger] chunk_at(
                        &pre,
                        (ChunkId { node: nodes@[n], vertex: v }),
                    )) is Fresh ==> chunk_at(graph, (ChunkId { node: nodes@[n], vertex: v }))
                        is Generating,
            decreases nodes@.len() - i,
        {
            let node = nodes[i];
            let verts = Vertex::iter();
            let mut vi: usize = 0;
            while vi < 20
                invariant
                    vi <= 20,
                    verts@.len() == 20,
                    forall|n: int| 0 <= n < 20 ==> vertex_index_spec(#[trigger] verts@[n]) == n,
                    i < nodes@.len(),
                    node == nodes@[i as int],
                    self.inv(),
                    self.spec_capacity() == old(self).spec_capacity(),
                    self.spec_fill() == old(self).spec_fill() + requests@.len(),
                    graph.wf(),
                    store_wf(graph),
                    pre.wf(),
                    store_wf(&pre),
                    dimension == pre.spec_dimension(),
                    same_store_structure(graph, &pre),
                    forall|n: int| 0 <= n < nodes@.len() ==> pre.contains(#[trigger] nodes@[n]),
                    forall|n: int|
                        0 <= n < requests@.len() ==> {
                            let req = #[trigger] requests@[n];
                            &&& pre.contains(req.chunk.node)
                            &&& pre.node_value(req.chunk.node) is Some
                            &&& chunk_at(&pre, req.chunk) is Fresh
                            &&& chunk_at(graph, req.chunk) is Generating
                            &&& req.state == pre.node_value(req.chunk.node)->Some_0.state
                            &&& req.dimension == pre.spec_dimension()
                        },
                    forall|c: ChunkId|
                        pre.contains(c.node) && (#[trigger] pre.node_value(c.node)) is Some
                            && chunk_at(graph, c) != chunk_at(&pre, c) ==> chunk_at(&pre, c)
                            is Fresh && chunk_at(graph, c) is Generating,
                    self.spec_fill() < self.spec_capacity() ==> forall|n: int, v: Vertex|
                        0 <= n < i && pre.node_value(nodes@[n]) is Some && (#[trigger] chunk_at(
                            &pre,
                            (ChunkId { node: nodes@[n], vertex: v }),
                        )) is Fresh ==> chunk_at(graph, (ChunkId { node: nodes@[n], vertex: v }))
                            is Generating,
                    self.spec_fill() < self.spec_capacity() ==> forall|v: Vertex|
                        vertex_index_spec(v) < vi && pre.node_value(nodes@[i as int]) is Some && (
                        #[trigger] chunk_at(
                            &pre,
                            (ChunkId { node: nodes@[i as int], vertex: v }),
                        )) is Fresh ==> chunk_at(
                            graph,
                            (ChunkId { node: nodes@[i as int], vertex: v }),
                        ) is Generating,
                decreases 20 - vi,
            {
                let vertex = verts[vi];
                let chunk_id = ChunkId::new(node, vertex);
                let ghost prev = *graph;
                let ghost prev_requests = requests@;
                let is_fresh = match graph.get_chunk(chunk_id) {
                    Some(c) => matches!(c, Chunk::Fresh),
                    None => false,
                };
                if is_fresh {
                    if self.load() {
                        let state = match graph.get(node) {
                            Some(n) => n.state,
                            None => {
                                proof {
                                    assert(false);
                                }
                                unreached()
                            },
                        };
                        let ghost mid = *graph;
                        let c = graph.get_chunk_mut(chunk_id);
                        *c = Chunk::Generating;
                        requests.push(
                            ChunkParams { chunk: chunk_id, state, dimension },
                        );
                        proof {
                            Graph::lemma_wf_same_structure(&mid, graph);
                            crate::node::lemma_store_wf_after_chunk_write(
                                &mid,
                                graph,
                                chunk_id,
                                Chunk::Generating,
                            );
                            crate::node::lemma_same_store_structure_single_write(
                                &mid,
                                graph,
                                chunk_id.node,
                            );
                            crate::node::lemma_same_store_structure_trans(&pre, &mid, graph);
                            assert forall|c2: ChunkId|
                                pre.contains(c2.node) && (#[trigger] pre.node_value(c2.node))
                                    is Some && chunk_at(graph, c2) != chunk_at(&pre, c2) implies
                                chunk_at(&pre, c2) is Fresh && chunk_at(graph, c2)
                                    is Generating by {
                                if c2.node.idx() == chunk_id.node.idx() {
                                    crate::graph::lemma_node_id_injective(c2.node, chunk_id.node);
                                    if vertex_index_spec(c2.vertex) != vertex_index_spec(
                                        chunk_id.vertex,
                                    ) {
                                        assert(chunk_at(graph, c2) == chunk_at(&mid, c2));
                                    }
                                } else {
                                    assert(graph.node_value(c2.node) == mid.node_value(c2.node));
                                }
                            }
                            assert forall|n: int| 0 <= n < requests@.len() implies {
                                let req = #[trigger] requests@[n];
                                &&& pre.contains(req.chunk.node)
                                &&& pre.node_value(req.chunk.node) is Some
                                &&& chunk_at(&pre, req.chunk) is Fresh
                                &&& chunk_at(graph, req.chunk) is Generating
                                &&& req.state == pre.node_value(req.chunk.node)->Some_0.state
                                &&& req.dimension == pre.spec_dimension()
                            } by {
                                let req = requests@[n];
                                if n < prev_requests.len() {
                                    assert(req == prev_requests[n]);
                                    assert(chunk_at(&mid, req.chunk) is Generating);
                                    if req.chunk.node.idx() == chunk_id.node.idx() {
                                        crate::graph::lemma_node_id_injective(
                                            req.chunk.node,
                                            chunk_id.node,
                                        );
                                        if vertex_index_spec(req.chunk.vertex)
                                            == vertex_index_spec(chunk_id.vertex) {
                                            assert(req.chunk.vertex == chunk_id.vertex);
                                            assert(chunk_at(&mid, chunk_id) is Fresh);
                                            assert(false);
                                        } else {
                                            assert(chunk_at(graph, req.chunk) == chunk_at(
                                                &mid,
                                                req.chunk,
                                            ));
                                        }
                                    } else {
                                        assert(graph.node_value(req.chunk.node)
                                            == mid.node_value(req.chunk.node));
                                    }
                                } else {
                                    assert(req.chunk == chunk_id);
                                    assert(chunk_at(&mid, chunk_id) is Fresh);
                                    if chunk_at(&mid, chunk_id) != chunk_at(&pre, chunk_id) {
                                        assert(chunk_at(&pre, chunk_id) is Fresh);
                                    }
                                    assert(mid.node_value(chunk_id.node)->Some_0.state
                                        == pre.node_value(chunk_id.node)->Some_0.state);
                                }
                            }
                        }
                    }
                }
                proof {
                    if self.spec_fill() < self.spec_capacity() {
                        assert forall|n: int, v: Vertex|
                            0 <= n < i && pre.node_value(nodes@[n]) is Some && (
                            #[trigger] chunk_at(
                                &pre,
                                (ChunkId { node: nodes@[n], vertex: v }),
                            )) is Fresh implies chunk_at(
                            graph,
                            (ChunkId { node: nodes@[n], vertex: v }),
                        ) is Generating by {
                            let c2 = ChunkId { node: nodes@[n], vertex: v };
                            assert(chunk_at(&prev, c2) is Generating);
                            if c2.node.idx() == chunk_id.node.idx() {
                                crate::graph::lemma_node_id_injective(c2.node, chunk_id.node);
                                if vertex_index_spec(c2.vertex) == vertex_index_spec(
                                    chunk_id.vertex,
                                ) {
                                    assert(c2.vertex == chunk_id.vertex);
                                    assert(c2 == chunk_id);
                                } else {
                                    assert(chunk_at(graph, c2) == chunk_at(&prev, c2));
                                }
                            } else {
                                assert(graph.node_value(c2.node) == prev.node_value(c2.node));
                            }
                        }
                        assert forall|v: Vertex|
                            vertex_index_spec(v) < vi + 1 && pre.node_value(nodes@[i as int])
                                is Some && (#[trigger] chunk_at(
                                &pre,
                                (ChunkId { node: nodes@[i as int], vertex: v }),
                            )) is Fresh implies chunk_at(
                            graph,
                            (ChunkId { node: nodes@[i as int], vertex: v }),
                        ) is Generating by {
                            let c2 = ChunkId { node: nodes@[i as int], vertex: v };
                            if vertex_index_spec(v) < vi {
                                assert(chunk_at(&prev, c2) is Generating);
                                if c2.node.idx() == chunk_id.node.idx() {
                                    crate::graph::lemma_node_id_injective(c2.node, chunk_id.node);
                                    if vertex_index_spec(c2.vertex) == vertex_index_spec(
                                        chunk_id.vertex,
                                    ) {
                                        assert(c2.vertex == chunk_id.vertex);
                                        assert(c2 == chunk_id);
                                    } else {
                                        assert(chunk_at(graph, c2) == chunk_at(&prev, c2));
                                    }
                                } else {
                                    assert(graph.node_value(c2.node) == prev.node_value(c2.node));
                                }
                            } else {
                                assert(v == vertex);
                                assert(c2 == chunk_id);
                                if chunk_at(&prev, c2) is Fresh {
                                    assert(is_fresh);
                                    assert(chunk_at(graph, c2) is Generating);
                                } else {
                                    if chunk_at(&pre, c2) != chunk_at(&prev, c2) {
                                        assert(chunk_at(&prev, c2) is Generating);
                                    }
                                }
                            }
                        }
                    }
                }
                vi = vi + 1;
            }
            i = i + 1;
        }
        requests
    }

    /// Merges a batch of completed generation results into the graph,
    /// freeing one capacity slot per result. Results may arrive in any
    /// order; population is keyed by chunk identity and idempotent.
    pub fn drive(&mut self, graph: &mut Graph, results: Vec<LoadedChunk>)
        requires
            old(self).inv(),
            old(graph).wf(),
            store_wf(old(graph)),
            results@.len() <= old(self).spec_fill(),
            forall|i: int|
                0 <= i < results@.len() ==> {
                    let r = #[trigger] results@[i];
                    &&& old(graph).contains(r.chunk.node)
                    &&& old(graph).node_value(r.chunk.node) is Some
                    &&& voxel_data_wf(r.voxels, old(graph).spec_dimension() as int)
                },
        ensures
            final(self).inv(),
            final(self).spec_capacity() == old(self).spec_capacity(),
            final(self).spec_fill() == old(self).spec_fill() - results@.len(),
            final(graph).wf(),
            store_wf(final(graph)),
            same_store_structure(final(graph), old(graph)),
            forall|i: int|
                0 <= i < results@.len() ==> chunk_at(
                    final(graph),
                    (#[trigger] results@[i]).chunk,
                ) is Populated,
    {
        let ghost pre = *old(graph);
        let ghost orig = results@;
        let n = results.len();
        let mut results = results;
        while results.len() > 0
            invariant
                results@.len() <= n,
                n == orig.len(),
                results@ == orig.subrange(0, results@.len() as int),
                self.inv(),
                self.spec_capacity() == old(self).spec_capacity(),
                self.spec_fill() == old(self).spec_fill() - (n - results@.len()),
                n <= old(self).spec_fill(),
                graph.wf(),
                store_wf(graph),
                pre.wf(),
                same_store_structure(graph, &pre),
                forall|k: int|
                    0 <= k < orig.len() ==> {
                        let r = #[trigger] orig[k];
                        &&& pre.contains(r.chunk.node)
                        &&& pre.node_value(r.chunk.node) is Some
                        &&& voxel_data_wf(r.voxels, pre.spec_dimension() as int)
                    },
                forall|k: int|
                    results@.len() <= k < n ==> chunk_at(graph, (#[trigger] orig[k]).chunk)
                        is Populated,
            decreases results@.len(),
        {
            let loaded = match results.pop() {
                Some(l) => l,
                None => {
                    proof {
                        assert(false);
                    }
                    unreached()
                },
            };
            let ghost k0 = results@.len() as int;
            proof {
                assert(loaded == orig[k0]);
                assert(results@ =~= orig.subrange(0, k0));
            }
            let LoadedChunk { chunk, voxels } = loaded;
            let ghost mid = *graph;
            proof {
                assert(pre.node_value(chunk.node) is Some);
                assert(graph.node_value(chunk.node) is Some);
                assert(graph.contains(chunk.node));
            }
            graph.populate_chunk(chunk, voxels, false);
            self.fill = self.fill - 1;
            proof {
                crate::node::lemma_same_store_structure_trans(&pre, &mid, graph);
                assert forall|k: int| k0 < k < n implies chunk_at(
                    graph,
                    (#[trigger] orig[k]).chunk,
                ) is Populated by {
                    let c = orig[k].chunk;
                    assert(chunk_at(&mid, c) is Populated);
                    assert(mid.node_value(c.node) is Some);
                    if c == chunk {
                    } else {
                        // populate_chunk leaves other chunks alone or clears
                        // their (solid) margins, which keeps them populated.
                        assert(mid.contains(c.node));
                    }
                }
                assert(chunk_at(graph, orig[k0].chunk) is Populated);
            }
        }
        proof {
            assert(results@.len() == 0);
        }
    }
}

/// Draining completions always pays for as many new submissions: if `k`
/// results were merged out of `fill` requests in flight, then during the
/// next `k` submissions the in-flight count stays below capacity, so each
/// one succeeds by [`ChunkLoader::load_chunks`]'s accounting.
pub proof fn lemma_drain_frees_capacity(fill: int, capacity: int, k: int, j: int)
    requires
        0 <= k <= fill <= capacity,
        0 <= j < k,
    ensures
        (fill - k) + j < capacity,
{
}

} // verus!
