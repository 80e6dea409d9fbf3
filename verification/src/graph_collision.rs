//! Bookkeeping of the breadth-first chunk traversal behind swept-sphere
//! collision queries.
//!
//! A sphere cast starts in the chunk holding the ray's origin and walks
//! outward chunk by chunk: whenever the swept segment comes within the
//! collider's radius of a chunk face, the chunk across that face joins the
//! queue — across to the adjacent vertex of the same cell, or across to the
//! neighboring cell. Every queued chunk is deduplicated, visited chunks must
//! hold voxel data, and a crossing into a cell that was never created ends
//! the query with [`SphereCastError::OutOfBounds`]: the cast must never
//! under-report a hit by silently skipping ungenerated space. The numeric
//! side (where the segment actually runs, what it hits inside one chunk) is
//! the caller's; this module guarantees the graph-walking discipline.

use vstd::prelude::*;

use crate::dodeca::{adjacent_vertices_spec, canonical_sides_spec};
use crate::graph::Graph;
use crate::node::{axis_index_spec, chunk_populated, Chunk, ChunkId, CoordAxis};
use crate::node::store_wf;

verus! {

/// Why a sphere cast could not give a conclusive answer.
#[derive(Clone, Copy, Debug, PartialEq, Eq, Structural)]
pub enum SphereCastError {
    /// The traversal needed a chunk whose cell does not exist yet or whose
    /// voxels are not populated.
    OutOfBounds,
}

/// The work queue and visited set of one breadth-first sphere-cast
/// traversal.
pub struct CastTraversal {
    queue: Vec<ChunkId>,
    head: usize,
    visited: Vec<ChunkId>,
}

impl CastTraversal {
    /// Chunks queued but not yet handed out, in breadth-first order.
    pub closed spec fn spec_pending(&self) -> Seq<ChunkId> {
        self.queue@.skip(self.head as int)
    }

    /// Every chunk ever queued past the starting one.
    pub closed spec fn spec_visited(&self) -> Seq<ChunkId> {
        self.visited@
    }

    /// The queue cursor never passes the queue's end.
    pub closed spec fn inv(&self) -> bool {
        self.head <= self.queue@.len()
    }

    /// A traversal about to inspect the starting chunk. The start itself is
    /// not marked visited; only chunks reached across a face are.
    pub fn new(start: ChunkId) -> (r: CastTraversal)
        ensures
            r.inv(),
            r.spec_pending() == seq![start],
            r.spec_visited() == Seq::<ChunkId>::empty(),
    {
        let mut queue: Vec<ChunkId> = Vec::new();
        queue.push(start);
        let r = CastTraversal { queue, head: 0, visited: Vec::new() };
        proof {
            assert(r.spec_pending() =~= seq![start]);
            assert(r.spec_visited() =~= Seq::<ChunkId>::empty());
        }
        r
    }

    /// Hands out the next chunk to inspect, failing with `OutOfBounds` if
    /// that chunk's cell is missing or its voxels are not populated; returns
    /// `Ok(None)` once the queue is exhausted.
    pub fn next_chunk(&mut self, graph: &Graph) -> (r: Result<Option<ChunkId>, SphereCastError>)
        requires
            old(self).inv(),
            graph.wf(),
            store_wf(graph),
        ensures
            final(self).inv(),
            final(self).spec_visited() == old(self).spec_visited(),
            old(self).spec_pending().len() == 0 ==> r == Ok::<Option<ChunkId>, SphereCastError>(
                None,
            ) && final(self).spec_pending() == old(self).spec_pending(),
            old(self).spec_pending().len() > 0 ==> {
                let c = old(self).spec_pending()[0];
                &&& final(self).spec_pending() == old(self).spec_pending().skip(1)
                &&& (graph.contains(c.node) && chunk_populated(graph, c)) <==> r == Ok::<
                    Option<ChunkId>,
                    SphereCastError,
                >(Some(c))
                &&& !(graph.contains(c.node) && chunk_populated(graph, c)) <==> r == Err::<
                    Option<ChunkId>,
                    SphereCastError,
                >(SphereCastError::OutOfBounds)
            },
    {
        if self.head >= self.queue.len() {
            proof {
                assert(self.spec_pending().len() == 0);
            }
            return Ok(None);
        }
        let c = self.queue[self.head];
        self.head = self.head + 1;
        proof {
            assert(c == old(self).spec_pending()[0]);
            assert(self.spec_pending() =~= old(self).spec_pending().skip(1));
        }
        if !(c.node.index() < graph.node_count()) {
            return Err(SphereCastError::OutOfBounds);
        }
        match graph.get_chunk(c) {
            Some(chunk) => {
                if matches!(chunk, Chunk::Populated { .. }) {
                    Ok(Some(c))
                } else {
                    Err(SphereCastError::OutOfBounds)
                }
            },
            None => Err(SphereCastError::OutOfBounds),
        }
    }

    /// Queues `target` unless an earlier crossing already queued it;
    /// reports whether it was queued now.
    fn enqueue(&mut self, target: ChunkId) -> (queued: bool)
        requires
            old(self).inv(),
        ensures
            final(self).inv(),
            queued == !old(self).spec_visited().contains(target),
            !queued ==> final(self).spec_pending() == old(self).spec_pending() && final(self).spec_visited() == old(self).spec_visited(),
            queued ==> final(self).spec_pending() == old(self).spec_pending().push(target) && final(self).spec_visited() == old(self).spec_visited().push(target),
    {
        let mut seen = false;
        let mut i: usize = 0;
        while i < self.visited.len()
            invariant
                i <= self.visited@.len(),
                seen == exists|j: int| 0 <= j < i && self.visited@[j] == target,
            decreases self.visited@.len() - i,
        {
            if self.visited[i] == target {
                seen = true;
            }
            i = i + 1;
        }
        proof {
            assert(seen == self.spec_visited().contains(target));
        }
        if !seen {
            self.visited.push(target);
            self.queue.push(target);
            proof {
                assert(self.spec_pending() =~= old(self).spec_pending().push(target));
            }
        }
        !seen
    }

    /// Queues the chunk across the face along `coord_axis` within the same
    /// cell (the adjacent vertex's chunk), deduplicated; reports whether it
    /// was queued now.
    pub fn enqueue_vertex_neighbor(&mut self, chunk: ChunkId, coord_axis: CoordAxis) -> (queued:
        bool)
        requires
            old(self).inv(),
        ensures
            final(self).inv(),
            ({
                let target = ChunkId {
                    node: chunk.node,
                    vertex: adjacent_vertices_spec(chunk.vertex)[axis_index_spec(coord_axis)],
                };
                &&& queued == !old(self).spec_visited().contains(target)
                &&& !queued ==> final(self).spec_pending() == old(self).spec_pending()
                    && final(self).spec_visited() == old(self).spec_visited()
                &&& queued ==> final(self).spec_pending() == old(self).spec_pending().push(target)
                    && final(self).spec_visited() == old(self).spec_visited().push(target)
            }),
    {
        let verts = chunk.vertex.adjacent_vertices();
        let target = ChunkId::new(chunk.node, verts[coord_axis.index()]);
        self.enqueue(target)
    }

    /// Queues the same vertex's chunk of the cell across the face along
    /// `coord_axis`, deduplicated; fails with `OutOfBounds` if that cell has
    /// not been created, because an unexplored cell could hide a hit.
    pub fn enqueue_node_neighbor(&mut self, graph: &Graph, chunk: ChunkId, coord_axis: CoordAxis) -> (r:
        Result<bool, SphereCastError>)
        requires
            old(self).inv(),
            graph.wf(),
            graph.contains(chunk.node),
        ensures
            final(self).inv(),
            ({
                let side = canonical_sides_spec(chunk.vertex)[axis_index_spec(coord_axis)];
                match graph.spec_neighbor(chunk.node, side) {
                    None => {
                        &&& r == Err::<bool, SphereCastError>(SphereCastError::OutOfBounds)
                        &&& final(self).spec_pending() == old(self).spec_pending()
                        &&& final(self).spec_visited() == old(self).spec_visited()
                    },
                    Some(n) => {
                        let target = ChunkId { node: n, vertex: chunk.vertex };
                        &&& r == Ok::<bool, SphereCastError>(
                            !old(self).spec_visited().contains(target),
                        )
                        &&& (old(self).spec_visited().contains(target) ==> final(self).spec_pending() == old(self).spec_pending() && final(self).spec_visited()
                            == old(self).spec_visited())
                        &&& (!old(self).spec_visited().contains(target) ==> final(self).spec_pending() == old(self).spec_pending().push(target) && final(self).spec_visited() == old(self).spec_visited().push(target))
                    },
                }
            }),
    {
        let sides = chunk.vertex.canonical_sides();
        match graph.neighbor(chunk.node, sides[coord_axis.index()]) {
            Some(n) => Ok(self.enqueue(ChunkId::new(n, chunk.vertex))),
            None => Err(SphereCastError::OutOfBounds),
        }
    }
}

} // verus!
