//! The breadth-first traversal discipline behind sphere casts.

use hypervoxel::dodeca::Vertex;
use hypervoxel::graph::{Graph, NodeId};
use hypervoxel::graph_collision::{CastTraversal, SphereCastError};
use hypervoxel::node::{populate_fresh_nodes, ChunkId, CoordAxis, VoxelData};
use hypervoxel::world::Material;

fn void_root_graph() -> Graph {
    let mut g = Graph::new(12);
    populate_fresh_nodes(&mut g);
    for vertex in Vertex::iter() {
        g.populate_chunk(
            ChunkId::new(NodeId::root(), vertex),
            VoxelData::Solid(Material::Void),
            false,
        );
    }
    g
}

#[test]
fn start_chunk_comes_first() {
    let g = void_root_graph();
    let start = ChunkId::new(NodeId::root(), Vertex::A);
    let mut t = CastTraversal::new(start);
    assert_eq!(t.next_chunk(&g), Ok(Some(start)));
    assert_eq!(t.next_chunk(&g), Ok(None));
}

#[test]
fn unpopulated_chunk_is_out_of_bounds() {
    let mut g = Graph::new(12);
    populate_fresh_nodes(&mut g);
    // The cell exists but its chunk holds no voxels yet.
    let start = ChunkId::new(NodeId::root(), Vertex::A);
    let mut t = CastTraversal::new(start);
    assert_eq!(t.next_chunk(&g), Err(SphereCastError::OutOfBounds));
}

#[test]
fn vertex_neighbors_are_deduplicated() {
    let g = void_root_graph();
    let start = ChunkId::new(NodeId::root(), Vertex::A);
    let mut t = CastTraversal::new(start);
    assert_eq!(t.next_chunk(&g), Ok(Some(start)));
    // The swept segment leaves across the x face twice over; the neighbor
    // must still be visited only once.
    assert!(t.enqueue_vertex_neighbor(start, CoordAxis::X));
    assert!(!t.enqueue_vertex_neighbor(start, CoordAxis::X));
    assert!(t.enqueue_vertex_neighbor(start, CoordAxis::Y));
    let across_x = ChunkId::new(NodeId::root(), Vertex::A.adjacent_vertices()[0]);
    let across_y = ChunkId::new(NodeId::root(), Vertex::A.adjacent_vertices()[1]);
    assert_eq!(t.next_chunk(&g), Ok(Some(across_x)));
    assert_eq!(t.next_chunk(&g), Ok(Some(across_y)));
    assert_eq!(t.next_chunk(&g), Ok(None));
}

#[test]
fn crossing_into_missing_cell_is_out_of_bounds() {
    let g = void_root_graph();
    let start = ChunkId::new(NodeId::root(), Vertex::A);
    let mut t = CastTraversal::new(start);
    assert_eq!(t.next_chunk(&g), Ok(Some(start)));
    // No neighbor cell was ever created across this face: rather than
    // under-report a hit, the cast must fail conclusively.
    assert_eq!(
        t.enqueue_node_neighbor(&g, start, CoordAxis::X),
        Err(SphereCastError::OutOfBounds)
    );
}

#[test]
fn crossing_into_existing_cell_queues_it() {
    let mut g = void_root_graph();
    let start = ChunkId::new(NodeId::root(), Vertex::A);
    let side = Vertex::A.canonical_sides()[0];
    let neighbor = g.ensure_neighbor(NodeId::root(), side);
    populate_fresh_nodes(&mut g);
    for vertex in Vertex::iter() {
        g.populate_chunk(ChunkId::new(neighbor, vertex), VoxelData::Solid(Material::Void), false);
    }
    let mut t = CastTraversal::new(start);
    assert_eq!(t.next_chunk(&g), Ok(Some(start)));
    assert_eq!(t.enqueue_node_neighbor(&g, start, CoordAxis::X), Ok(true));
    assert_eq!(t.next_chunk(&g), Ok(Some(ChunkId::new(neighbor, Vertex::A))));
    assert_eq!(t.next_chunk(&g), Ok(None));
}
