//! Chunk population, voxel edits and margin maintenance.

use hypervoxel::dodeca::Vertex;
use hypervoxel::graph::{Graph, NodeId};
use hypervoxel::node::{
    populate_fresh_nodes, Chunk, ChunkId, CoordAxis, CoordDirection, Coords, VoxelData,
};
use hypervoxel::proto::BlockUpdate;
use hypervoxel::world::Material;

fn populated_root_graph() -> Graph {
    let mut g = Graph::new(12);
    populate_fresh_nodes(&mut g);
    g
}

#[test]
fn populate_fresh_nodes_installs_payloads() {
    let g = populated_root_graph();
    let root = g.get(NodeId::root()).as_ref().expect("root populated");
    assert_eq!(root.state.depth, 0);
    assert!(!root.state.parity);
    assert_eq!(root.chunks.len(), 20);
    assert!(g.fresh().is_empty());
}

#[test]
fn child_state_follows_discovery_path() {
    let mut g = Graph::new(12);
    let a = g.ensure_neighbor(NodeId::root(), hypervoxel::dodeca::Side::A);
    populate_fresh_nodes(&mut g);
    let child = g.get(a).as_ref().expect("child populated");
    assert_eq!(child.state.depth, 1);
    assert!(child.state.parity);
}

#[test]
fn to_index_matches_padded_layout() {
    let c = Coords { x: 3, y: 4, z: 6 };
    // (3+1) + (4+1)*14 + (6+1)*14*14 with a one-voxel margin on each side.
    assert_eq!(c.to_index(12), 4 + 5 * 14 + 7 * 14 * 14);
    assert_eq!(Coords { x: 0, y: 0, z: 0 }.to_index(12), 1 + 14 + 196);
}

#[test]
fn update_block_requires_populated_chunk() {
    let mut g = populated_root_graph();
    let update = BlockUpdate {
        chunk_id: ChunkId::new(NodeId::root(), Vertex::C),
        coords: Coords { x: 1, y: 1, z: 1 },
        new_material: Material::Dirt,
    };
    // The chunk is still Fresh: the edit is refused, not fatal.
    assert!(!g.update_block(&update));
    assert!(matches!(
        g.get_chunk(ChunkId::new(NodeId::root(), Vertex::C)),
        Some(Chunk::Fresh)
    ));
}

#[test]
fn update_block_writes_voxel_and_clears_solid_margin() {
    let mut g = populated_root_graph();
    let chunk = ChunkId::new(NodeId::root(), Vertex::A);
    g.populate_chunk(chunk, VoxelData::Solid(Material::Sand), false);

    let update = BlockUpdate {
        chunk_id: chunk,
        coords: Coords { x: 3, y: 4, z: 6 },
        new_material: Material::Dirt,
    };
    assert!(g.update_block(&update));

    let Some(Chunk::Populated { voxels, modified, surface, .. }) = g.get_chunk(chunk) else {
        panic!("chunk must be populated");
    };
    assert!(*modified);
    assert!(surface.is_none());
    assert!(!voxels.is_solid());
    // The written voxel.
    assert_eq!(voxels.get(Coords { x: 3, y: 4, z: 6 }.to_index(12)), Material::Dirt);
    // An untouched interior voxel keeps the solid fill.
    assert_eq!(voxels.get(Coords { x: 0, y: 0, z: 0 }.to_index(12)), Material::Sand);
    // A margin voxel was cleared to void.
    assert_eq!(voxels.get(0), Material::Void);
}

#[test]
fn populating_solid_next_to_modified_chunk_clears_its_margin() {
    let mut g = populated_root_graph();
    let chunk_a = ChunkId::new(NodeId::root(), Vertex::A);
    g.populate_chunk(chunk_a, VoxelData::Solid(Material::Void), false);
    let update = BlockUpdate {
        chunk_id: chunk_a,
        coords: Coords { x: 0, y: 0, z: 0 },
        new_material: Material::Stone,
    };
    assert!(g.update_block(&update));

    // Vertex::B's chunk borders Vertex::A's within the same cell.
    let chunk_b = ChunkId::new(NodeId::root(), Vertex::B);
    assert_eq!(
        g.get_chunk_neighbor(chunk_a, CoordAxis::Y, CoordDirection::Plus),
        Some(chunk_b)
    );
    g.populate_chunk(chunk_b, VoxelData::Solid(Material::Stone), false);

    let Some(Chunk::Populated { voxels, .. }) = g.get_chunk(chunk_b) else {
        panic!("chunk must be populated");
    };
    // The fresh solid payload arrived next to an edited chunk: its margin
    // cache cannot be trusted, so it was voided out.
    assert!(!voxels.is_solid());
    assert_eq!(voxels.get(0), Material::Void);
    assert_eq!(voxels.get(Coords { x: 2, y: 2, z: 2 }.to_index(12)), Material::Stone);
}

#[test]
fn populating_modified_chunk_clears_adjacent_solid_margins() {
    let mut g = populated_root_graph();
    let chunk_a = ChunkId::new(NodeId::root(), Vertex::A);
    let chunk_b = ChunkId::new(NodeId::root(), Vertex::B);
    g.populate_chunk(chunk_b, VoxelData::Solid(Material::Stone), false);
    {
        let Some(Chunk::Populated { voxels, .. }) = g.get_chunk(chunk_b) else {
            panic!("chunk must be populated");
        };
        assert!(voxels.is_solid());
    }
    // Committing modified data next door forces the solid neighbor to stop
    // trusting its cached margin.
    g.populate_chunk(chunk_a, VoxelData::Solid(Material::Dirt), true);
    let Some(Chunk::Populated { voxels, .. }) = g.get_chunk(chunk_b) else {
        panic!("chunk must be populated");
    };
    assert!(!voxels.is_solid());
    assert_eq!(voxels.get(0), Material::Void);
}

#[test]
fn block_neighbor_within_chunk() {
    let g = populated_root_graph();
    let chunk = ChunkId::new(NodeId::root(), Vertex::A);
    let c = Coords { x: 5, y: 5, z: 5 };
    assert_eq!(
        g.get_block_neighbor(chunk, c, CoordAxis::X, CoordDirection::Plus),
        Some((chunk, Coords { x: 6, y: 5, z: 5 }))
    );
    assert_eq!(
        g.get_block_neighbor(chunk, c, CoordAxis::Z, CoordDirection::Minus),
        Some((chunk, Coords { x: 5, y: 5, z: 4 }))
    );
}

#[test]
fn block_neighbor_across_vertex_permutes_coordinates() {
    let g = populated_root_graph();
    let chunk = ChunkId::new(NodeId::root(), Vertex::A);
    // Vertex::A has sides [A, B, C]; across axis X lies Vertex::F with sides
    // [B, C, H]: the y (side B) and z (side C) coordinates move to the new
    // vertex's first two axes, and the crossed axis lands on H.
    let r = g.get_block_neighbor(
        chunk,
        Coords { x: 11, y: 3, z: 7 },
        CoordAxis::X,
        CoordDirection::Plus,
    );
    assert_eq!(
        r,
        Some((ChunkId::new(NodeId::root(), Vertex::F), Coords { x: 3, y: 7, z: 11 }))
    );
}

#[test]
fn block_neighbor_across_missing_cell_is_none() {
    let mut g = populated_root_graph();
    let chunk = ChunkId::new(NodeId::root(), Vertex::A);
    let c = Coords { x: 0, y: 5, z: 5 };
    assert_eq!(g.get_block_neighbor(chunk, c, CoordAxis::X, CoordDirection::Minus), None);
    // Once the neighboring cell exists the step succeeds, keeping coords.
    let sides = Vertex::A.canonical_sides();
    let n = g.ensure_neighbor(NodeId::root(), sides[0]);
    assert_eq!(
        g.get_block_neighbor(chunk, c, CoordAxis::X, CoordDirection::Minus),
        Some((ChunkId::new(n, Vertex::A), c))
    );
}
