//! The chunk loader's bounded in-flight accounting.

use hypervoxel::chunk_loader::{ChunkLoader, LoadedChunk};
use hypervoxel::graph::{Graph, NodeId};
use hypervoxel::node::{populate_fresh_nodes, Chunk};
use hypervoxel::world::Material;
use hypervoxel::node::VoxelData;

fn populated_root_graph() -> Graph {
    let mut g = Graph::new(12);
    populate_fresh_nodes(&mut g);
    g
}

#[test]
fn submissions_stop_at_capacity() {
    let mut g = populated_root_graph();
    let mut loader = ChunkLoader::new(3);
    let nodes = vec![NodeId::root()];
    let requests = loader.load_chunks(&mut g, &nodes);
    // The root has 20 fresh chunks but only 3 slots exist.
    assert_eq!(requests.len(), 3);
    assert_eq!(loader.fill(), 3);
    // Saturated: another scan submits nothing.
    let more = loader.load_chunks(&mut g, &nodes);
    assert!(more.is_empty());
    assert_eq!(loader.fill(), 3);
    // The three submitted chunks are marked, the others left fresh.
    for req in &requests {
        assert!(matches!(g.get_chunk(req.chunk), Some(Chunk::Generating)));
    }
}

#[test]
fn drive_frees_exactly_what_it_merges() {
    let mut g = populated_root_graph();
    let mut loader = ChunkLoader::new(3);
    let nodes = vec![NodeId::root()];
    let requests = loader.load_chunks(&mut g, &nodes);
    assert_eq!(loader.fill(), 3);

    // Two workers finish; merging their payloads frees two slots.
    let results: Vec<LoadedChunk> = requests
        .iter()
        .take(2)
        .map(|req| LoadedChunk { chunk: req.chunk, voxels: VoxelData::Solid(Material::Void) })
        .collect();
    loader.drive(&mut g, results);
    assert_eq!(loader.fill(), 1);
    for req in requests.iter().take(2) {
        assert!(matches!(g.get_chunk(req.chunk), Some(Chunk::Populated { .. })));
    }
    assert!(matches!(g.get_chunk(requests[2].chunk), Some(Chunk::Generating)));

    // Exactly two more submissions fit immediately afterwards.
    let more = loader.load_chunks(&mut g, &nodes);
    assert_eq!(more.len(), 2);
    assert_eq!(loader.fill(), loader.capacity());
}

#[test]
fn capacity_left_means_no_fresh_chunk_is_skipped() {
    let mut g = populated_root_graph();
    let mut loader = ChunkLoader::new(64);
    let nodes = vec![NodeId::root()];
    let requests = loader.load_chunks(&mut g, &nodes);
    assert_eq!(requests.len(), 20);
    assert_eq!(loader.fill(), 20);
    for vertex in hypervoxel::dodeca::Vertex::iter() {
        let chunk = hypervoxel::node::ChunkId::new(NodeId::root(), vertex);
        assert!(matches!(g.get_chunk(chunk), Some(Chunk::Generating)));
    }
}
