//! Plain data carried between client, server and simulation core.
//!
//! Only the discrete payloads live here; the network layer that frames and
//! transports them, and the floating-point state it also carries (local
//! isometries, velocities, orientations), are outside the verified core.

use vstd::prelude::*;

use crate::dodeca::{Side, Vertex};
use crate::graph::NodeId;
use crate::node::{ChunkId, Coords};
use crate::world::Material;

verus! {

/// Identity of one simulated entity, stable across the wire.
#[derive(Clone, Copy, Debug, PartialEq, Eq, Hash, Structural)]
pub struct EntityId(pub u64);

/// Discrete parameters of a simulation both ends must agree on.
#[derive(Clone, Copy, Debug, PartialEq, Eq, Structural)]
pub struct SimConfig {
    /// Simulation steps per second.
    pub rate: u16,
    /// Number of voxels along one axis of every chunk.
    pub chunk_size: u8,
}

/// First message of a connecting client.
#[derive(Debug, Clone)]
pub struct ClientHello {
    pub name: String,
}

/// The server's answer: who the client is and how the world is configured.
#[derive(Debug, Clone, Copy)]
pub struct ServerHello {
    pub character: EntityId,
    pub sim_config: SimConfig,
}

/// Simulation details a client keeps after connecting.
#[derive(Debug, Clone, Copy)]
pub struct Parameters {
    pub sim_config: SimConfig,
    pub character_id: EntityId,
}

/// A chunk named by a path-independent cell identity rather than a raw
/// arena handle, as the wire requires.
#[derive(Debug, Clone, Copy, PartialEq, Eq, Hash, Structural)]
pub struct GlobalChunkId {
    pub node_hash: u128,
    pub vertex: Vertex,
}

/// One voxel edit: which chunk, which voxel, and the material to write.
#[derive(Debug, Clone, Copy)]
pub struct BlockUpdate {
    pub chunk_id: ChunkId,
    pub coords: Coords,
    pub new_material: Material,
}

/// A chunk's voxels in margin-free wire form: exactly `dimension^3` entries
/// in x-fastest order, no margins.
#[derive(Debug, Clone)]
pub struct SerializableVoxelData {
    pub voxels: Vec<Material>,
}

/// A node the server tells the client to create: the side joining it to an
/// already known parent.
#[derive(Debug, Clone, Copy)]
pub struct FreshNode {
    pub side: Side,
    pub parent: NodeId,
}

} // verus!
