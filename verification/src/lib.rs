//! Simulation core for an agent moving through an infinite hyperbolic voxel
//! world tiled by right-angled dodecahedral cells.
//!
//! The crate holds the discrete heart of the simulation: the combinatorics of
//! the dodecahedral honeycomb, the lazy deduplicated cell graph, per-cell voxel
//! chunk storage with margin maintenance, the bookkeeping of the background
//! chunk loader, and the breadth-first chunk traversal that backs swept-sphere
//! collision queries. Floating-point geometry (isometries, ray math, the
//! numeric side of collision) lives outside the verified core and drives it
//! through plain values.

pub mod chunk_loader;
pub mod dodeca;
pub mod graph;
pub mod graph_collision;
pub mod node;
pub mod penta;
pub mod proto;
pub mod world;

