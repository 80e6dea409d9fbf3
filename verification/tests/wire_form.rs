//! Conversion between padded voxel arrays and the margin-free wire form.

use hypervoxel::node::{Coords, VoxelData};
use hypervoxel::proto::SerializableVoxelData;
use hypervoxel::world::Material;

fn checkered(dim: u8) -> SerializableVoxelData {
    let n = (dim as usize).pow(3);
    let mut voxels = Vec::with_capacity(n);
    for k in 0..n {
        voxels.push(if k % 3 == 0 {
            Material::Dirt
        } else if k % 3 == 1 {
            Material::Void
        } else {
            Material::Stone
        });
    }
    SerializableVoxelData { voxels }
}

#[test]
fn from_serializable_rejects_wrong_length() {
    let wire = SerializableVoxelData { voxels: vec![Material::Void; 11 * 11 * 11] };
    assert!(VoxelData::from_serializable(&wire, 12).is_none());
}

#[test]
fn from_serializable_places_voxels_and_voids_margins() {
    let dim: u8 = 4;
    let wire = checkered(dim);
    let data = VoxelData::from_serializable(&wire, dim).expect("right length");
    // Wire position 0 is the chunk's (0,0,0) voxel.
    assert_eq!(data.get(Coords { x: 0, y: 0, z: 0 }.to_index(dim)), Material::Dirt);
    // Wire order is x-fastest: position 1 is (1,0,0).
    assert_eq!(data.get(Coords { x: 1, y: 0, z: 0 }.to_index(dim)), Material::Void);
    assert_eq!(data.get(Coords { x: 2, y: 0, z: 0 }.to_index(dim)), Material::Stone);
    // The padded array's corner is margin, hence void.
    assert_eq!(data.get(0), Material::Void);
}

#[test]
fn wire_round_trip_preserves_all_voxels() {
    let dim: u8 = 5;
    let wire = checkered(dim);
    let data = VoxelData::from_serializable(&wire, dim).expect("right length");
    let back = data.to_serializable(dim);
    assert_eq!(back.voxels.len(), wire.voxels.len());
    for (a, b) in back.voxels.iter().zip(wire.voxels.iter()) {
        assert_eq!(a, b);
    }
}

#[test]
fn clear_margin_voids_every_face() {
    let dim: u8 = 3;
    let mut data = VoxelData::Solid(Material::Stone);
    data.clear_margin(dim);
    let m = dim as usize + 2;
    for z in 0..m {
        for y in 0..m {
            for x in 0..m {
                let idx = x + y * m + z * m * m;
                let on_face = x == 0 || x == m - 1 || y == 0 || y == m - 1 || z == 0 || z == m - 1;
                let expect = if on_face { Material::Void } else { Material::Stone };
                assert_eq!(data.get(idx), expect, "at ({x},{y},{z})");
            }
        }
    }
}
