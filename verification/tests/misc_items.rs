//! Small items: axes, directions, materials and padded sizes.

use hypervoxel::node::{chunk_data_len, CoordAxis, CoordDirection};
use hypervoxel::world::Material;

#[test]
fn chunk_data_len_includes_margins() {
    assert_eq!(chunk_data_len(12), 14 * 14 * 14);
    assert_eq!(chunk_data_len(1), 27);
}

#[test]
fn axes_and_directions_enumerate() {
    let axes = CoordAxis::iter();
    assert_eq!(axes.len(), 3);
    for (i, axis) in axes.iter().enumerate() {
        assert_eq!(axis.index(), i);
        assert_eq!(CoordAxis::try_from(i).unwrap(), *axis);
        let [u, v] = axis.other_axes();
        assert_eq!(u.index(), (i + 1) % 3);
        assert_eq!(v.index(), (i + 2) % 3);
    }
    assert!(CoordAxis::try_from(3).is_err());
    let dirs = CoordDirection::iter();
    assert_eq!(dirs, vec![CoordDirection::Plus, CoordDirection::Minus]);
}

#[test]
fn only_void_is_passable() {
    assert!(!Material::Void.is_opaque());
    assert!(Material::Dirt.is_opaque());
    assert!(Material::Sand.is_opaque());
    assert!(Material::Stone.is_opaque());
}
