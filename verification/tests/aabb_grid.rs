//! Grid enumeration of voxel bounding boxes.

use hypervoxel::node::VoxelAABB;

#[test]
fn new_rejects_disordered_or_oversized_bounds() {
    assert!(VoxelAABB::new([0, 0, 0], [3, 3, 3], 12).is_some());
    assert!(VoxelAABB::new([4, 0, 0], [3, 3, 3], 12).is_none());
    // The far bound may reach one voxel past the chunk (the margin), not
    // further.
    assert!(VoxelAABB::new([0, 0, 0], [13, 13, 13], 12).is_some());
    assert!(VoxelAABB::new([0, 0, 0], [14, 13, 13], 12).is_none());
}

#[test]
fn grid_planes_lists_the_span() {
    let aabb = VoxelAABB::new([2, 5, 0], [4, 9, 1], 12).unwrap();
    assert_eq!(aabb.grid_planes(0), vec![2, 3]);
    assert_eq!(aabb.grid_planes(1), vec![5, 6, 7, 8]);
    assert_eq!(aabb.grid_planes(2), vec![0]);
}

#[test]
fn grid_lines_pairs_the_two_fixed_axes() {
    let aabb = VoxelAABB::new([2, 5, 0], [4, 7, 1], 12).unwrap();
    assert_eq!(aabb.grid_lines(0, 1), vec![(2, 5), (2, 6), (3, 5), (3, 6)]);
    assert_eq!(aabb.grid_lines(1, 2), vec![(5, 0), (6, 0)]);
}

#[test]
fn grid_points_covers_the_box_in_order() {
    let aabb = VoxelAABB::new([1, 2, 3], [3, 3, 5], 12).unwrap();
    assert_eq!(
        aabb.grid_points(0, 1, 2),
        vec![(1, 2, 3), (1, 2, 4), (2, 2, 3), (2, 2, 4)]
    );
    // Permuted axes enumerate the same box with the permuted slow axis.
    assert_eq!(
        aabb.grid_points(2, 1, 0),
        vec![(3, 2, 1), (3, 2, 2), (4, 2, 1), (4, 2, 2)]
    );
}

#[test]
fn empty_span_yields_nothing() {
    let aabb = VoxelAABB::new([3, 3, 3], [3, 5, 5], 12).unwrap();
    assert!(aabb.grid_points(0, 1, 2).is_empty());
    assert!(aabb.grid_lines(0, 1).is_empty());
    assert!(aabb.grid_planes(0).is_empty());
}
