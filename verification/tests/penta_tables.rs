//! Consistency of the flat demo tiling's tables.

use hypervoxel::penta::{Side, Vertex};

#[test]
fn side_neighborhood_is_the_cycle() {
    let sides = Side::iter();
    assert_eq!(sides.len(), 6);
    for (i, &a) in sides.iter().enumerate() {
        let prev = sides[(i + 5) % 6];
        let next = sides[(i + 1) % 6];
        for &b in sides.iter() {
            assert_eq!(a.is_neighbor(b), b == prev || b == next);
            assert_eq!(a.is_neighbor(b), b.is_neighbor(a));
        }
        assert!(!a.is_neighbor(a));
    }
}

#[test]
fn vertex_sides_are_consecutive() {
    for &v in Vertex::iter().iter() {
        let [s0, s1] = v.sides();
        assert!(s0.is_neighbor(s1));
    }
    assert_eq!(Vertex::AB.sides(), [Side::A, Side::B]);
    assert_eq!(Vertex::FA.sides(), [Side::F, Side::A]);
}

#[test]
fn adjacent_vertices_share_one_side() {
    let verts = Vertex::iter();
    assert_eq!(verts.len(), 6);
    for &v in verts.iter() {
        let [next, prev] = v.adjacent_vertices();
        assert_ne!(next, v);
        assert_ne!(prev, v);
        let [s0, s1] = v.sides();
        // The next corner shares this corner's second side, the previous one
        // its first.
        assert_eq!(next.sides()[0], s1);
        assert_eq!(prev.sides()[1], s0);
    }
}
