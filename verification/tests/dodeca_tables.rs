//! Consistency of the dodecahedral combinatorial tables.

use hypervoxel::dodeca::{Side, Vertex};

#[test]
fn side_iter_is_all_sides_once() {
    let sides = Side::iter();
    assert_eq!(sides.len(), 12);
    for (i, s) in sides.iter().enumerate() {
        assert_eq!(s.index(), i);
    }
}

#[test]
fn vertex_iter_is_all_vertices_once() {
    let verts = Vertex::iter();
    assert_eq!(verts.len(), 20);
    for (i, v) in verts.iter().enumerate() {
        assert_eq!(v.index(), i);
    }
}

#[test]
fn adjacency_is_symmetric_and_irreflexive() {
    for &a in Side::iter().iter() {
        assert!(!a.adjacent_to(a));
        let mut neighbors = 0;
        for &b in Side::iter().iter() {
            assert_eq!(a.adjacent_to(b), b.adjacent_to(a));
            if a.adjacent_to(b) {
                neighbors += 1;
            }
        }
        // A dodecahedron's face touches exactly five others.
        assert_eq!(neighbors, 5);
    }
}

#[test]
fn vertex_sides_are_mutually_adjacent() {
    for &v in Vertex::iter().iter() {
        let sides = v.canonical_sides();
        assert!(sides[0].adjacent_to(sides[1]));
        assert!(sides[0].adjacent_to(sides[2]));
        assert!(sides[1].adjacent_to(sides[2]));
        assert_ne!(sides[0], sides[1]);
        assert_ne!(sides[0], sides[2]);
        assert_ne!(sides[1], sides[2]);
    }
}

#[test]
fn adjacent_vertices_share_exactly_the_other_two_sides() {
    for &v in Vertex::iter().iter() {
        let sides = v.canonical_sides();
        let adj = v.adjacent_vertices();
        for axis in 0..3 {
            let other = adj[axis];
            assert_ne!(other, v);
            let other_sides = other.canonical_sides();
            for (k, s) in sides.iter().enumerate() {
                let shared = other_sides.contains(s);
                assert_eq!(shared, k != axis, "axis {axis} of {v:?}");
            }
        }
    }
}

#[test]
fn each_vertex_appears_under_its_three_sides() {
    // Every (vertex, side) pair with the side at the vertex names a unique
    // corner of that side's face: each side bounds exactly five vertices.
    for &s in Side::iter().iter() {
        let mut count = 0;
        for &v in Vertex::iter().iter() {
            if v.canonical_sides().contains(&s) {
                count += 1;
            }
        }
        assert_eq!(count, 5);
    }
}
