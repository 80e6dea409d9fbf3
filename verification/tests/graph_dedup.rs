//! The lazy cell graph: creation, deduplication and the fresh queue.

use hypervoxel::dodeca::Side;
use hypervoxel::graph::{Graph, NodeId};

#[test]
fn new_graph_has_one_fresh_root() {
    let g = Graph::new(12);
    assert_eq!(g.node_count(), 1);
    assert_eq!(g.dimension(), 12);
    let fresh = g.fresh();
    assert_eq!(fresh.len(), 1);
    assert_eq!(fresh[0], NodeId::root());
    for &s in Side::iter().iter() {
        assert!(g.neighbor(NodeId::root(), s).is_none());
    }
}

#[test]
fn ensure_neighbor_links_both_ways() {
    let mut g = Graph::new(12);
    let n = g.ensure_neighbor(NodeId::root(), Side::A);
    assert_ne!(n, NodeId::root());
    assert_eq!(g.neighbor(NodeId::root(), Side::A), Some(n));
    assert_eq!(g.neighbor(n, Side::A), Some(NodeId::root()));
    assert_eq!(g.length(n), 1);
    assert_eq!(g.parent(n), Some(Side::A));
    // Asking again creates nothing new.
    let count = g.node_count();
    assert_eq!(g.ensure_neighbor(NodeId::root(), Side::A), n);
    assert_eq!(g.node_count(), count);
}

#[test]
fn perpendicular_crossings_commute() {
    // Crossing two adjacent (perpendicular) faces in either order must land
    // in the same cell: the graph may not duplicate it.
    for &s in Side::iter().iter() {
        for &t in Side::iter().iter() {
            if !s.adjacent_to(t) {
                continue;
            }
            let mut g = Graph::new(12);
            let via_s = {
                let a = g.ensure_neighbor(NodeId::root(), s);
                g.ensure_neighbor(a, t)
            };
            let via_t = {
                let b = g.ensure_neighbor(NodeId::root(), t);
                g.ensure_neighbor(b, s)
            };
            assert_eq!(via_s, via_t, "sides {s:?} and {t:?}");
            assert_eq!(g.length(via_s), 2);
        }
    }
}

#[test]
fn perpendicular_square_closes() {
    // Going around a face-pair square returns to the root.
    let s = Side::A;
    let t = Side::B;
    assert!(s.adjacent_to(t));
    let mut g = Graph::new(12);
    let a = g.ensure_neighbor(NodeId::root(), s);
    let b = g.ensure_neighbor(a, t);
    let c = g.ensure_neighbor(b, s);
    let back = g.ensure_neighbor(c, t);
    assert_eq!(back, NodeId::root());
}

#[test]
fn non_adjacent_crossings_do_not_commute() {
    // Side::A's face does not touch Side::G's: the two crossing orders reach
    // two different cells.
    let s = Side::A;
    let t = Side::G;
    assert!(!s.adjacent_to(t));
    let mut g = Graph::new(12);
    let via_s = {
        let a = g.ensure_neighbor(NodeId::root(), s);
        g.ensure_neighbor(a, t)
    };
    let via_t = {
        let b = g.ensure_neighbor(NodeId::root(), t);
        g.ensure_neighbor(b, s)
    };
    assert_ne!(via_s, via_t);
}

#[test]
fn fresh_queue_collects_new_nodes_in_order() {
    let mut g = Graph::new(12);
    g.clear_fresh();
    let a = g.ensure_neighbor(NodeId::root(), Side::A);
    let b = g.ensure_neighbor(a, Side::C);
    let fresh = g.fresh();
    assert!(fresh.contains(&a));
    assert!(fresh.contains(&b));
    for w in fresh.windows(2) {
        assert!(w[0].index() < w[1].index());
    }
    g.clear_fresh();
    assert!(g.fresh().is_empty());
}

#[test]
fn corner_cells_deduplicate_across_orders() {
    // The three faces at a vertex are pairwise perpendicular, so the eight
    // cells around that vertex form a cube pattern: any order of the three
    // crossings reaches the same opposite cell.
    let mut g = Graph::new(12);
    let sides = hypervoxel::dodeca::Vertex::A.canonical_sides();
    let orders = [
        [sides[0], sides[1], sides[2]],
        [sides[0], sides[2], sides[1]],
        [sides[1], sides[0], sides[2]],
        [sides[1], sides[2], sides[0]],
        [sides[2], sides[0], sides[1]],
        [sides[2], sides[1], sides[0]],
    ];
    let mut reached = Vec::new();
    for order in orders {
        let mut node = NodeId::root();
        for side in order {
            node = g.ensure_neighbor(node, side);
        }
        reached.push(node);
    }
    for n in &reached {
        assert_eq!(*n, reached[0]);
    }
    assert_eq!(g.length(reached[0]), 3);
}
