//! Lazy, deduplicated graph of honeycomb cells.
//!
//! Cells ("nodes") are stored in an arena and addressed by [`NodeId`]. Each
//! node records its neighbor through each of the 12 [`Side`]s, the side
//! through which it was first discovered, and its distance from the root.
//! Neighbors are created on demand by [`Graph::ensure_neighbor`], which uses
//! the honeycomb's combinatorics to route different discovery paths of the
//! same cell to a single node: before a child is created, the children of all
//! strictly closer neighbors across sides adjacent to the crossed side are
//! created first and linked, because crossing two adjacent (perpendicular)
//! faces in either order reaches the same cell.
//!
//! Newly created nodes are queued as "fresh" so the owner can populate a whole
//! cohort once per simulation step.

use vstd::prelude::*;

use crate::dodeca::{side_index_spec, sides_adjacent, Side};
use crate::node::Node;

verus! {

/// Stable handle of one cell in the graph.
#[derive(Clone, Copy, Debug, PartialEq, Eq, Hash, Structural)]
pub struct NodeId(usize);

impl NodeId {
    /// The arena position this handle points at.
    pub closed spec fn idx(self) -> int {
        self.0 as int
    }

    /// The distinguished root cell's handle.
    pub fn root() -> (n: NodeId)
        ensures
            n.idx() == 0,
    {
        NodeId(0)
    }

    /// The arena position as a run-time value.
    pub fn index(self) -> (r: usize)
        ensures
            r == self.idx(),
    {
        self.0
    }
}

/// Two handles with the same arena position are the same handle.
pub proof fn lemma_node_id_injective(a: NodeId, b: NodeId)
    ensures
        (a == b) == (a.idx() == b.idx()),
{
}

struct NodeEntry {
    /// Neighbor through each side, indexed by `side_index_spec`.
    neighbors: Vec<Option<NodeId>>,
    /// Side through which this node was first discovered; `None` for the root.
    parent_side: Option<Side>,
    /// Graph distance from the root along the discovery tree.
    length: usize,
    /// Generation-derived payload; `None` until the node is populated.
    value: Option<Node>,
}

/// The cell graph: an arena of nodes plus the queue of nodes created since
/// the last [`Graph::clear_fresh`].
pub struct Graph {
    nodes: Vec<NodeEntry>,
    fresh: Vec<NodeId>,
    dimension: u8,
}

impl Graph {
    /// Number of nodes in the arena.
    pub closed spec fn len(&self) -> nat {
        self.nodes@.len()
    }

    /// Whether `n` is a handle this graph has given out.
    pub open spec fn contains(&self, n: NodeId) -> bool {
        0 <= n.idx() < self.len()
    }

    /// The neighbor of `n` through `s`, if it has been created.
    pub closed spec fn spec_neighbor(&self, n: NodeId, s: Side) -> Option<NodeId> {
        self.nodes@[n.idx()].neighbors@[side_index_spec(s)]
    }

    /// The side through which `n` was first discovered; `None` for the root.
    pub closed spec fn spec_parent(&self, n: NodeId) -> Option<Side> {
        self.nodes@[n.idx()].parent_side
    }

    /// Distance of `n` from the root along the discovery tree.
    pub closed spec fn spec_length(&self, n: NodeId) -> int {
        self.nodes@[n.idx()].length as int
    }

    /// The generation payload of `n`, if populated.
    pub closed spec fn node_value(&self, n: NodeId) -> Option<Node> {
        self.nodes@[n.idx()].value
    }

    /// Nodes created since the last `clear_fresh`, in creation order.
    pub closed spec fn spec_fresh(&self) -> Seq<NodeId> {
        self.fresh@
    }

    /// Number of voxels along one axis of every chunk of this graph.
    pub closed spec fn spec_dimension(&self) -> u8 {
        self.dimension
    }

    /// Structural well-formedness: all links are in-bounds and symmetric, the
    /// root is at distance 0, and every other node keeps a link to a node one
    /// step closer to the root through its discovery side.
    pub closed spec fn wf(&self) -> bool {
        &&& 1 <= self.nodes@.len()
        &&& forall|i: int|
            0 <= i < self.nodes@.len() ==> (#[trigger] self.nodes@[i].neighbors@).len() == 12
        &&& forall|i: int, j: int|
            0 <= i < self.nodes@.len() && 0 <= j < 12 && (#[trigger] self.nodes@[i].neighbors@[j])
                is Some ==> {
                let m = self.nodes@[i].neighbors@[j]->Some_0;
                &&& 0 <= m.idx() < self.nodes@.len()
                &&& m.idx() != i
                &&& self.nodes@[m.idx()].neighbors@[j] is Some
                &&& self.nodes@[m.idx()].neighbors@[j]->Some_0.idx() == i
            }
        &&& self.nodes@[0].parent_side is None
        &&& self.nodes@[0].length == 0
        &&& forall|i: int|
            1 <= i < self.nodes@.len() ==> (#[trigger] self.nodes@[i].parent_side) is Some
        &&& forall|i: int|
            1 <= i < self.nodes@.len() ==> {
                let ps = side_index_spec((#[trigger] self.nodes@[i].parent_side)->Some_0);
                &&& self.nodes@[i].length >= 1
                &&& self.nodes@[i].neighbors@[ps] is Some
                &&& self.nodes@[i].neighbors@[ps]->Some_0.idx() < i
                &&& self.nodes@[self.nodes@[i].neighbors@[ps]->Some_0.idx()].length + 1
                    == self.nodes@[i].length
            }
        &&& forall|i: int| 0 <= i < self.nodes@.len() ==> (#[trigger] self.nodes@[i].length) <= i
        &&& forall|k: int|
            0 <= k < self.fresh@.len() ==> 0 <= (#[trigger] self.fresh@[k]).idx()
                < self.nodes@.len()
        &&& forall|k1: int, k2: int|
            0 <= k1 < k2 < self.fresh@.len() ==> (#[trigger] self.fresh@[k1]).idx()
                < (#[trigger] self.fresh@[k2]).idx()
    }

    /// The node one step closer to the root through `n`'s discovery side was
    /// created before `n`, and fresh nodes are queued in creation order.
    pub proof fn lemma_discovery_order(&self, n: NodeId)
        requires
            self.wf(),
            self.contains(n),
            n.idx() >= 1,
        ensures
            self.spec_parent(n) is Some,
            self.spec_neighbor(n, self.spec_parent(n)->Some_0) is Some,
            self.spec_neighbor(n, self.spec_parent(n)->Some_0)->Some_0.idx() < n.idx(),
        {
    }

    /// Every queued fresh handle is valid.
    pub proof fn lemma_fresh_valid(&self, k: int)
        requires
            self.wf(),
            0 <= k < self.spec_fresh().len(),
        ensures
            self.contains(self.spec_fresh()[k]),
    {
    }

    /// The root node was not discovered through any side.
    pub proof fn lemma_root_parent(&self, n: NodeId)
        requires
            self.wf(),
            self.contains(n),
            n.idx() == 0,
        ensures
            self.spec_parent(n) is None,
    {
    }

    /// Fresh handles are strictly ordered by creation.
    pub proof fn lemma_fresh_sorted(&self, k1: int, k2: int)
        requires
            self.wf(),
            0 <= k1 < k2 < self.spec_fresh().len(),
        ensures
            self.spec_fresh()[k1].idx() < self.spec_fresh()[k2].idx(),
            self.contains(self.spec_fresh()[k1]),
            self.contains(self.spec_fresh()[k2]),
    {
    }

    /// `post` is `pre` grown in place: nothing existing is removed or
    /// rewritten, only new nodes, new links and new fresh entries appear, and
    /// population state is untouched.
    pub closed spec fn extends(post: &Graph, pre: &Graph) -> bool {
        &&& pre.nodes@.len() <= post.nodes@.len()
        &&& post.dimension == pre.dimension
        &&& forall|i: int|
            0 <= i < pre.nodes@.len() ==> (#[trigger] post.nodes@[i]).length == pre.nodes@[i].length
        &&& forall|i: int|
            0 <= i < pre.nodes@.len() ==> (#[trigger] post.nodes@[i]).parent_side
                == pre.nodes@[i].parent_side
        &&& forall|i: int|
            0 <= i < pre.nodes@.len() ==> (#[trigger] post.nodes@[i]).value == pre.nodes@[i].value
        &&& forall|i: int, j: int|
            0 <= i < pre.nodes@.len() && 0 <= j < 12 && (#[trigger] pre.nodes@[i].neighbors@[j])
                is Some ==> post.nodes@[i].neighbors@[j] == pre.nodes@[i].neighbors@[j]
        &&& pre.fresh@.len() <= post.fresh@.len()
        &&& forall|k: int|
            0 <= k < pre.fresh@.len() ==> (#[trigger] post.fresh@[k]) == pre.fresh@[k]
    }

    /// `post` and `pre` have identical structure (same nodes, links, lengths,
    /// discovery sides, fresh queue and dimension); only node payloads may
    /// differ.
    pub closed spec fn same_structure(post: &Graph, pre: &Graph) -> bool {
        &&& post.nodes@.len() == pre.nodes@.len()
        &&& post.dimension == pre.dimension
        &&& post.fresh@ == pre.fresh@
        &&& forall|i: int|
            0 <= i < pre.nodes@.len() ==> {
                &&& (#[trigger] post.nodes@[i]).neighbors == pre.nodes@[i].neighbors
                &&& post.nodes@[i].parent_side == pre.nodes@[i].parent_side
                &&& post.nodes@[i].length == pre.nodes@[i].length
            }
    }

    /// Rewriting node payloads cannot break the graph's well-formedness.
    pub proof fn lemma_wf_same_structure(pre: &Graph, post: &Graph)
        requires
            pre.wf(),
            Graph::same_structure(post, pre),
        ensures
            post.wf(),
    {
        assert forall|i: int| 0 <= i < post.nodes@.len() implies (
        #[trigger] post.nodes@[i].neighbors@).len() == 12 by {
            assert(pre.nodes@[i].neighbors@.len() == 12);
        }
        assert forall|i: int, j: int|
            0 <= i < post.nodes@.len() && 0 <= j < 12 && (
            #[trigger] post.nodes@[i].neighbors@[j]) is Some implies {
            let m = post.nodes@[i].neighbors@[j]->Some_0;
            &&& 0 <= m.idx() < post.nodes@.len()
            &&& m.idx() != i
            &&& post.nodes@[m.idx()].neighbors@[j] is Some
            &&& post.nodes@[m.idx()].neighbors@[j]->Some_0.idx() == i
        } by {
            assert(pre.nodes@[i].neighbors@[j] is Some);
            let m = pre.nodes@[i].neighbors@[j]->Some_0;
            assert(pre.nodes@[m.idx()].neighbors@[j] is Some);
        }
        assert forall|i: int| 1 <= i < post.nodes@.len() implies (
        #[trigger] post.nodes@[i].parent_side) is Some by {
            assert(pre.nodes@[i].parent_side is Some);
        }
        assert forall|i: int| 1 <= i < post.nodes@.len() implies {
            let ps = side_index_spec((#[trigger] post.nodes@[i].parent_side)->Some_0);
            &&& post.nodes@[i].length >= 1
            &&& post.nodes@[i].neighbors@[ps] is Some
            &&& post.nodes@[i].neighbors@[ps]->Some_0.idx() < i
            &&& post.nodes@[post.nodes@[i].neighbors@[ps]->Some_0.idx()].length + 1
                == post.nodes@[i].length
        } by {
            assert(pre.nodes@[i].parent_side is Some);
            let ps = side_index_spec(pre.nodes@[i].parent_side->Some_0);
            assert(pre.nodes@[i].neighbors@[ps] is Some);
            let p = pre.nodes@[i].neighbors@[ps]->Some_0;
            assert(0 <= p.idx() < pre.nodes@.len());
            assert(post.nodes@[p.idx()].length == pre.nodes@[p.idx()].length);
        }
        assert forall|i: int| 0 <= i < post.nodes@.len() implies (
        #[trigger] post.nodes@[i].length) <= i by {
            assert(pre.nodes@[i].length <= i);
        }
    }

    /// Growth is reflexive and composes.
    pub proof fn lemma_extends_trans(a: &Graph, b: &Graph, c: &Graph)
        requires
            Graph::extends(c, b),
            Graph::extends(b, a),
        ensures
            Graph::extends(c, a),
    {
    }

    /// A symmetric link's other end is a distinct valid node pointing back.
    pub proof fn lemma_neighbor_props(&self, n: NodeId, s: Side)
        requires
            self.wf(),
            self.contains(n),
            self.spec_neighbor(n, s) is Some,
        ensures
            self.contains(self.spec_neighbor(n, s)->Some_0),
            self.spec_neighbor(n, s)->Some_0.idx() != n.idx(),
            self.spec_neighbor(self.spec_neighbor(n, s)->Some_0, s) is Some,
            self.spec_neighbor(self.spec_neighbor(n, s)->Some_0, s)->Some_0.idx() == n.idx(),
    {
    }

    /// Creates a graph holding only the (still unpopulated, fresh) root node.
    pub fn new(dimension: u8) -> (g: Graph)
        requires
            dimension >= 1,
        ensures
            g.wf(),
            g.len() == 1,
            g.spec_dimension() == dimension,
            g.spec_fresh().len() == 1,
            g.spec_fresh()[0].idx() == 0,
            forall|n: NodeId| n.idx() == 0 ==> #[trigger] g.node_value(n) is None,
            forall|n: NodeId, s: Side|
                n.idx() == 0 ==> #[trigger] g.spec_neighbor(n, s) is None,
    {
        let mut neighbors: Vec<Option<NodeId>> = Vec::new();
        let mut i: usize = 0;
        while i < 12
            invariant
                i <= 12,
                neighbors@.len() == i,
                forall|j: int| 0 <= j < i ==> (#[trigger] neighbors@[j]) is None,
            decreases 12 - i,
        {
            neighbors.push(None);
            i = i + 1;
        }
        let root = NodeEntry { neighbors, parent_side: None, length: 0, value: None };
        let mut nodes: Vec<NodeEntry> = Vec::new();
        nodes.push(root);
        let mut fresh: Vec<NodeId> = Vec::new();
        fresh.push(NodeId(0));
        Graph { nodes, fresh, dimension }
    }

    /// Number of voxels along one axis of every chunk of this graph.
    pub fn dimension(&self) -> (r: u8)
        ensures
            r == self.spec_dimension(),
    {
        self.dimension
    }

    /// Number of nodes created so far.
    pub fn node_count(&self) -> (r: usize)
        ensures
            r == self.len(),
    {
        self.nodes.len()
    }

    /// Returns the neighbor of `node` through `side`, if it has been created.
    pub fn neighbor(&self, node: NodeId, side: Side) -> (r: Option<NodeId>)
        requires
            self.wf(),
            self.contains(node),
        ensures
            r == self.spec_neighbor(node, side),
            r is Some ==> self.contains(r->Some_0),
    {
        let r = self.nodes[node.0].neighbors[side.index()];
        proof {
            if r is Some {
                self.lemma_neighbor_props(node, side);
            }
        }
        r
    }

    /// The side through which `node` was first discovered; `None` for the root.
    pub fn parent(&self, node: NodeId) -> (r: Option<Side>)
        requires
            self.wf(),
            self.contains(node),
        ensures
            r == self.spec_parent(node),
    {
        self.nodes[node.0].parent_side
    }

    /// Distance of `node` from the root along the discovery tree.
    pub fn length(&self, node: NodeId) -> (r: usize)
        requires
            self.wf(),
            self.contains(node),
        ensures
            r == self.spec_length(node),
    {
        self.nodes[node.0].length
    }

    /// The generation payload of `node`.
    pub fn get(&self, node: NodeId) -> (r: &Option<Node>)
        requires
            self.wf(),
            self.contains(node),
        ensures
            *r == self.node_value(node),
    {
        &self.nodes[node.0].value
    }

    /// Mutable access to the generation payload of `node`. The graph's
    /// structure (links, lengths, fresh queue) is untouched; only the payload
    /// of `node` follows whatever the caller writes through the reference.
    pub fn get_mut(&mut self, node: NodeId) -> (r: &mut Option<Node>)
        requires
            old(self).wf(),
            old(self).contains(node),
        ensures
            *r == old(self).node_value(node),
            Graph::same_structure(final(self), old(self)),
            final(self).len() == old(self).len(),
            final(self).spec_dimension() == old(self).spec_dimension(),
            final(self).spec_fresh() == old(self).spec_fresh(),
            forall|m: NodeId, s: Side|
                old(self).contains(m) ==> #[trigger] final(self).spec_neighbor(m, s)
                    == old(self).spec_neighbor(m, s),
            forall|m: NodeId|
                old(self).contains(m) ==> #[trigger] final(self).spec_parent(m)
                    == old(self).spec_parent(m),
            forall|m: NodeId|
                old(self).contains(m) ==> #[trigger] final(self).spec_length(m)
                    == old(self).spec_length(m),
            forall|m: NodeId|
                old(self).contains(m) && m.idx() != node.idx()
                    ==> #[trigger] final(self).node_value(m) == old(self).node_value(m),
            final(self).node_value(node) == *final(r),
    {
        &mut self.nodes[node.0].value
    }

    /// Handles of all nodes created since the last `clear_fresh`.
    pub fn fresh(&self) -> (r: Vec<NodeId>)
        ensures
            r@ == self.spec_fresh(),
    {
        let mut out: Vec<NodeId> = Vec::new();
        let mut i: usize = 0;
        while i < self.fresh.len()
            invariant
                i <= self.fresh@.len(),
                out@ == self.fresh@.subrange(0, i as int),
            decreases self.fresh@.len() - i,
        {
            out.push(self.fresh[i]);
            i = i + 1;
        }
        proof {
            assert(out@ == self.fresh@);
        }
        out
    }

    /// Installs the two halves of one symmetric link: afterwards `a` and `b`
    /// are each other's neighbor through `side`. Both slots must be free.
    #[verifier::rlimit(100)]
    #[verifier::spinoff_prover]
    fn link(&mut self, a: NodeId, b: NodeId, side: Side)
        requires
            old(self).wf(),
            old(self).contains(a),
            old(self).contains(b),
            a.idx() != b.idx(),
            old(self).spec_neighbor(a, side) is None,
            old(self).spec_neighbor(b, side) is None,
        ensures
            final(self).wf(),
            Graph::extends(final(self), old(self)),
            final(self).len() == old(self).len(),
            final(self).spec_fresh() == old(self).spec_fresh(),
            final(self).spec_neighbor(a, side) == Some(b),
            final(self).spec_neighbor(b, side) == Some(a),
            forall|m: NodeId, s: Side|
                old(self).contains(m) && !(m.idx() == a.idx() && s == side) && !(m.idx() == b.idx()
                    && s == side) ==> #[trigger] final(self).spec_neighbor(m, s)
                    == old(self).spec_neighbor(m, s),
            forall|m: NodeId|
                old(self).contains(m) ==> #[trigger] final(self).node_value(m)
                    == old(self).node_value(m),
    {
        let ai = a.index();
        let bi = b.index();
        let si = side.index();
        self.nodes[ai].neighbors[si] = Some(b);
        self.nodes[bi].neighbors[si] = Some(a);
        proof {
            let pre = old(self);
            let sidx = side_index_spec(side);
            assert forall|i: int, j: int|
                0 <= i < self.nodes@.len() && 0 <= j < 12 && (
                #[trigger] self.nodes@[i].neighbors@[j]) is Some implies {
                let m = self.nodes@[i].neighbors@[j]->Some_0;
                &&& 0 <= m.idx() < self.nodes@.len()
                &&& m.idx() != i
                &&& self.nodes@[m.idx()].neighbors@[j] is Some
                &&& self.nodes@[m.idx()].neighbors@[j]->Some_0.idx() == i
            } by {
                if i == a.idx() && j == sidx {
                } else if i == b.idx() && j == sidx {
                } else {
                    assert(self.nodes@[i].neighbors@[j] == pre.nodes@[i].neighbors@[j]);
                    let m = pre.nodes@[i].neighbors@[j]->Some_0;
                    assert(pre.nodes@[m.idx()].neighbors@[j] is Some);
                    // The other end cannot be one of the two slots just
                    // written: those were empty, so nothing pointed at them.
                    if m.idx() == a.idx() && j == sidx {
                        assert(pre.nodes@[a.idx()].neighbors@[sidx] is Some);
                        assert(false);
                    }
                    if m.idx() == b.idx() && j == sidx {
                        assert(pre.nodes@[b.idx()].neighbors@[sidx] is Some);
                        assert(false);
                    }
                }
            }
            assert forall|i: int| 1 <= i < self.nodes@.len() implies {
                let ps = side_index_spec((#[trigger] self.nodes@[i].parent_side)->Some_0);
                &&& self.nodes@[i].length >= 1
                &&& self.nodes@[i].neighbors@[ps] is Some
                &&& self.nodes@[i].neighbors@[ps]->Some_0.idx() < i
                &&& self.nodes@[self.nodes@[i].neighbors@[ps]->Some_0.idx()].length + 1
                    == self.nodes@[i].length
            } by {
                assert(pre.nodes@[i].parent_side is Some);
                let ps = side_index_spec(pre.nodes@[i].parent_side->Some_0);
                assert(pre.nodes@[i].neighbors@[ps] is Some);
                assert(self.nodes@[i].neighbors@[ps] == pre.nodes@[i].neighbors@[ps]);
            }
            assert(self.wf());
        }
    }

    /// Appends a brand-new child of `parent` across `side`: linked to its
    /// parent, one step longer, fresh, and not yet populated.
    #[verifier::rlimit(100)]
    #[verifier::spinoff_prover]
    fn push_child(&mut self, parent: NodeId, side: Side) -> (child: NodeId)
        requires
            old(self).wf(),
            old(self).contains(parent),
            old(self).spec_neighbor(parent, side) is None,
        ensures
            final(self).wf(),
            Graph::extends(final(self), old(self)),
            final(self).len() == old(self).len() + 1,
            child.idx() == old(self).len(),
            final(self).contains(child),
            final(self).spec_neighbor(parent, side) == Some(child),
            final(self).spec_neighbor(child, side) == Some(parent),
            forall|s: Side|
                s != side ==> #[trigger] final(self).spec_neighbor(child, s) is None,
            final(self).spec_parent(child) == Some(side),
            final(self).spec_length(child) == old(self).spec_length(parent) + 1,
            final(self).node_value(child) is None,
            final(self).spec_fresh() == old(self).spec_fresh().push(child),
            forall|m: NodeId, s: Side|
                old(self).contains(m) && !(m.idx() == parent.idx() && s == side)
                    ==> #[trigger] final(self).spec_neighbor(m, s) == old(self).spec_neighbor(m, s),
            forall|m: NodeId|
                old(self).contains(m) ==> #[trigger] final(self).node_value(m)
                    == old(self).node_value(m),
    {
        let idx = self.nodes.len();
        let child = NodeId(idx);
        let si = side.index();
        let mut neighbors: Vec<Option<NodeId>> = Vec::new();
        let mut i: usize = 0;
        while i < 12
            invariant
                i <= 12,
                neighbors@.len() == i,
                forall|j: int| 0 <= j < i ==> (#[trigger] neighbors@[j]) is None,
            decreases 12 - i,
        {
            neighbors.push(None);
            i = i + 1;
        }
        neighbors[si] = Some(parent);
        let length = self.nodes[parent.index()].length + 1;
        self.nodes.push(NodeEntry { neighbors, parent_side: Some(side), length, value: None });
        self.nodes[parent.index()].neighbors[si] = Some(child);
        self.fresh.push(child);
        proof {
            let pre = old(self);
            let sidx = side_index_spec(side);
            let ci = child.idx();
            assert forall|i: int, j: int|
                0 <= i < self.nodes@.len() && 0 <= j < 12 && (
                #[trigger] self.nodes@[i].neighbors@[j]) is Some implies {
                let m = self.nodes@[i].neighbors@[j]->Some_0;
                &&& 0 <= m.idx() < self.nodes@.len()
                &&& m.idx() != i
                &&& self.nodes@[m.idx()].neighbors@[j] is Some
                &&& self.nodes@[m.idx()].neighbors@[j]->Some_0.idx() == i
            } by {
                if i == ci {
                    assert(j == sidx);
                } else if i == parent.idx() && j == sidx {
                } else {
                    assert(self.nodes@[i].neighbors@[j] == pre.nodes@[i].neighbors@[j]);
                    let m = pre.nodes@[i].neighbors@[j]->Some_0;
                    assert(pre.nodes@[m.idx()].neighbors@[j] is Some);
                    if m.idx() == parent.idx() && j == sidx {
                        assert(pre.nodes@[parent.idx()].neighbors@[sidx] is Some);
                        assert(false);
                    }
                }
            }
            assert forall|i: int| 1 <= i < self.nodes@.len() implies {
                let ps = side_index_spec((#[trigger] self.nodes@[i].parent_side)->Some_0);
                &&& self.nodes@[i].length >= 1
                &&& self.nodes@[i].neighbors@[ps] is Some
                &&& self.nodes@[i].neighbors@[ps]->Some_0.idx() < i
                &&& self.nodes@[self.nodes@[i].neighbors@[ps]->Some_0.idx()].length + 1
                    == self.nodes@[i].length
            } by {
                if i == ci {
                } else {
                    assert(pre.nodes@[i].parent_side is Some);
                    let ps = side_index_spec(pre.nodes@[i].parent_side->Some_0);
                    assert(pre.nodes@[i].neighbors@[ps] is Some);
                    assert(self.nodes@[i].neighbors@[ps] == pre.nodes@[i].neighbors@[ps]);
                }
            }
            assert(self.wf());
        }
        child
    }

    /// Returns the neighbor of `node` through `side`, creating it (and, to
    /// keep one cell one node, the children of all strictly closer neighbors
    /// across sides perpendicular to `side`) if it does not exist yet.
    pub fn ensure_neighbor(&mut self, node: NodeId, side: Side) -> (r: NodeId)
        requires
            old(self).wf(),
            old(self).contains(node),
        ensures
            final(self).wf(),
            Graph::extends(final(self), old(self)),
            final(self).contains(r),
            final(self).spec_neighbor(node, side) == Some(r),
        decreases old(self).spec_length(node), 1int,
    {
        match self.neighbor(node, side) {
            Some(existing) => existing,
            None => self.insert_child(node, side),
        }
    }

    /// Creates the child of `node` across `side`, wiring it to every already
    /// existing neighbor cell first; returns the existing node instead if the
    /// wiring of closer cells turns out to have created it already.
    #[verifier::loop_isolation(false)]
    fn insert_child(&mut self, node: NodeId, side: Side) -> (r: NodeId)
        requires
            old(self).wf(),
            old(self).contains(node),
        ensures
            final(self).wf(),
            Graph::extends(final(self), old(self)),
            final(self).contains(r),
            final(self).spec_neighbor(node, side) == Some(r),
        decreases old(self).spec_length(node), 0int,
    {
        let ghost pre = *old(self);
        let node_length = self.length(node);
        // The child of `node` across `side` also borders the child of every
        // strictly closer neighbor of `node` across a side perpendicular to
        // `side`: crossing two perpendicular faces commutes. Create those
        // children first so the new cell links to all of them.
        let mut links: Vec<(usize, NodeId)> = Vec::new();
        let mut i: usize = 0;
        while i < 12
            invariant
                i <= 12,
                self.wf(),
                self.contains(node),
                Graph::extends(self, &pre),
                self.spec_length(node) == pre.spec_length(node),
                node_length == pre.spec_length(node),
                forall|k: int|
                    0 <= k < links@.len() ==> (#[trigger] links@[k]).0 < 12,
                forall|k: int|
                    0 <= k < links@.len() ==> self.contains((#[trigger] links@[k]).1),
            decreases 12 - i,
        {
            let t = Side::from_index(i);
            if !(t == side) && t.adjacent_to(side) {
                match self.neighbor(node, t) {
                    Some(n) => {
                        if self.length(n) < node_length {
                            let ghost before = *self;
                            let d = self.ensure_neighbor(n, side);
                            links.push((i, d));
                            proof {
                                Graph::lemma_extends_trans(&pre, &before, self);
                            }
                        }
                    },
                    None => {},
                }
            }
            i = i + 1;
        }
        // The wiring above may itself have created (an alias of) the child;
        // in that case hand it back instead of creating a duplicate.
        match self.neighbor(node, side) {
            Some(existing) => existing,
            None => {
                let ghost mid = *self;
                let child = self.push_child(node, side);
                proof {
                    Graph::lemma_extends_trans(&pre, &mid, self);
                }
                let mut k: usize = 0;
                while k < links.len()
                    invariant
                        k <= links@.len(),
                        self.wf(),
                        self.contains(node),
                        self.contains(child),
                        Graph::extends(self, &pre),
                        self.spec_neighbor(node, side) == Some(child),
                        forall|k2: int|
                            0 <= k2 < links@.len() ==> (#[trigger] links@[k2]).0 < 12,
                        forall|k2: int|
                            0 <= k2 < links@.len() ==> self.contains((#[trigger] links@[k2]).1),
                    decreases links@.len() - k,
                {
                    let (ti, d) = links[k];
                    let t = Side::from_index(ti);
                    let ghost before = *self;
                    if d.index() != child.index() && self.neighbor(d, t).is_none()
                        && self.neighbor(child, t).is_none() {
                        self.link(child, d, t);
                        proof {
                            Graph::lemma_extends_trans(&pre, &before, self);
                        }
                    }
                    k = k + 1;
                }
                child
            },
        }
    }

    /// Empties the fresh queue; everything else is untouched.
    pub fn clear_fresh(&mut self)
        requires
            old(self).wf(),
        ensures
            final(self).wf(),
            final(self).spec_fresh().len() == 0,
            final(self).len() == old(self).len(),
            final(self).spec_dimension() == old(self).spec_dimension(),
            forall|m: NodeId, s: Side| #[trigger]
                final(self).spec_neighbor(m, s) == old(self).spec_neighbor(m, s),
            forall|m: NodeId| #[trigger] final(self).spec_parent(m) == old(self).spec_parent(m),
            forall|m: NodeId| #[trigger] final(self).spec_length(m) == old(self).spec_length(m),
            forall|m: NodeId| #[trigger] final(self).node_value(m) == old(self).node_value(m),
    {
        self.fresh.clear();
    }
}

} // verus!
