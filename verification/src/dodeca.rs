//! Combinatorics of the right-angled dodecahedral honeycomb.
//!
//! A cell of the honeycomb is a right dodecahedron: 12 faces ([`Side`]) and 20
//! corners ([`Vertex`]). Two sides are *adjacent* when their faces share an
//! edge; because the honeycomb is right-angled, the reflections of adjacent
//! sides commute, which is what the cell graph's canonicalization relies on.
//! Each vertex is the meeting point of exactly three mutually adjacent sides,
//! listed in a fixed canonical order that also fixes the axis order of the
//! chunk owned by that vertex.
//!
//! The tables here use a fixed labelling: side `A` is one face, sides `B`-`F`
//! form the ring of its neighbors, sides `G`-`K` the opposite ring, and `L`
//! the face opposite `A`.

use vstd::prelude::*;

verus! {

/// One of the 12 faces through which a cell can be entered or exited.
#[derive(Clone, Copy, Debug, PartialEq, Eq, Hash, Structural)]
pub enum Side {
    A,
    B,
    C,
    D,
    E,
    F,
    G,
    H,
    I,
    J,
    K,
    L,
}

/// One of the 20 corners of a cell; each owns one voxel chunk.
#[derive(Clone, Copy, Debug, PartialEq, Eq, Hash, Structural)]
pub enum Vertex {
    A,
    B,
    C,
    D,
    E,
    F,
    G,
    H,
    I,
    J,
    K,
    L,
    M,
    N,
    O,
    P,
    Q,
    R,
    S,
    T,
}

/// Number of sides of a cell.
pub const SIDE_COUNT: usize = 12;

/// Number of vertices (and hence chunks) of a cell.
pub const VERTEX_COUNT: usize = 20;

/// Position of a side in the fixed `A`..`L` order.
pub open spec fn side_index_spec(s: Side) -> int {
    match s {
        Side::A => 0,
        Side::B => 1,
        Side::C => 2,
        Side::D => 3,
        Side::E => 4,
        Side::F => 5,
        Side::G => 6,
        Side::H => 7,
        Side::I => 8,
        Side::J => 9,
        Side::K => 10,
        Side::L => 11,
    }
}

/// Position of a vertex in the fixed `A`..`T` order.
pub open spec fn vertex_index_spec(v: Vertex) -> int {
    match v {
        Vertex::A => 0,
        Vertex::B => 1,
        Vertex::C => 2,
        Vertex::D => 3,
        Vertex::E => 4,
        Vertex::F => 5,
        Vertex::G => 6,
        Vertex::H => 7,
        Vertex::I => 8,
        Vertex::J => 9,
        Vertex::K => 10,
        Vertex::L => 11,
        Vertex::M => 12,
        Vertex::N => 13,
        Vertex::O => 14,
        Vertex::P => 15,
        Vertex::Q => 16,
        Vertex::R => 17,
        Vertex::S => 18,
        Vertex::T => 19,
    }
}

/// Whether the faces of two sides share an edge of the dodecahedron.
pub open spec fn sides_adjacent(a: Side, b: Side) -> bool {
    match a {
        Side::A => b == Side::B || b == Side::C || b == Side::D || b == Side::E || b == Side::F,
        Side::B => b == Side::A || b == Side::C || b == Side::F || b == Side::G || b == Side::H,
        Side::C => b == Side::A || b == Side::B || b == Side::D || b == Side::H || b == Side::I,
        Side::D => b == Side::A || b == Side::C || b == Side::E || b == Side::I || b == Side::J,
        Side::E => b == Side::A || b == Side::D || b == Side::F || b == Side::J || b == Side::K,
        Side::F => b == Side::A || b == Side::B || b == Side::E || b == Side::G || b == Side::K,
        Side::G => b == Side::B || b == Side::F || b == Side::H || b == Side::K || b == Side::L,
        Side::H => b == Side::B || b == Side::C || b == Side::G || b == Side::I || b == Side::L,
        Side::I => b == Side::C || b == Side::D || b == Side::H || b == Side::J || b == Side::L,
        Side::J => b == Side::D || b == Side::E || b == Side::I || b == Side::K || b == Side::L,
        Side::K => b == Side::E || b == Side::F || b == Side::G || b == Side::J || b == Side::L,
        Side::L => b == Side::G || b == Side::H || b == Side::I || b == Side::J || b == Side::K,
    }
}

/// The three sides meeting at a vertex, in canonical (axis) order.
pub open spec fn canonical_sides_spec(v: Vertex) -> Seq<Side> {
    match v {
        Vertex::A => seq![Side::A, Side::B, Side::C],
        Vertex::B => seq![Side::A, Side::C, Side::D],
        Vertex::C => seq![Side::A, Side::D, Side::E],
        Vertex::D => seq![Side::A, Side::E, Side::F],
        Vertex::E => seq![Side::A, Side::F, Side::B],
        Vertex::F => seq![Side::B, Side::C, Side::H],
        Vertex::G => seq![Side::C, Side::D, Side::I],
        Vertex::H => seq![Side::D, Side::E, Side::J],
        Vertex::I => seq![Side::E, Side::F, Side::K],
        Vertex::J => seq![Side::F, Side::B, Side::G],
        Vertex::K => seq![Side::B, Side::G, Side::H],
        Vertex::L => seq![Side::C, Side::H, Side::I],
        Vertex::M => seq![Side::D, Side::I, Side::J],
        Vertex::N => seq![Side::E, Side::J, Side::K],
        Vertex::O => seq![Side::F, Side::K, Side::G],
        Vertex::P => seq![Side::L, Side::G, Side::H],
        Vertex::Q => seq![Side::L, Side::H, Side::I],
        Vertex::R => seq![Side::L, Side::I, Side::J],
        Vertex::S => seq![Side::L, Side::J, Side::K],
        Vertex::T => seq![Side::L, Side::K, Side::G],
    }
}

/// For each axis, the vertex across the chunk face opposite that axis: it
/// shares the other two canonical sides and drops the axis's own side.
pub open spec fn adjacent_vertices_spec(v: Vertex) -> Seq<Vertex> {
    match v {
        Vertex::A => seq![Vertex::F, Vertex::B, Vertex::E],
        Vertex::B => seq![Vertex::G, Vertex::C, Vertex::A],
        Vertex::C => seq![Vertex::H, Vertex::D, Vertex::B],
        Vertex::D => seq![Vertex::I, Vertex::E, Vertex::C],
        Vertex::E => seq![Vertex::J, Vertex::A, Vertex::D],
        Vertex::F => seq![Vertex::L, Vertex::K, Vertex::A],
        Vertex::G => seq![Vertex::M, Vertex::L, Vertex::B],
        Vertex::H => seq![Vertex::N, Vertex::M, Vertex::C],
        Vertex::I => seq![Vertex::O, Vertex::N, Vertex::D],
        Vertex::J => seq![Vertex::K, Vertex::O, Vertex::E],
        Vertex::K => seq![Vertex::P, Vertex::F, Vertex::J],
        Vertex::L => seq![Vertex::Q, Vertex::G, Vertex::F],
        Vertex::M => seq![Vertex::R, Vertex::H, Vertex::G],
        Vertex::N => seq![Vertex::S, Vertex::I, Vertex::H],
        Vertex::O => seq![Vertex::T, Vertex::J, Vertex::I],
        Vertex::P => seq![Vertex::K, Vertex::Q, Vertex::T],
        Vertex::Q => seq![Vertex::L, Vertex::R, Vertex::P],
        Vertex::R => seq![Vertex::M, Vertex::S, Vertex::Q],
        Vertex::S => seq![Vertex::N, Vertex::T, Vertex::R],
        Vertex::T => seq![Vertex::O, Vertex::P, Vertex::S],
    }
}

impl Side {
    /// Position of this side in the fixed `A`..`L` order.
    pub fn index(self) -> (r: usize)
        ensures
            r == side_index_spec(self),
    {
        match self {
            Side::A => 0,
            Side::B => 1,
            Side::C => 2,
            Side::D => 3,
            Side::E => 4,
            Side::F => 5,
            Side::G => 6,
            Side::H => 7,
            Side::I => 8,
            Side::J => 9,
            Side::K => 10,
            Side::L => 11,
        }
    }

    /// The side at the given position of the fixed `A`..`L` order.
    pub fn from_index(i: usize) -> (r: Side)
        requires
            i < 12,
        ensures
            side_index_spec(r) == i,
    {
        match i {
            0 => Side::A,
            1 => Side::B,
            2 => Side::C,
            3 => Side::D,
            4 => Side::E,
            5 => Side::F,
            6 => Side::G,
            7 => Side::H,
            8 => Side::I,
            9 => Side::J,
            10 => Side::K,
            _ => Side::L,
        }
    }

    /// All 12 sides in canonical order.
    pub fn iter() -> (r: Vec<Side>)
        ensures
            r@.len() == 12,
            forall|i: int| 0 <= i < 12 ==> side_index_spec(#[trigger] r@[i]) == i,
    {
        let mut v: Vec<Side> = Vec::new();
        v.push(Side::A);
        v.push(Side::B);
        v.push(Side::C);
        v.push(Side::D);
        v.push(Side::E);
        v.push(Side::F);
        v.push(Side::G);
        v.push(Side::H);
        v.push(Side::I);
        v.push(Side::J);
        v.push(Side::K);
        v.push(Side::L);
        v
    }

    /// Whether this side's face shares an edge with `other`'s.
    pub fn adjacent_to(self, other: Side) -> (r: bool)
        ensures
            r == sides_adjacent(self, other),
    {
        let i = self.index();
        let j = other.index();
        adjacency_row(i)[j]
    }
}

impl Vertex {
    /// Position of this vertex in the fixed `A`..`T` order.
    pub fn index(self) -> (r: usize)
        ensures
            r == vertex_index_spec(self),
    {
        match self {
            Vertex::A => 0,
            Vertex::B => 1,
            Vertex::C => 2,
            Vertex::D => 3,
            Vertex::E => 4,
            Vertex::F => 5,
            Vertex::G => 6,
            Vertex::H => 7,
            Vertex::I => 8,
            Vertex::J => 9,
            Vertex::K => 10,
            Vertex::L => 11,
            Vertex::M => 12,
            Vertex::N => 13,
            Vertex::O => 14,
            Vertex::P => 15,
            Vertex::Q => 16,
            Vertex::R => 17,
            Vertex::S => 18,
            Vertex::T => 19,
        }
    }

    /// All 20 vertices in canonical order.
    pub fn iter() -> (r: Vec<Vertex>)
        ensures
            r@.len() == 20,
            forall|i: int| 0 <= i < 20 ==> vertex_index_spec(#[trigger] r@[i]) == i,
    {
        let mut v: Vec<Vertex> = Vec::new();
        v.push(Vertex::A);
        v.push(Vertex::B);
        v.push(Vertex::C);
        v.push(Vertex::D);
        v.push(Vertex::E);
        v.push(Vertex::F);
        v.push(Vertex::G);
        v.push(Vertex::H);
        v.push(Vertex::I);
        v.push(Vertex::J);
        v.push(Vertex::K);
        v.push(Vertex::L);
        v.push(Vertex::M);
        v.push(Vertex::N);
        v.push(Vertex::O);
        v.push(Vertex::P);
        v.push(Vertex::Q);
        v.push(Vertex::R);
        v.push(Vertex::S);
        v.push(Vertex::T);
        v
    }

    /// The three sides meeting at this vertex, in canonical (axis) order.
    pub fn canonical_sides(self) -> (r: [Side; 3])
        ensures
            r@ == canonical_sides_spec(self),
    {
        match self {
            Vertex::A => [Side::A, Side::B, Side::C],
            Vertex::B => [Side::A, Side::C, Side::D],
            Vertex::C => [Side::A, Side::D, Side::E],
            Vertex::D => [Side::A, Side::E, Side::F],
            Vertex::E => [Side::A, Side::F, Side::B],
            Vertex::F => [Side::B, Side::C, Side::H],
            Vertex::G => [Side::C, Side::D, Side::I],
            Vertex::H => [Side::D, Side::E, Side::J],
            Vertex::I => [Side::E, Side::F, Side::K],
            Vertex::J => [Side::F, Side::B, Side::G],
            Vertex::K => [Side::B, Side::G, Side::H],
            Vertex::L => [Side::C, Side::H, Side::I],
            Vertex::M => [Side::D, Side::I, Side::J],
            Vertex::N => [Side::E, Side::J, Side::K],
            Vertex::O => [Side::F, Side::K, Side::G],
            Vertex::P => [Side::L, Side::G, Side::H],
            Vertex::Q => [Side::L, Side::H, Side::I],
            Vertex::R => [Side::L, Side::I, Side::J],
            Vertex::S => [Side::L, Side::J, Side::K],
            Vertex::T => [Side::L, Side::K, Side::G],
        }
    }

    /// For each axis, the vertex whose chunk lies across that axis's face of
    /// this vertex's chunk, within the same cell.
    pub fn adjacent_vertices(self) -> (r: [Vertex; 3])
        ensures
            r@ == adjacent_vertices_spec(self),
    {
        match self {
            Vertex::A => [Vertex::F, Vertex::B, Vertex::E],
            Vertex::B => [Vertex::G, Vertex::C, Vertex::A],
            Vertex::C => [Vertex::H, Vertex::D, Vertex::B],
            Vertex::D => [Vertex::I, Vertex::E, Vertex::C],
            Vertex::E => [Vertex::J, Vertex::A, Vertex::D],
            Vertex::F => [Vertex::L, Vertex::K, Vertex::A],
            Vertex::G => [Vertex::M, Vertex::L, Vertex::B],
            Vertex::H => [Vertex::N, Vertex::M, Vertex::C],
            Vertex::I => [Vertex::O, Vertex::N, Vertex::D],
            Vertex::J => [Vertex::K, Vertex::O, Vertex::E],
            Vertex::K => [Vertex::P, Vertex::F, Vertex::J],
            Vertex::L => [Vertex::Q, Vertex::G, Vertex::F],
            Vertex::M => [Vertex::R, Vertex::H, Vertex::G],
            Vertex::N => [Vertex::S, Vertex::I, Vertex::H],
            Vertex::O => [Vertex::T, Vertex::J, Vertex::I],
            Vertex::P => [Vertex::K, Vertex::Q, Vertex::T],
            Vertex::Q => [Vertex::L, Vertex::R, Vertex::P],
            Vertex::R => [Vertex::M, Vertex::S, Vertex::Q],
            Vertex::S => [Vertex::N, Vertex::T, Vertex::R],
            Vertex::T => [Vertex::O, Vertex::P, Vertex::S],
        }
    }
}

/// Row of the side-adjacency matrix for the side with the given index.
fn adjacency_row(i: usize) -> (r: [bool; 12])
    requires
        i < 12,
    ensures
        forall|j: int|
            0 <= j < 12 ==> r@[j] == sides_adjacent(
                side_of_index(i as int),
                side_of_index(j),
            ),
{
    let side = Side::from_index(i);
    let mut row = [false; 12];
    let mut j: usize = 0;
    while j < 12
        invariant
            j <= 12,
            side_index_spec(side) == i < 12,
            row@.len() == 12,
            forall|k: int|
                0 <= k < j ==> row@[k] == sides_adjacent(side_of_index(i as int), side_of_index(k)),
        decreases 12 - j,
    {
        let other = Side::from_index(j);
        row[j] = side_adjacency_entry(side, other);
        proof {
            lemma_side_of_index(side);
            lemma_side_of_index(other);
        }
        j = j + 1;
    }
    row
}

/// The side whose index is `i` (unspecified outside `0..12`).
pub open spec fn side_of_index(i: int) -> Side {
    if i == 0 {
        Side::A
    } else if i == 1 {
        Side::B
    } else if i == 2 {
        Side::C
    } else if i == 3 {
        Side::D
    } else if i == 4 {
        Side::E
    } else if i == 5 {
        Side::F
    } else if i == 6 {
        Side::G
    } else if i == 7 {
        Side::H
    } else if i == 8 {
        Side::I
    } else if i == 9 {
        Side::J
    } else if i == 10 {
        Side::K
    } else {
        Side::L
    }
}

/// `side_of_index` inverts `side_index_spec`.
pub proof fn lemma_side_of_index(s: Side)
    ensures
        side_of_index(side_index_spec(s)) == s,
{
}

/// Direct lookup of the adjacency table for one pair of sides.
fn side_adjacency_entry(a: Side, b: Side) -> (r: bool)
    ensures
        r == sides_adjacent(a, b),
{
    match a {
        Side::A => matches!(b, Side::B | Side::C | Side::D | Side::E | Side::F),
        Side::B => matches!(b, Side::A | Side::C | Side::F | Side::G | Side::H),
        Side::C => matches!(b, Side::A | Side::B | Side::D | Side::H | Side::I),
        Side::D => matches!(b, Side::A | Side::C | Side::E | Side::I | Side::J),
        Side::E => matches!(b, Side::A | Side::D | Side::F | Side::J | Side::K),
        Side::F => matches!(b, Side::A | Side::B | Side::E | Side::G | Side::K),
        Side::G => matches!(b, Side::B | Side::F | Side::H | Side::K | Side::L),
        Side::H => matches!(b, Side::B | Side::C | Side::G | Side::I | Side::L),
        Side::I => matches!(b, Side::C | Side::D | Side::H | Side::J | Side::L),
        Side::J => matches!(b, Side::D | Side::E | Side::I | Side::K | Side::L),
        Side::K => matches!(b, Side::E | Side::F | Side::G | Side::J | Side::L),
        Side::L => matches!(b, Side::G | Side::H | Side::I | Side::J | Side::K),
    }
}

/// No vertex is its own neighbor across a chunk face.
pub proof fn lemma_adjacent_vertices_distinct(v: Vertex, k: int)
    requires
        0 <= k < 3,
    ensures
        adjacent_vertices_spec(v)[k] != v,
{
}

/// Side adjacency is symmetric and no side is adjacent to itself.
pub proof fn lemma_sides_adjacent_symmetric(a: Side, b: Side)
    ensures
        sides_adjacent(a, b) == sides_adjacent(b, a),
        !sides_adjacent(a, a),
{
}

/// The three sides meeting at any vertex are pairwise adjacent and distinct.
pub proof fn lemma_vertex_sides_mutually_adjacent(v: Vertex)
    ensures
        forall|i: int, j: int|
            0 <= i < 3 && 0 <= j < 3 && i != j ==> sides_adjacent(
                #[trigger] canonical_sides_spec(v)[i],
                #[trigger] canonical_sides_spec(v)[j],
            ),
{
    assert(forall|i: int, j: int|
        0 <= i < 3 && 0 <= j < 3 && i != j ==> sides_adjacent(
            #[trigger] canonical_sides_spec(v)[i],
            #[trigger] canonical_sides_spec(v)[j],
        )) by {
        lemma_sides_adjacent_symmetric(canonical_sides_spec(v)[0], canonical_sides_spec(v)[1]);
        lemma_sides_adjacent_symmetric(canonical_sides_spec(v)[0], canonical_sides_spec(v)[2]);
        lemma_sides_adjacent_symmetric(canonical_sides_spec(v)[1], canonical_sides_spec(v)[2]);
    }
}

/// The vertex across axis `k` keeps the two canonical sides of the other axes
/// and drops the side of axis `k` itself.
pub proof fn lemma_adjacent_vertex_shares_sides(v: Vertex, k: int)
    requires
        0 <= k < 3,
    ensures
        forall|j: int|
            0 <= j < 3 && j != k ==> canonical_sides_spec(adjacent_vertices_spec(v)[k]).contains(
                #[trigger] canonical_sides_spec(v)[j],
            ),
        !canonical_sides_spec(adjacent_vertices_spec(v)[k]).contains(canonical_sides_spec(v)[k]),
{
    let w = adjacent_vertices_spec(v)[k];
    assert(forall|j: int|
        0 <= j < 3 && j != k ==> canonical_sides_spec(w).contains(
            #[trigger] canonical_sides_spec(v)[j],
        )) by {
        assert forall|j: int| 0 <= j < 3 && j != k implies canonical_sides_spec(w).contains(
            #[trigger] canonical_sides_spec(v)[j],
        ) by {
            let s = canonical_sides_spec(v)[j];
            let ws = canonical_sides_spec(w);
            assert(ws[0] == s || ws[1] == s || ws[2] == s);
            if ws[0] == s {
                assert(ws.contains(s));
            } else if ws[1] == s {
                assert(ws.contains(s));
            } else {
                assert(ws.contains(s));
            }
        }
    }
    let s = canonical_sides_spec(v)[k];
    let ws = canonical_sides_spec(w);
    assert(ws[0] != s && ws[1] != s && ws[2] != s);
    assert(!ws.contains(s)) by {
        if ws.contains(s) {
            let j = choose|j: int| 0 <= j < ws.len() && ws[j] == s;
            assert(j == 0 || j == 1 || j == 2);
        }
    }
}

} // verus!
