//! Combinatorics of the flat demonstration tiling.
//!
//! A reduced, two-dimensional analog of the cell combinatorics: each tile
//! has six [`Side`]s in a cycle, and each corner ([`Vertex`]) is where two
//! consecutive sides meet and owns one square voxel grid. The demo uses it
//! to exercise tiling traversal and collision without the full honeycomb.
//! The numeric data attached to these tables (side normals, reflections,
//! corner positions, the voxel scale factors) is floating-point and lives
//! with the rendering code, outside the verified core.

use vstd::prelude::*;

verus! {

/// One of the six sides of a tile, in cyclic order.
#[derive(Clone, Copy, Debug, PartialEq, Eq, Hash, Structural)]
pub enum Side {
    A,
    B,
    C,
    D,
    E,
    F,
}

/// One of the six corners of a tile, named after the two sides meeting
/// there.
#[derive(Clone, Copy, Debug, PartialEq, Eq, Hash, Structural)]
pub enum Vertex {
    AB,
    BC,
    CD,
    DE,
    EF,
    FA,
}

/// Position of a side in the cyclic `A`..`F` order.
pub open spec fn side_index_spec(s: Side) -> int {
    match s {
        Side::A => 0,
        Side::B => 1,
        Side::C => 2,
        Side::D => 3,
        Side::E => 4,
        Side::F => 5,
    }
}

/// Position of a vertex in the cyclic `AB`..`FA` order.
pub open spec fn vertex_index_spec(v: Vertex) -> int {
    match v {
        Vertex::AB => 0,
        Vertex::BC => 1,
        Vertex::CD => 2,
        Vertex::DE => 3,
        Vertex::EF => 4,
        Vertex::FA => 5,
    }
}

/// Whether two sides are consecutive in the cycle.
pub open spec fn sides_neighbor(a: Side, b: Side) -> bool {
    match a {
        Side::A => b == Side::F || b == Side::B,
        Side::B => b == Side::A || b == Side::C,
        Side::C => b == Side::B || b == Side::D,
        Side::D => b == Side::C || b == Side::E,
        Side::E => b == Side::D || b == Side::F,
        Side::F => b == Side::E || b == Side::A,
    }
}

/// The two sides meeting at a vertex, in cyclic order.
pub open spec fn vertex_sides_spec(v: Vertex) -> Seq<Side> {
    match v {
        Vertex::AB => seq![Side::A, Side::B],
        Vertex::BC => seq![Side::B, Side::C],
        Vertex::CD => seq![Side::C, Side::D],
        Vertex::DE => seq![Side::D, Side::E],
        Vertex::EF => seq![Side::E, Side::F],
        Vertex::FA => seq![Side::F, Side::A],
    }
}

/// The two corners sharing a side with `v`: the next and the previous
/// corner of the cycle.
pub open spec fn vertex_adjacent_spec(v: Vertex) -> Seq<Vertex> {
    match v {
        Vertex::AB => seq![Vertex::BC, Vertex::FA],
        Vertex::BC => seq![Vertex::CD, Vertex::AB],
        Vertex::CD => seq![Vertex::DE, Vertex::BC],
        Vertex::DE => seq![Vertex::EF, Vertex::CD],
        Vertex::EF => seq![Vertex::FA, Vertex::DE],
        Vertex::FA => seq![Vertex::AB, Vertex::EF],
    }
}

impl Side {
    /// All six sides in cyclic order.
    pub fn iter() -> (r: Vec<Side>)
        ensures
            r@.len() == 6,
            forall|i: int| 0 <= i < 6 ==> side_index_spec(#[trigger] r@[i]) == i,
    {
        let mut v: Vec<Side> = Vec::new();
        v.push(Side::A);
        v.push(Side::B);
        v.push(Side::C);
        v.push(Side::D);
        v.push(Side::E);
        v.push(Side::F);
        v
    }

    /// Whether this side shares a corner with `side`.
    pub fn is_neighbor(self, side: Side) -> (r: bool)
        ensures
            r == sides_neighbor(self, side),
    {
        match self {
            Side::A => matches!(side, Side::F | Side::B),
            Side::B => matches!(side, Side::A | Side::C),
            Side::C => matches!(side, Side::B | Side::D),
            Side::D => matches!(side, Side::C | Side::E),
            Side::E => matches!(side, Side::D | Side::F),
            Side::F => matches!(side, Side::E | Side::A),
        }
    }
}

impl Vertex {
    /// All six corners in cyclic order.
    pub fn iter() -> (r: Vec<Vertex>)
        ensures
            r@.len() == 6,
            forall|i: int| 0 <= i < 6 ==> vertex_index_spec(#[trigger] r@[i]) == i,
    {
        let mut v: Vec<Vertex> = Vec::new();
        v.push(Vertex::AB);
        v.push(Vertex::BC);
        v.push(Vertex::CD);
        v.push(Vertex::DE);
        v.push(Vertex::EF);
        v.push(Vertex::FA);
        v
    }

    /// The two sides meeting at this corner, in cyclic order.
    pub fn sides(self) -> (r: [Side; 2])
        ensures
            r@ == vertex_sides_spec(self),
    {
        match self {
            Vertex::AB => [Side::A, Side::B],
            Vertex::BC => [Side::B, Side::C],
            Vertex::CD => [Side::C, Side::D],
            Vertex::DE => [Side::D, Side::E],
            Vertex::EF => [Side::E, Side::F],
            Vertex::FA => [Side::F, Side::A],
        }
    }

    /// The two corners sharing a side with this one, next first.
    pub fn adjacent_vertices(self) -> (r: [Vertex; 2])
        ensures
            r@ == vertex_adjacent_spec(self),
    {
        match self {
            Vertex::AB => [Vertex::BC, Vertex::FA],
            Vertex::BC => [Vertex::CD, Vertex::AB],
            Vertex::CD => [Vertex::DE, Vertex::BC],
            Vertex::DE => [Vertex::EF, Vertex::CD],
            Vertex::EF => [Vertex::FA, Vertex::DE],
            Vertex::FA => [Vertex::AB, Vertex::EF],
        }
    }
}

/// Sharing a corner is symmetric and never relates a side to itself.
pub proof fn lemma_sides_neighbor_symmetric(a: Side, b: Side)
    ensures
        sides_neighbor(a, b) == sides_neighbor(b, a),
        !sides_neighbor(a, a),
{
}

/// The two sides of any corner are neighbors, and each adjacent corner
/// shares exactly one of them.
pub proof fn lemma_vertex_sides_neighbor(v: Vertex)
    ensures
        sides_neighbor(vertex_sides_spec(v)[0], vertex_sides_spec(v)[1]),
        vertex_sides_spec(vertex_adjacent_spec(v)[0])[0] == vertex_sides_spec(v)[1],
        vertex_sides_spec(vertex_adjacent_spec(v)[1])[1] == vertex_sides_spec(v)[0],
{
}

} // verus!
