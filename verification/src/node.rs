//! Per-cell voxel storage: chunk lifecycle, voxel arrays with margins, and
//! the coordinate bookkeeping that crosses chunk and cell boundaries.

use vstd::prelude::*;

use vstd::arithmetic::div_mod::{
    lemma_div_pos_is_pos, lemma_fundamental_div_mod, lemma_fundamental_div_mod_converse,
    lemma_mod_division_less_than_divisor,
};

use crate::dodeca::{adjacent_vertices_spec, canonical_sides_spec, vertex_index_spec, Side, Vertex};
use crate::graph::{Graph, NodeId};
use crate::proto::{BlockUpdate, SerializableVoxelData};
use crate::world::Material;

verus! {

/// The x-coordinate of linear index `i` in an `m`-sided cube, x fastest.
pub open spec fn lin_x(i: int, m: int) -> int {
    i % m
}

/// The y-coordinate of linear index `i` in an `m`-sided cube.
pub open spec fn lin_y(i: int, m: int) -> int {
    (i / m) % m
}

/// The z-coordinate of linear index `i` in an `m`-sided cube.
pub open spec fn lin_z(i: int, m: int) -> int {
    i / (m * m)
}

/// Whether linear index `i` addresses a margin voxel of an `m`-sided padded
/// cube: any coordinate on a face of the cube.
pub open spec fn is_margin_lin(i: int, m: int) -> bool {
    ||| lin_x(i, m) == 0
    ||| lin_x(i, m) == m - 1
    ||| lin_y(i, m) == 0
    ||| lin_y(i, m) == m - 1
    ||| lin_z(i, m) == 0
    ||| lin_z(i, m) == m - 1
}

/// Linearization in an `m`-sided cube is inverted by `lin_x`/`lin_y`/`lin_z`:
/// the index of `(x, y, z)` lies in the cube and decomposes back to the same
/// coordinates.
pub proof fn lemma_lin_index(x: int, y: int, z: int, m: int)
    requires
        1 <= m,
        0 <= x < m,
        0 <= y < m,
        0 <= z < m,
    ensures
        0 <= x + y * m + z * m * m < m * m * m,
        lin_x(x + y * m + z * m * m, m) == x,
        lin_y(x + y * m + z * m * m, m) == y,
        lin_z(x + y * m + z * m * m, m) == z,
{
    let i = x + y * m + z * m * m;
    assert(i == (y + z * m) * m + x) by (nonlinear_arith)
        requires
            i == x + y * m + z * m * m,
    ;
    assert(0 <= i) by (nonlinear_arith)
        requires
            0 <= x && 0 <= y && 0 <= z && 1 <= m,
            i == x + y * m + z * m * m,
    ;
    lemma_fundamental_div_mod_converse(i, m, y + z * m, x);
    assert(y + z * m == z * m + y);
    lemma_fundamental_div_mod_converse(y + z * m, m, z, y);
    assert(i == z * (m * m) + (x + y * m)) by (nonlinear_arith)
        requires
            i == x + y * m + z * m * m,
    ;
    assert(0 <= x + y * m < m * m) by (nonlinear_arith)
        requires
            0 <= x < m && 0 <= y < m && 1 <= m,
    ;
    lemma_fundamental_div_mod_converse(i, m * m, z, x + y * m);
    assert(i < m * m * m) by (nonlinear_arith)
        requires
            i == z * (m * m) + (x + y * m),
            z <= m - 1,
            x + y * m < m * m,
            1 <= m,
    ;
}

/// Handle into the external surface-mesh cache for one extracted chunk mesh.
/// The cache itself belongs to the render layer; the simulation only stores
/// and invalidates handles.
#[derive(Clone, Copy, Debug, PartialEq, Eq, Hash, Structural)]
pub struct SlotId(pub u32);

/// Generation-derived state of one cell, deterministic along any path from
/// the root: the root's state is fixed, and a child's state is a function of
/// the parent's state and the side crossed.
#[derive(Clone, Copy, Debug, PartialEq, Eq, Structural)]
pub struct NodeState {
    /// Whether an odd number of reflections separates this cell from the root.
    pub parity: bool,
    /// Discovery-tree distance from the root cell.
    pub depth: usize,
}

/// The state of the root cell.
pub open spec fn spec_root_state() -> NodeState {
    NodeState { parity: false, depth: 0 }
}

/// The state of the cell one crossing past a cell in state `s`.
pub open spec fn spec_child_state(s: NodeState, side: Side) -> NodeState {
    NodeState {
        parity: !s.parity,
        depth: if s.depth < usize::MAX {
            (s.depth + 1) as usize
        } else {
            s.depth
        },
    }
}

impl NodeState {
    /// State of the distinguished root cell.
    pub fn root() -> (r: NodeState)
        ensures
            r == spec_root_state(),
    {
        NodeState { parity: false, depth: 0 }
    }

    /// State of the cell reached from a cell in state `self` by crossing one
    /// side: one more reflection, one step deeper.
    pub fn child(&self, side: Side) -> (r: NodeState)
        ensures
            r == spec_child_state(*self, side),
    {
        NodeState {
            parity: !self.parity,
            depth: if self.depth < usize::MAX {
                self.depth + 1
            } else {
                self.depth
            },
        }
    }
}

/// A voxel's position inside one chunk, margins excluded: each coordinate
/// lies in `0..dimension`.
#[derive(Debug, Clone, Copy, PartialEq, Eq, Structural)]
pub struct Coords {
    pub x: u8,
    pub y: u8,
    pub z: u8,
}

/// One of the three axes of a chunk's voxel grid.
#[derive(Debug, Clone, Copy, PartialEq, Eq, Structural)]
pub enum CoordAxis {
    X,
    Y,
    Z,
}

/// Index of an axis in `[X, Y, Z]` order.
pub open spec fn axis_index_spec(a: CoordAxis) -> int {
    match a {
        CoordAxis::X => 0,
        CoordAxis::Y => 1,
        CoordAxis::Z => 2,
    }
}

/// Returned when a position that is not `0`, `1` or `2` is asked for as an
/// axis.
#[derive(Debug, Clone, Copy)]
pub struct CoordAxisOutOfBounds;

impl CoordAxis {
    /// The three axes in ascending order.
    pub fn iter() -> (r: Vec<CoordAxis>)
        ensures
            r@.len() == 3,
            forall|i: int| 0 <= i < 3 ==> axis_index_spec(#[trigger] r@[i]) == i,
    {
        let mut v: Vec<CoordAxis> = Vec::new();
        v.push(CoordAxis::X);
        v.push(CoordAxis::Y);
        v.push(CoordAxis::Z);
        v
    }

    /// Position of this axis in `[X, Y, Z]` order.
    pub fn index(self) -> (r: usize)
        ensures
            r == axis_index_spec(self),
    {
        match self {
            CoordAxis::X => 0,
            CoordAxis::Y => 1,
            CoordAxis::Z => 2,
        }
    }

    /// The axis at the given position of `[X, Y, Z]` order, if any.
    pub fn try_from(value: usize) -> (r: Result<CoordAxis, CoordAxisOutOfBounds>)
        ensures
            value < 3 ==> r is Ok && axis_index_spec(r->Ok_0) == value,
            value >= 3 ==> r is Err,
    {
        match value {
            0 => Ok(CoordAxis::X),
            1 => Ok(CoordAxis::Y),
            2 => Ok(CoordAxis::Z),
            _ => Err(CoordAxisOutOfBounds),
        }
    }

    /// The two axes orthogonal to this one, in the cyclic order that keeps
    /// `[axis, other0, other1]` an even permutation of `[X, Y, Z]`.
    pub fn other_axes(self) -> (r: [CoordAxis; 2])
        ensures
            axis_index_spec(r@[0]) == (axis_index_spec(self) + 1) % 3,
            axis_index_spec(r@[1]) == (axis_index_spec(self) + 2) % 3,
    {
        match self {
            CoordAxis::X => [CoordAxis::Y, CoordAxis::Z],
            CoordAxis::Y => [CoordAxis::Z, CoordAxis::X],
            CoordAxis::Z => [CoordAxis::X, CoordAxis::Y],
        }
    }
}

/// A direction along a coordinate axis.
#[derive(Debug, Clone, Copy, PartialEq, Eq, Structural)]
pub enum CoordDirection {
    Plus,
    Minus,
}

impl CoordDirection {
    /// Both directions, positive first.
    pub fn iter() -> (r: Vec<CoordDirection>)
        ensures
            r@.len() == 2,
            r@[0] == CoordDirection::Plus,
            r@[1] == CoordDirection::Minus,
    {
        let mut v: Vec<CoordDirection> = Vec::new();
        v.push(CoordDirection::Plus);
        v.push(CoordDirection::Minus);
        v
    }
}

/// The coordinate of `c` along the axis at position `k` of `[X, Y, Z]`.
pub open spec fn coord_spec(c: Coords, k: int) -> u8 {
    if k == 0 {
        c.x
    } else if k == 1 {
        c.y
    } else {
        c.z
    }
}

/// The linear index of in-chunk coordinates `c` (margins excluded) inside the
/// padded dense array of a chunk of size `dim`.
pub open spec fn voxel_index_spec(c: Coords, dim: int) -> int {
    (c.x + 1) + (c.y + 1) * (dim + 2) + (c.z + 1) * (dim + 2) * (dim + 2)
}

impl Coords {
    /// The coordinate along one axis.
    pub fn get(self, axis: CoordAxis) -> (r: u8)
        ensures
            r == coord_spec(self, axis_index_spec(axis)),
    {
        match axis {
            CoordAxis::X => self.x,
            CoordAxis::Y => self.y,
            CoordAxis::Z => self.z,
        }
    }

    /// Replaces the coordinate along one axis.
    pub fn set(&mut self, axis: CoordAxis, value: u8)
        ensures
            coord_spec(*final(self), axis_index_spec(axis)) == value,
            forall|k: int|
                0 <= k < 3 && k != axis_index_spec(axis) ==> coord_spec(*final(self), k)
                    == coord_spec(*old(self), k),
    {
        match axis {
            CoordAxis::X => self.x = value,
            CoordAxis::Y => self.y = value,
            CoordAxis::Z => self.z = value,
        }
    }

    /// Returns the array index in [`VoxelData`] corresponding to these
    /// coordinates, for a chunk of size `chunk_size`.
    pub fn to_index(&self, chunk_size: u8) -> (r: usize)
        requires
            self.x < chunk_size,
            self.y < chunk_size,
            self.z < chunk_size,
        ensures
            r == voxel_index_spec(*self, chunk_size as int),
            r < (chunk_size + 2) * (chunk_size + 2) * (chunk_size + 2),
    {
        let m = chunk_size as usize + 2;
        let xi = self.x as usize + 1;
        let yi = self.y as usize + 1;
        let zi = self.z as usize + 1;
        assert(yi * m <= 256 * 257) by (nonlinear_arith)
            requires
                yi <= 256,
                m <= 257,
        ;
        assert(m * m <= 257 * 257) by (nonlinear_arith)
            requires
                m <= 257,
        ;
        let mm = m * m;
        assert(zi * mm <= 256 * 66049) by (nonlinear_arith)
            requires
                zi <= 256,
                mm <= 66049,
        ;
        let r = xi + yi * m + zi * mm;
        assert(zi * mm == zi * m * m) by (nonlinear_arith)
            requires
                mm == m * m,
        ;
        assert(r < m * mm) by (nonlinear_arith)
            requires
                r == xi + yi * m + zi * mm,
                mm == m * m,
                2 <= m,
                xi <= m - 1,
                yi <= m - 1,
                zi <= m - 1,
        ;
        r
    }
}

/// The addressable unit of voxel storage: one vertex's chunk of one cell.
#[derive(Clone, Copy, Debug, PartialEq, Eq, Hash, Structural)]
pub struct ChunkId {
    pub node: NodeId,
    pub vertex: Vertex,
}

impl ChunkId {
    /// Pairs a node with one of its vertices.
    pub fn new(node: NodeId, vertex: Vertex) -> (r: ChunkId)
        ensures
            r.node == node,
            r.vertex == vertex,
    {
        ChunkId { node, vertex }
    }
}

/// Voxel payload of one chunk: either uniformly one material, or a dense
/// array of `(dimension + 2)^3` entries, the `+2` being a one-voxel margin on
/// every face that caches neighboring data so meshing shows no seams.
pub enum VoxelData {
    Solid(Material),
    Dense(Vec<Material>),
}

/// Any index of an `m`-sided cube decomposes into in-range coordinates that
/// linearize back to it.
pub proof fn lemma_lin_decompose(i: int, m: int)
    requires
        1 <= m,
        0 <= i < m * m * m,
    ensures
        0 <= lin_x(i, m) < m,
        0 <= lin_y(i, m) < m,
        0 <= lin_z(i, m) < m,
        i == lin_x(i, m) + lin_y(i, m) * m + lin_z(i, m) * m * m,
{
    let x = i % m;
    let q = i / m;
    let y = q % m;
    let z = q / m;
    lemma_fundamental_div_mod(i, m);
    lemma_mod_division_less_than_divisor(i, m);
    lemma_div_pos_is_pos(i, m);
    lemma_fundamental_div_mod(q, m);
    lemma_mod_division_less_than_divisor(q, m);
    lemma_div_pos_is_pos(q, m);
    assert(i == x + y * m + z * m * m) by (nonlinear_arith)
        requires
            i == m * q + x,
            q == m * z + y,
    ;
    assert(z < m) by (nonlinear_arith)
        requires
            i == x + y * m + z * m * m,
            0 <= x,
            0 <= y,
            0 <= z,
            i < m * m * m,
            m >= 1,
    ;
    assert(0 <= x + y * m < m * m) by (nonlinear_arith)
        requires
            0 <= x < m,
            0 <= y < m,
            m >= 1,
    ;
    assert(i == z * (m * m) + (x + y * m)) by (nonlinear_arith)
        requires
            i == x + y * m + z * m * m,
    ;
    lemma_fundamental_div_mod_converse(i, m * m, z, x + y * m);
    assert(lin_z(i, m) == z);
}

/// The number of entries a dense padded array has for chunk size `dim`.
pub open spec fn padded_len(dim: int) -> int {
    (dim + 2) * (dim + 2) * (dim + 2)
}

/// Returns the number of voxels in a dense chunk array of the given
/// dimension, margins included: `(dimension + 2)^3`.
pub fn chunk_data_len(dimension: u8) -> (r: usize)
    ensures
        r == padded_len(dimension as int),
{
    let d = dimension as usize + 2;
    assert(d * d <= 257 * 257) by (nonlinear_arith)
        requires
            d <= 257,
    ;
    let dd = d * d;
    assert(dd * d <= 66049 * 257) by (nonlinear_arith)
        requires
            dd <= 66049,
            d <= 257,
    ;
    dd * d
}

/// Whether `v` is a legal payload for a chunk of size `dim`: dense arrays
/// carry exactly the padded number of voxels.
pub open spec fn voxel_data_wf(v: VoxelData, dim: int) -> bool {
    match v {
        VoxelData::Solid(_) => true,
        VoxelData::Dense(d) => d@.len() == padded_len(dim),
    }
}

/// The material at linear index `i` of `v`.
pub open spec fn spec_voxel_get(v: VoxelData, i: int) -> Material {
    match v {
        VoxelData::Solid(mat) => mat,
        VoxelData::Dense(d) => d@[i],
    }
}

/// `v` with every margin voxel replaced by `Void`, as a dense payload.
pub open spec fn margin_cleared(v: VoxelData, dim: int) -> Seq<Material> {
    Seq::new(padded_len(dim) as nat, |i: int|
        if is_margin_lin(i, dim + 2) {
            Material::Void
        } else {
            spec_voxel_get(v, i)
        })
}

impl VoxelData {
    /// Whether this payload is the zero-allocation uniform representation.
    pub fn is_solid(&self) -> (r: bool)
        ensures
            r == (*self is Solid),
    {
        match self {
            VoxelData::Dense(_) => false,
            VoxelData::Solid(_) => true,
        }
    }

    /// The material at linear index `index` of the padded array.
    pub fn get(&self, index: usize) -> (r: Material)
        requires
            *self is Dense ==> index < self->Dense_0@.len(),
        ensures
            r == spec_voxel_get(*self, index as int),
    {
        match self {
            VoxelData::Dense(d) => d[index],
            VoxelData::Solid(mat) => *mat,
        }
    }

    /// The dense voxel array of this payload, promoting the uniform
    /// representation to a dense one on first use.
    pub fn data_mut(&mut self, dimension: u8) -> (r: &mut Vec<Material>)
        requires
            voxel_data_wf(*old(self), dimension as int),
        ensures
            r@.len() == padded_len(dimension as int),
            forall|i: int|
                0 <= i < padded_len(dimension as int) ==> r@[i] == spec_voxel_get(
                    *old(self),
                    i,
                ),
            *final(self) == VoxelData::Dense(*final(r)),
    {
        let is_solid = self.is_solid();
        if is_solid {
            let mat = match self {
                VoxelData::Solid(mat) => *mat,
                VoxelData::Dense(_) => {
                    proof {
                        assert(false);
                    }
                    unreached()
                },
            };
            let n = chunk_data_len(dimension);
            let mut d: Vec<Material> = Vec::new();
            let mut i: usize = 0;
            while i < n
                invariant
                    i <= n,
                    d@.len() == i,
                    forall|j: int| 0 <= j < i ==> d@[j] == mat,
                decreases n - i,
            {
                d.push(mat);
                i = i + 1;
            }
            *self = VoxelData::Dense(d);
        }
        match self {
            VoxelData::Dense(d) => d,
            VoxelData::Solid(_) => {
                proof {
                    assert(false);
                }
                unreached()
            },
        }
    }

    /// Replaces every voxel in the margin of this chunk with `Void`. Margins
    /// cache what world generation put in neighboring chunks; once this chunk
    /// or a neighbor is edited that cache can be stale, and a void margin
    /// makes the renderer draw every surface instead of trusting it.
    pub fn clear_margin(&mut self, dimension: u8)
        requires
            voxel_data_wf(*old(self), dimension as int),
        ensures
            voxel_data_wf(*final(self), dimension as int),
            *final(self) is Dense,
            final(self)->Dense_0@ == margin_cleared(*old(self), dimension as int),
    {
        let m = dimension as usize + 2;
        let data = self.data_mut(dimension);
        let ghost orig = data@;
        let n = data.len();
        proof {
            assert(m * m * m == padded_len(dimension as int)) by (nonlinear_arith)
                requires
                    m == dimension + 2,
            ;
        }
        let mut j: usize = 0;
        while j < n
            invariant
                j <= n,
                n == data@.len(),
                orig.len() == n,
                n == m * m * m,
                2 <= m <= 257,
                forall|k: int|
                    0 <= k < j ==> data@[k] == (if is_margin_lin(k, m as int) {
                        Material::Void
                    } else {
                        orig[k]
                    }),
                forall|k: int| j <= k < n ==> data@[k] == orig[k],
            decreases n - j,
        {
            let x = j % m;
            let y = (j / m) % m;
            assert(4 <= m * m <= 66049) by (nonlinear_arith)
                requires
                    2 <= m <= 257,
            ;
            let mm = m * m;
            let z = j / mm;
            if x == 0 || x == m - 1 || y == 0 || y == m - 1 || z == 0 || z == m - 1 {
                data[j] = Material::Void;
            }
            j = j + 1;
        }
        proof {
            assert(data@ =~= margin_cleared(*old(self), dimension as int));
        }
    }

    /// Builds a padded payload with void margins from the margin-free wire
    /// form, or `None` if the wire data has the wrong length for `dimension`.
    pub fn from_serializable(serializable: &SerializableVoxelData, dimension: u8) -> (r: Option<
        VoxelData,
    >)
        requires
            dimension >= 1,
        ensures
            r is Some <==> serializable.voxels@.len() == dimension * dimension * dimension,
            r is Some ==> voxel_data_wf(r->Some_0, dimension as int),
            r is Some ==> r->Some_0 is Dense,
            r is Some ==> forall|j: int|
                0 <= j < padded_len(dimension as int) ==> r->Some_0->Dense_0@[j] == (if is_interior(
                    j,
                    dimension as int,
                ) {
                    serializable.voxels@[padded_to_wire(j, dimension as int)]
                } else {
                    Material::Void
                }),
    {
        let dim = dimension as usize;
        assert(dim * dim <= 65025 && dim * dim * dim == dimension * dimension * dimension
            && dim * dim * dim <= 16581375) by (nonlinear_arith)
            requires
                1 <= dim <= 255,
                dim == dimension,
        ;
        let wire_len = dim * dim * dim;
        if serializable.voxels.len() != wire_len {
            return None;
        }
        let n = chunk_data_len(dimension);
        let mut data: Vec<Material> = Vec::new();
        let mut i: usize = 0;
        while i < n
            invariant
                i <= n,
                data@.len() == i,
                forall|j: int| 0 <= j < i ==> (#[trigger] data@[j]) == Material::Void,
            decreases n - i,
        {
            data.push(Material::Void);
            i = i + 1;
        }
        let ghost dimi = dimension as int;
        let mut k: usize = 0;
        while k < wire_len
            invariant
                k <= wire_len,
                1 <= dim <= 255,
                dim == dimension,
                dimi == dim,
                wire_len == dim * dim * dim,
                serializable.voxels@.len() == wire_len,
                n == padded_len(dimi),
                data@.len() == n,
                forall|j: int|
                    0 <= j < n ==> (#[trigger] data@[j]) == (if is_interior(j, dimi)
                        && padded_to_wire(j, dimi) < k {
                        serializable.voxels@[padded_to_wire(j, dimi)]
                    } else {
                        Material::Void
                    }),
            decreases wire_len - k,
        {
            let x = k % dim;
            let y = (k / dim) % dim;
            assert(1 <= dim * dim <= 65025) by (nonlinear_arith)
                requires
                    1 <= dim <= 255,
            ;
            let z = k / (dim * dim);
            proof {
                lemma_lin_decompose(k as int, dimi);
            }
            let coords = Coords { x: x as u8, y: y as u8, z: z as u8 };
            let idx = coords.to_index(dimension);
            proof {
                lemma_lin_index(x as int + 1, y as int + 1, z as int + 1, dimi + 2);
                assert(idx == wire_to_padded(k as int, dimi));
                assert(is_interior(idx as int, dimi));
                assert(padded_to_wire(idx as int, dimi) == x + y * dimi + z * dimi * dimi);
                assert(padded_to_wire(idx as int, dimi) == k);
            }
            let value = serializable.voxels[k];
            data[idx] = value;
            proof {
                assert forall|j: int| 0 <= j < n implies (#[trigger] data@[j]) == (if is_interior(
                    j,
                    dimi,
                ) && padded_to_wire(j, dimi) < k + 1 {
                    serializable.voxels@[padded_to_wire(j, dimi)]
                } else {
                    Material::Void
                }) by {
                    if j != idx as int {
                        if is_interior(j, dimi) && padded_to_wire(j, dimi) == k {
                            // Only one padded slot maps to wire position k.
                            lemma_lin_decompose(j, dimi + 2);
                            let jx = lin_x(j, dimi + 2);
                            let jy = lin_y(j, dimi + 2);
                            let jz = lin_z(j, dimi + 2);
                            lemma_lin_index(jx - 1, jy - 1, jz - 1, dimi);
                            assert(lin_x(k as int, dimi) == jx - 1);
                            assert(lin_y(k as int, dimi) == jy - 1);
                            assert(lin_z(k as int, dimi) == jz - 1);
                            assert(j == jx + jy * (dimi + 2) + jz * (dimi + 2) * (dimi + 2));
                            assert(j == idx as int);
                            assert(false);
                        }
                    }
                }
            }
            k = k + 1;
        }
        proof {
            assert forall|j: int|
                0 <= j < n && is_interior(j, dimi) implies padded_to_wire(j, dimi) < wire_len by {
                lemma_lin_decompose(j, dimi + 2);
                lemma_lin_index(
                    lin_x(j, dimi + 2) - 1,
                    lin_y(j, dimi + 2) - 1,
                    lin_z(j, dimi + 2) - 1,
                    dimi,
                );
            }
        }
        Some(VoxelData::Dense(data))
    }

    /// Writes this payload out in the margin-free wire form. The payload
    /// must already be dense; a chunk that was never modified has no edits
    /// worth sending.
    pub fn to_serializable(&self, dimension: u8) -> (r: SerializableVoxelData)
        requires
            dimension >= 1,
            *self is Dense,
            voxel_data_wf(*self, dimension as int),
        ensures
            r.voxels@.len() == dimension * dimension * dimension,
            forall|k: int|
                0 <= k < dimension * dimension * dimension ==> (#[trigger] r.voxels@[k])
                    == self->Dense_0@[wire_to_padded(k, dimension as int)],
    {
        let dim = dimension as usize;
        assert(dim * dim <= 65025 && dim * dim * dim == dimension * dimension * dimension
            && dim * dim * dim <= 16581375) by (nonlinear_arith)
            requires
                1 <= dim <= 255,
                dim == dimension,
        ;
        let wire_len = dim * dim * dim;
        let data = match self {
            VoxelData::Dense(d) => d,
            VoxelData::Solid(_) => {
                proof {
                    assert(false);
                }
                unreached()
            },
        };
        let ghost dimi = dimension as int;
        let mut serializable: Vec<Material> = Vec::new();
        let mut k: usize = 0;
        while k < wire_len
            invariant
                k <= wire_len,
                1 <= dim <= 255,
                dim == dimension,
                dimi == dim,
                wire_len == dim * dim * dim,
                data@.len() == padded_len(dimi),
                data@ == self->Dense_0@,
                serializable@.len() == k,
                forall|j: int|
                    0 <= j < k ==> (#[trigger] serializable@[j]) == data@[wire_to_padded(j, dimi)],
            decreases wire_len - k,
        {
            let x = k % dim;
            let y = (k / dim) % dim;
            assert(1 <= dim * dim <= 65025) by (nonlinear_arith)
                requires
                    1 <= dim <= 255,
            ;
            let z = k / (dim * dim);
            proof {
                lemma_lin_decompose(k as int, dimi);
                lemma_lin_index(x as int + 1, y as int + 1, z as int + 1, dimi + 2);
            }
            let coords = Coords { x: x as u8, y: y as u8, z: z as u8 };
            let idx = coords.to_index(dimension);
            proof {
                assert(idx == wire_to_padded(k as int, dimi));
            }
            serializable.push(data[idx]);
            k = k + 1;
        }
        SerializableVoxelData { voxels: serializable }
    }
}

/// Lifecycle of one chunk. A chunk is `Fresh` until the loader picks it up,
/// `Generating` while a voxel payload is being produced for it, and
/// `Populated` from then on; it never reverts.
pub enum Chunk {
    Fresh,
    Generating,
    Populated {
        voxels: VoxelData,
        /// Whether the contents differ from what world generation produces.
        modified: bool,
        /// Current surface-mesh cache handle, if one has been extracted.
        surface: Option<SlotId>,
        /// Superseded handle kept for the render layer to free.
        old_surface: Option<SlotId>,
    },
}

/// The padded-array index holding the voxel that position `k` of the
/// margin-free wire form addresses.
pub open spec fn wire_to_padded(k: int, dim: int) -> int {
    (lin_x(k, dim) + 1) + (lin_y(k, dim) + 1) * (dim + 2) + (lin_z(k, dim) + 1) * (dim + 2) * (dim
        + 2)
}

/// Whether padded-array index `j` addresses a voxel inside the margins.
pub open spec fn is_interior(j: int, dim: int) -> bool {
    &&& 1 <= lin_x(j, dim + 2) <= dim
    &&& 1 <= lin_y(j, dim + 2) <= dim
    &&& 1 <= lin_z(j, dim + 2) <= dim
}

/// The wire-form position of the voxel at interior padded-array index `j`.
pub open spec fn padded_to_wire(j: int, dim: int) -> int {
    (lin_x(j, dim + 2) - 1) + (lin_y(j, dim + 2) - 1) * dim + (lin_z(j, dim + 2) - 1) * dim * dim
}

/// Reading a padded array back out through the wire form returns exactly the
/// wire data it was built from: the two index maps invert each other on the
/// interior.
pub proof fn lemma_wire_round_trip(wire: Seq<Material>, padded: Seq<Material>, out: Seq<Material>, dim: int)
    requires
        1 <= dim <= 255,
        wire.len() == dim * dim * dim,
        padded.len() == padded_len(dim),
        forall|j: int|
            0 <= j < padded_len(dim) ==> padded[j] == (if is_interior(j, dim) {
                wire[padded_to_wire(j, dim)]
            } else {
                Material::Void
            }),
        out.len() == dim * dim * dim,
        forall|k: int| 0 <= k < dim * dim * dim ==> out[k] == padded[wire_to_padded(k, dim)],
    ensures
        out == wire,
{
    assert forall|k: int| 0 <= k < dim * dim * dim implies out[k] == wire[k] by {
        lemma_lin_decompose(k, dim);
        let x = lin_x(k, dim);
        let y = lin_y(k, dim);
        let z = lin_z(k, dim);
        lemma_lin_index(x + 1, y + 1, z + 1, dim + 2);
        let j = wire_to_padded(k, dim);
        assert(0 <= j < padded_len(dim));
        assert(is_interior(j, dim));
        assert(padded_to_wire(j, dim) == x + y * dim + z * dim * dim);
        assert(padded_to_wire(j, dim) == k);
    }
    assert(out =~= wire);
}

/// Whether `c` is a legal chunk of a store with chunk size `dim`.
pub open spec fn chunk_wf(c: Chunk, dim: int) -> bool {
    match c {
        Chunk::Populated { voxels, .. } => voxel_data_wf(voxels, dim),
        _ => true,
    }
}

/// Whether `n` is a legal cell payload: one legal chunk per vertex.
pub open spec fn spec_node_wf(n: Node, dim: int) -> bool {
    &&& n.chunks@.len() == 20
    &&& forall|k: int| 0 <= k < 20 ==> chunk_wf(#[trigger] n.chunks@[k], dim)
}

/// Whether every populated cell of `g` carries a legal payload.
pub open spec fn store_wf(g: &Graph) -> bool {
    forall|n: NodeId|
        g.contains(n) && (#[trigger] g.node_value(n)) is Some ==> spec_node_wf(
            g.node_value(n)->Some_0,
            g.spec_dimension() as int,
        )
}

/// The chunk stored at `c` (meaningful only when `c.node` is populated).
pub open spec fn chunk_at(g: &Graph, c: ChunkId) -> Chunk {
    g.node_value(c.node)->Some_0.chunks@[vertex_index_spec(c.vertex)]
}

/// Whether `c` names a populated chunk of a populated cell.
pub open spec fn chunk_populated(g: &Graph, c: ChunkId) -> bool {
    &&& g.contains(c.node)
    &&& g.node_value(c.node) is Some
    &&& chunk_at(g, c) is Populated
}

/// Rewriting one chunk with a legal one keeps the whole store legal.
pub proof fn lemma_store_wf_after_chunk_write(pre: &Graph, post: &Graph, chunk: ChunkId, c: Chunk)
    requires
        store_wf(pre),
        pre.contains(chunk.node),
        pre.node_value(chunk.node) is Some,
        post.spec_dimension() == pre.spec_dimension(),
        post.len() == pre.len(),
        forall|m: NodeId|
            pre.contains(m) && m.idx() != chunk.node.idx() ==> #[trigger] post.node_value(m)
                == pre.node_value(m),
        post.node_value(chunk.node) is Some,
        post.node_value(chunk.node)->Some_0.chunks@ == pre.node_value(
            chunk.node,
        )->Some_0.chunks@.update(vertex_index_spec(chunk.vertex), c),
        chunk_wf(c, pre.spec_dimension() as int),
    ensures
        store_wf(post),
{
    assert forall|n: NodeId|
        post.contains(n) && (#[trigger] post.node_value(n)) is Some implies spec_node_wf(
        post.node_value(n)->Some_0,
        post.spec_dimension() as int,
    ) by {
        if n.idx() == chunk.node.idx() {
            crate::graph::lemma_node_id_injective(n, chunk.node);
            let pre_node = pre.node_value(chunk.node)->Some_0;
            let post_node = post.node_value(n)->Some_0;
            assert(n == chunk.node);
            assert(spec_node_wf(pre_node, pre.spec_dimension() as int));
            assert forall|k: int| 0 <= k < 20 implies chunk_wf(
                #[trigger] post_node.chunks@[k],
                post.spec_dimension() as int,
            ) by {
                if k != vertex_index_spec(chunk.vertex) {
                    assert(post_node.chunks@[k] == pre_node.chunks@[k]);
                }
            }
        } else {
            assert(pre.node_value(n) is Some);
        }
    }
}

/// Payload of one populated cell: its generation state and one chunk per
/// vertex, indexed by `vertex_index_spec`.
pub struct Node {
    pub state: NodeState,
    pub chunks: Vec<Chunk>,
}

impl Node {
    /// A just-populated cell: generation state set, all 20 chunks fresh.
    pub fn new(state: NodeState) -> (r: Node)
        ensures
            r.state == state,
            r.chunks@.len() == 20,
            forall|i: int| 0 <= i < 20 ==> (#[trigger] r.chunks@[i]) is Fresh,
    {
        let mut chunks: Vec<Chunk> = Vec::new();
        let mut i: usize = 0;
        while i < 20
            invariant
                i <= 20,
                chunks@.len() == i,
                forall|j: int| 0 <= j < i ==> (#[trigger] chunks@[j]) is Fresh,
            decreases 20 - i,
        {
            chunks.push(Chunk::Fresh);
            i = i + 1;
        }
        Node { state, chunks }
    }
}

/// The chunk across the face of `c`'s chunk along `axis` in direction `dir`:
/// the adjacent vertex's chunk of the same cell when moving away from the
/// cell's center, or the same vertex's chunk of the neighboring cell (if that
/// cell has been created) when moving toward it.
pub open spec fn chunk_neighbor_spec(g: &Graph, c: ChunkId, axis: int, dir: CoordDirection) -> Option<
    ChunkId,
> {
    match dir {
        CoordDirection::Plus => Some(
            ChunkId { node: c.node, vertex: adjacent_vertices_spec(c.vertex)[axis] },
        ),
        CoordDirection::Minus => match g.spec_neighbor(
            c.node,
            canonical_sides_spec(c.vertex)[axis],
        ) {
            Some(n) => Some(ChunkId { node: n, vertex: c.vertex }),
            None => None,
        },
    }
}

/// Relates a chunk before and after a margin clear: a populated chunk with
/// solid voxels comes out dense with void margins, its mesh handle retired;
/// anything else is untouched.
pub open spec fn chunk_margin_cleared_rel(pre: Chunk, post: Chunk, dim: int) -> bool {
    match pre {
        Chunk::Populated { voxels: pv, modified: pm, surface: ps, old_surface: pos } => {
            if pv is Solid {
                match post {
                    Chunk::Populated { voxels: qv, modified: qm, surface: qs, old_surface: qos } => {
                        &&& match qv {
                            VoxelData::Dense(d) => d@ == margin_cleared(pv, dim),
                            VoxelData::Solid(_) => false,
                        }
                        &&& qm == pm
                        &&& qs is None
                        &&& qos == (if ps is Some {
                            ps
                        } else {
                            pos
                        })
                    },
                    _ => false,
                }
            } else {
                post == pre
            }
        },
        _ => post == pre,
    }
}

/// Clearing margins twice is the same as clearing them once.
pub proof fn lemma_margin_clear_idempotent(pre: Chunk, mid: Chunk, post: Chunk, dim: int)
    requires
        chunk_margin_cleared_rel(pre, mid, dim),
        chunk_margin_cleared_rel(mid, post, dim),
    ensures
        chunk_margin_cleared_rel(pre, post, dim),
{
}

/// A cleared chunk is still a legal chunk.
pub proof fn lemma_margin_clear_wf(pre: Chunk, post: Chunk, dim: int)
    requires
        0 <= dim,
        chunk_wf(pre, dim),
        chunk_margin_cleared_rel(pre, post, dim),
    ensures
        chunk_wf(post, dim),
{
}

/// `post` differs from `pre` only in chunk contents: the graph structure,
/// which cells are populated, their generation states and their chunk counts
/// all agree.
pub open spec fn same_store_structure(post: &Graph, pre: &Graph) -> bool {
    &&& post.len() == pre.len()
    &&& post.spec_dimension() == pre.spec_dimension()
    &&& post.spec_fresh() == pre.spec_fresh()
    &&& forall|m: NodeId, s: Side|
        pre.contains(m) ==> #[trigger] post.spec_neighbor(m, s) == pre.spec_neighbor(m, s)
    &&& forall|m: NodeId|
        pre.contains(m) ==> #[trigger] post.spec_parent(m) == pre.spec_parent(m)
    &&& forall|m: NodeId|
        pre.contains(m) ==> #[trigger] post.spec_length(m) == pre.spec_length(m)
    &&& forall|m: NodeId|
        pre.contains(m) ==> ((#[trigger] post.node_value(m)) is Some <==> pre.node_value(m)
            is Some)
    &&& forall|m: NodeId|
        pre.contains(m) && pre.node_value(m) is Some ==> (#[trigger] post.node_value(
            m,
        ))->Some_0.state == pre.node_value(m)->Some_0.state && post.node_value(
            m,
        )->Some_0.chunks@.len() == pre.node_value(m)->Some_0.chunks@.len()
}

/// A write confined to one populated cell's chunk list (its state and chunk
/// count intact) preserves the store structure.
pub proof fn lemma_same_store_structure_single_write(pre: &Graph, post: &Graph, target: NodeId)
    requires
        pre.contains(target),
        pre.node_value(target) is Some,
        post.len() == pre.len(),
        post.spec_dimension() == pre.spec_dimension(),
        post.spec_fresh() == pre.spec_fresh(),
        forall|m: NodeId, s: Side|
            pre.contains(m) ==> #[trigger] post.spec_neighbor(m, s) == pre.spec_neighbor(m, s),
        forall|m: NodeId|
            pre.contains(m) ==> #[trigger] post.spec_parent(m) == pre.spec_parent(m),
        forall|m: NodeId|
            pre.contains(m) ==> #[trigger] post.spec_length(m) == pre.spec_length(m),
        forall|m: NodeId|
            pre.contains(m) && m.idx() != target.idx() ==> #[trigger] post.node_value(m)
                == pre.node_value(m),
        post.node_value(target) is Some,
        post.node_value(target)->Some_0.state == pre.node_value(target)->Some_0.state,
        post.node_value(target)->Some_0.chunks@.len() == pre.node_value(
            target,
        )->Some_0.chunks@.len(),
    ensures
        same_store_structure(post, pre),
{
    assert forall|m: NodeId| pre.contains(m) implies ((#[trigger] post.node_value(m)) is Some
        <==> pre.node_value(m) is Some) by {
        if m.idx() == target.idx() {
            crate::graph::lemma_node_id_injective(m, target);
        }
    }
    assert forall|m: NodeId| pre.contains(m) && pre.node_value(m) is Some implies (
    #[trigger] post.node_value(m))->Some_0.state == pre.node_value(m)->Some_0.state
        && post.node_value(m)->Some_0.chunks@.len() == pre.node_value(m)->Some_0.chunks@.len() by {
        if m.idx() == target.idx() {
            crate::graph::lemma_node_id_injective(m, target);
        }
    }
}

/// Store-structure preservation composes.
pub proof fn lemma_same_store_structure_trans(a: &Graph, b: &Graph, c: &Graph)
    requires
        same_store_structure(c, b),
        same_store_structure(b, a),
    ensures
        same_store_structure(c, a),
{
}

/// The direction of the pair at position `p` of the fixed axis-major
/// enumeration of the six chunk faces.
pub open spec fn pair_dir(p: int) -> CoordDirection {
    if p % 2 == 0 {
        CoordDirection::Plus
    } else {
        CoordDirection::Minus
    }
}

/// The axis of the pair at position `p` of that enumeration.
pub open spec fn pair_axis(p: int) -> int {
    p / 2
}

/// The chunk across face `p` of `chunk`, if its cell exists.
pub open spec fn face_neighbor(g: &Graph, chunk: ChunkId, p: int) -> Option<ChunkId> {
    chunk_neighbor_spec(g, chunk, pair_axis(p), pair_dir(p))
}

/// Whether `c` lies across one of the first `p` faces of `chunk`.
pub open spec fn neighbor_within(g: &Graph, chunk: ChunkId, c: ChunkId, p: int) -> bool {
    exists|q: int| 0 <= q < p && face_neighbor(g, chunk, q) == Some(c)
}

/// Whether the chunk across face `p` of `chunk` exists, is populated, and
/// has been modified since world generation.
pub open spec fn face_has_modified(g: &Graph, chunk: ChunkId, p: int) -> bool {
    match face_neighbor(g, chunk, p) {
        Some(c) => {
            &&& g.contains(c.node)
            &&& g.node_value(c.node) is Some
            &&& chunk_at(g, c) matches Chunk::Populated { modified: true, .. }
        },
        None => false,
    }
}

/// Whether some face of `chunk` borders a populated chunk whose contents
/// differ from what world generation produced.
pub open spec fn has_modified_neighbor(g: &Graph, chunk: ChunkId) -> bool {
    exists|p: int| 0 <= p < 6 && #[trigger] face_has_modified(g, chunk, p)
}

/// Which chunks border `chunk` depends only on the store structure.
pub proof fn lemma_neighbor_within_congruent(a: &Graph, b: &Graph, chunk: ChunkId, c: ChunkId, p: int)
    requires
        same_store_structure(b, a),
        a.contains(chunk.node),
    ensures
        neighbor_within(b, chunk, c, p) == neighbor_within(a, chunk, c, p),
{
    if neighbor_within(a, chunk, c, p) {
        let q = choose|q: int| 0 <= q < p && face_neighbor(a, chunk, q) == Some(c);
        lemma_face_neighbor_congruent(a, b, chunk, q);
        assert(face_neighbor(b, chunk, q) == Some(c));
    }
    if neighbor_within(b, chunk, c, p) {
        let q = choose|q: int| 0 <= q < p && face_neighbor(b, chunk, q) == Some(c);
        lemma_face_neighbor_congruent(a, b, chunk, q);
        assert(face_neighbor(a, chunk, q) == Some(c));
    }
}

/// Face neighbors depend only on the store structure.
pub proof fn lemma_face_neighbor_congruent(a: &Graph, b: &Graph, chunk: ChunkId, p: int)
    requires
        same_store_structure(b, a),
        a.contains(chunk.node),
    ensures
        face_neighbor(b, chunk, p) == face_neighbor(a, chunk, p),
{
    assert(b.spec_neighbor(chunk.node, canonical_sides_spec(chunk.vertex)[pair_axis(p)])
        == a.spec_neighbor(chunk.node, canonical_sides_spec(chunk.vertex)[pair_axis(p)]));
}

/// No chunk borders itself: crossing a face always changes the vertex or
/// the cell.
pub proof fn lemma_face_neighbor_not_self(g: &Graph, chunk: ChunkId, p: int)
    requires
        g.wf(),
        g.contains(chunk.node),
        0 <= p < 6,
    ensures
        face_neighbor(g, chunk, p) != Some(chunk),
{
    match pair_dir(p) {
        CoordDirection::Plus => {
            crate::dodeca::lemma_adjacent_vertices_distinct(chunk.vertex, pair_axis(p));
        },
        CoordDirection::Minus => {
            let s = canonical_sides_spec(chunk.vertex)[pair_axis(p)];
            if g.spec_neighbor(chunk.node, s) is Some {
                g.lemma_neighbor_props(chunk.node, s);
            }
        },
    }
}

/// `c` with the coordinate along axis `k` replaced by `value`.
pub open spec fn with_coord(c: Coords, k: int, value: u8) -> Coords {
    if k == 0 {
        Coords { x: value, ..c }
    } else if k == 1 {
        Coords { y: value, ..c }
    } else {
        Coords { z: value, ..c }
    }
}

/// The coordinate along new-vertex axis `a` after stepping from `v`'s chunk
/// into `nv`'s across axis `axis`: coordinates follow their sides, and the
/// crossed axis keeps its (maximal) coordinate on the new vertex's own axis.
pub open spec fn permuted_coord(v: Vertex, nv: Vertex, coords: Coords, axis: int, a: int) -> u8 {
    if canonical_sides_spec(nv)[a] == canonical_sides_spec(v)[(axis + 1) % 3] {
        coord_spec(coords, (axis + 1) % 3)
    } else if canonical_sides_spec(nv)[a] == canonical_sides_spec(v)[(axis + 2) % 3] {
        coord_spec(coords, (axis + 2) % 3)
    } else {
        coord_spec(coords, axis)
    }
}

/// All three coordinates permuted as [`permuted_coord`] prescribes.
pub open spec fn permuted_coords(v: Vertex, nv: Vertex, coords: Coords, axis: int) -> Coords {
    Coords {
        x: permuted_coord(v, nv, coords, axis, 0),
        y: permuted_coord(v, nv, coords, axis, 1),
        z: permuted_coord(v, nv, coords, axis, 2),
    }
}

/// The voxel one step along `axis` in direction `dir` from `coords` of
/// `chunk`: within the same chunk where possible, across to the adjacent
/// vertex's chunk (with permuted coordinates) past the chunk's far face, and
/// across to the neighboring cell (if created) past the near face.
pub open spec fn block_neighbor_spec(
    g: &Graph,
    chunk: ChunkId,
    coords: Coords,
    axis: int,
    dir: CoordDirection,
) -> Option<(ChunkId, Coords)> {
    let dim = g.spec_dimension() as int;
    if coord_spec(coords, axis) == dim - 1 && dir is Plus {
        let nv = adjacent_vertices_spec(chunk.vertex)[axis];
        Some(
            (
                ChunkId { node: chunk.node, vertex: nv },
                permuted_coords(chunk.vertex, nv, coords, axis),
            ),
        )
    } else if coord_spec(coords, axis) == 0 && dir is Minus {
        match g.spec_neighbor(chunk.node, canonical_sides_spec(chunk.vertex)[axis]) {
            Some(n) => Some((ChunkId { node: n, vertex: chunk.vertex }, coords)),
            None => None,
        }
    } else {
        let stepped = if dir is Plus {
            (coord_spec(coords, axis) + 1) as u8
        } else {
            (coord_spec(coords, axis) - 1) as u8
        };
        Some((chunk, with_coord(coords, axis, stepped)))
    }
}

/// Carries `coords` across the chunk face along `coord_axis` into the
/// adjacent vertex's chunk: the two axes whose sides both chunks share keep
/// their coordinates under that vertex's axis order, and the crossed axis
/// keeps its coordinate on the remaining axis.
fn cross_vertex_coords(vertex: Vertex, coord_axis: CoordAxis, coords: Coords) -> (r: Coords)
    ensures
        r == permuted_coords(
            vertex,
            adjacent_vertices_spec(vertex)[axis_index_spec(coord_axis)],
            coords,
            axis_index_spec(coord_axis),
        ),
        r.x == coord_spec(coords, 0) || r.x == coord_spec(coords, 1) || r.x == coord_spec(
            coords,
            2,
        ),
        r.y == coord_spec(coords, 0) || r.y == coord_spec(coords, 1) || r.y == coord_spec(
            coords,
            2,
        ),
        r.z == coord_spec(coords, 0) || r.z == coord_spec(coords, 1) || r.z == coord_spec(
            coords,
            2,
        ),
{
    let new_vertex = vertex.adjacent_vertices()[coord_axis.index()];
    let others = coord_axis.other_axes();
    let coord_plane0 = others[0];
    let coord_plane1 = others[1];
    let new_sides = new_vertex.canonical_sides();
    let old_sides = vertex.canonical_sides();
    let mut new_coords = Coords { x: 0, y: 0, z: 0 };
    let axes = CoordAxis::iter();
    let mut a: usize = 0;
    while a < 3
        invariant
            a <= 3,
            axes@.len() == 3,
            forall|i: int| 0 <= i < 3 ==> axis_index_spec(#[trigger] axes@[i]) == i,
            new_sides@ == canonical_sides_spec(
                adjacent_vertices_spec(vertex)[axis_index_spec(coord_axis)],
            ),
            old_sides@ == canonical_sides_spec(vertex),
            new_vertex == adjacent_vertices_spec(vertex)[axis_index_spec(coord_axis)],
            axis_index_spec(coord_plane0) == (axis_index_spec(coord_axis) + 1) % 3,
            axis_index_spec(coord_plane1) == (axis_index_spec(coord_axis) + 2) % 3,
            forall|k: int|
                0 <= k < a ==> coord_spec(new_coords, k) == permuted_coord(
                    vertex,
                    new_vertex,
                    coords,
                    axis_index_spec(coord_axis),
                    k,
                ),
        decreases 3 - a,
    {
        let current_axis = axes[a];
        if new_sides[a] == old_sides[coord_plane0.index()] {
            new_coords.set(current_axis, coords.get(coord_plane0));
        } else if new_sides[a] == old_sides[coord_plane1.index()] {
            new_coords.set(current_axis, coords.get(coord_plane1));
        } else {
            new_coords.set(current_axis, coords.get(coord_axis));
        }
        a = a + 1;
    }
    proof {
        let ax = axis_index_spec(coord_axis);
        let want = permuted_coords(vertex, new_vertex, coords, ax);
        assert(new_coords.x == coord_spec(new_coords, 0) && coord_spec(new_coords, 0) == want.x);
        assert(new_coords.y == coord_spec(new_coords, 1) && coord_spec(new_coords, 1) == want.y);
        assert(new_coords.z == coord_spec(new_coords, 2) && coord_spec(new_coords, 2) == want.z);
        assert(new_coords == want);
        assert(0 <= (ax + 1) % 3 < 3);
        assert(0 <= (ax + 2) % 3 < 3);
    }
    new_coords
}

impl Graph {
    /// The chunk stored at `chunk`, or `None` if its cell is not populated.
    pub fn get_chunk(&self, chunk: ChunkId) -> (r: Option<&Chunk>)
        requires
            self.wf(),
            store_wf(self),
            self.contains(chunk.node),
        ensures
            r is Some <==> self.node_value(chunk.node) is Some,
            r is Some ==> *r->Some_0 == chunk_at(self, chunk),
    {
        match self.get(chunk.node) {
            Some(node) => Some(&node.chunks[chunk.vertex.index()]),
            None => None,
        }
    }

    /// Mutable access to the chunk stored at `chunk`. Only that chunk follows
    /// what the caller writes; the graph's structure and every other payload
    /// are untouched. Callers re-establish the store invariant through
    /// [`lemma_store_wf_after_chunk_write`] once they know what they wrote.
    pub fn get_chunk_mut(&mut self, chunk: ChunkId) -> (r: &mut Chunk)
        requires
            old(self).wf(),
            store_wf(old(self)),
            old(self).contains(chunk.node),
            old(self).node_value(chunk.node) is Some,
        ensures
            *r == chunk_at(old(self), chunk),
            Graph::same_structure(final(self), old(self)),
            final(self).len() == old(self).len(),
            final(self).spec_dimension() == old(self).spec_dimension(),
            final(self).spec_fresh() == old(self).spec_fresh(),
            forall|m: NodeId, s: Side|
                old(self).contains(m) ==> #[trigger] final(self).spec_neighbor(m, s)
                    == old(self).spec_neighbor(m, s),
            forall|m: NodeId|
                old(self).contains(m) ==> #[trigger] final(self).spec_parent(m)
                    == old(self).spec_parent(m),
            forall|m: NodeId|
                old(self).contains(m) ==> #[trigger] final(self).spec_length(m)
                    == old(self).spec_length(m),
            forall|m: NodeId|
                old(self).contains(m) && m.idx() != chunk.node.idx()
                    ==> #[trigger] final(self).node_value(m) == old(self).node_value(m),
            final(self).node_value(chunk.node) is Some,
            final(self).node_value(chunk.node)->Some_0.state == old(self).node_value(
                chunk.node,
            )->Some_0.state,
            final(self).node_value(chunk.node)->Some_0.chunks@ == old(self).node_value(
                chunk.node,
            )->Some_0.chunks@.update(vertex_index_spec(chunk.vertex), *final(r)),
    {
        let ghost pre = *old(self);
        let vi = chunk.vertex.index();
        let value = self.get_mut(chunk.node);
        match value {
            Some(node) => {
                proof {
                    assert(spec_node_wf(pre.node_value(chunk.node)->Some_0,
                    pre.spec_dimension() as int));
                }
                &mut node.chunks[vi]
            },
            None => {
                proof {
                    assert(false);
                }
                unreached()
            },
        }
    }

    /// The chunk across one face of `chunk`'s own chunk, if its cell exists.
    pub fn get_chunk_neighbor(&self, chunk: ChunkId, coord_axis: CoordAxis, coord_direction: CoordDirection) -> (r:
        Option<ChunkId>)
        requires
            self.wf(),
            self.contains(chunk.node),
        ensures
            r == chunk_neighbor_spec(self, chunk, axis_index_spec(coord_axis), coord_direction),
            r is Some ==> self.contains(r->Some_0.node),
    {
        match coord_direction {
            CoordDirection::Plus => {
                let verts = chunk.vertex.adjacent_vertices();
                Some(ChunkId::new(chunk.node, verts[coord_axis.index()]))
            },
            CoordDirection::Minus => {
                let sides = chunk.vertex.canonical_sides();
                match self.neighbor(chunk.node, sides[coord_axis.index()]) {
                    Some(n) => Some(ChunkId::new(n, chunk.vertex)),
                    None => None,
                }
            },
        }
    }

    /// The chunk and in-chunk coordinates of the voxel one step from
    /// `coords` along `coord_axis` in `coord_direction`, or `None` if that
    /// voxel lies in a cell that has not been created yet.
    #[verifier::rlimit(100)]
    #[verifier::spinoff_prover]
    pub fn get_block_neighbor(
        &self,
        chunk: ChunkId,
        coords: Coords,
        coord_axis: CoordAxis,
        coord_direction: CoordDirection,
    ) -> (r: Option<(ChunkId, Coords)>)
        requires
            self.wf(),
            self.contains(chunk.node),
            self.spec_dimension() >= 1,
            coords.x < self.spec_dimension(),
            coords.y < self.spec_dimension(),
            coords.z < self.spec_dimension(),
        ensures
            r == block_neighbor_spec(
                self,
                chunk,
                coords,
                axis_index_spec(coord_axis),
                coord_direction,
            ),
            r is Some ==> self.contains((r->Some_0).0.node) && (r->Some_0).1.x
                < self.spec_dimension() && (r->Some_0).1.y < self.spec_dimension() && (
            r->Some_0).1.z < self.spec_dimension(),
    {
        let ghost ax = axis_index_spec(coord_axis);
        let ghost want = block_neighbor_spec(self, chunk, coords, ax, coord_direction);
        let dim = self.dimension();
        if coords.get(coord_axis) == dim - 1 && matches!(coord_direction, CoordDirection::Plus) {
            let new_vertex = chunk.vertex.adjacent_vertices()[coord_axis.index()];
            let new_coords = cross_vertex_coords(chunk.vertex, coord_axis, coords);
            let result = Some((ChunkId::new(chunk.node, new_vertex), new_coords));
            proof {
                assert(result == want);
            }
            result
        } else if coords.get(coord_axis) == 0 && matches!(coord_direction, CoordDirection::Minus) {
            let sides = chunk.vertex.canonical_sides();
            let result = match self.neighbor(chunk.node, sides[coord_axis.index()]) {
                Some(n) => Some((ChunkId::new(n, chunk.vertex), coords)),
                None => None,
            };
            proof {
                assert(result == want);
            }
            result
        } else {
            let cur = coords.get(coord_axis);
            let stepped = match coord_direction {
                CoordDirection::Plus => cur + 1,
                CoordDirection::Minus => cur - 1,
            };
            let mut new_coords = coords;
            new_coords.set(coord_axis, stepped);
            let result = Some((chunk, new_coords));
            proof {
                assert(result == want);
            }
            result
        }
    }

    /// Tries to clear the margins of the given chunk. Fails and returns false
    /// if the chunk is not populated yet. Succeeds without touching anything
    /// if the chunk is not solid, as its margins are then already meaningful.
    pub fn clear_solid_chunk_margin(&mut self, chunk: ChunkId) -> (r: bool)
        requires
            old(self).wf(),
            store_wf(old(self)),
            old(self).contains(chunk.node),
        ensures
            final(self).wf(),
            store_wf(final(self)),
            same_store_structure(final(self), old(self)),
            r == chunk_populated(old(self), chunk),
            forall|m: NodeId|
                old(self).contains(m) && m.idx() != chunk.node.idx()
                    ==> #[trigger] final(self).node_value(m) == old(self).node_value(m),
            old(self).node_value(chunk.node) is None ==> final(self).node_value(chunk.node)
                == old(self).node_value(chunk.node),
            old(self).node_value(chunk.node) is Some ==> {
                &&& chunk_margin_cleared_rel(
                    chunk_at(old(self), chunk),
                    chunk_at(final(self), chunk),
                    old(self).spec_dimension() as int,
                )
                &&& forall|k: int|
                    0 <= k < 20 && k != vertex_index_spec(chunk.vertex)
                        ==> final(self).node_value(chunk.node)->Some_0.chunks@[k]
                        == old(self).node_value(chunk.node)->Some_0.chunks@[k]
            },
    {
        let ghost pre = *old(self);
        let dimension = self.dimension();
        let populated = match self.get_chunk(chunk) {
            Some(c) => matches!(c, Chunk::Populated { .. }),
            None => false,
        };
        if !populated {
            return false;
        }
        let c = self.get_chunk_mut(chunk);
        match c {
            Chunk::Populated { voxels, modified: _, surface, old_surface } => {
                if voxels.is_solid() {
                    voxels.clear_margin(dimension);
                    let prev_surface = *surface;
                    *surface = None;
                    if prev_surface.is_some() {
                        *old_surface = prev_surface;
                    }
                }
            },
            _ => {
                proof {
                    assert(false);
                }
            },
        }
        proof {
            Graph::lemma_wf_same_structure(&pre, self);
            lemma_store_wf_after_chunk_write(&pre, self, chunk, chunk_at(self, chunk));
            lemma_same_store_structure_single_write(&pre, self, chunk.node);
        }
        true
    }

    /// Clears margins from any populated and solid chunk adjacent to `chunk`.
    /// Called when `chunk` is modified: its neighbors can no longer be
    /// assumed hidden by world generation, so their cached margins must go.
    pub fn clear_adjacent_solid_chunk_margins(&mut self, chunk: ChunkId)
        requires
            old(self).wf(),
            store_wf(old(self)),
            old(self).contains(chunk.node),
        ensures
            final(self).wf(),
            store_wf(final(self)),
            same_store_structure(final(self), old(self)),
            forall|c: ChunkId|
                old(self).contains(c.node) && (#[trigger] old(self).node_value(c.node)) is Some
                    ==> if neighbor_within(old(self), chunk, c, 6) {
                    chunk_margin_cleared_rel(
                        chunk_at(old(self), c),
                        chunk_at(final(self), c),
                        old(self).spec_dimension() as int,
                    )
                } else {
                    chunk_at(final(self), c) == chunk_at(old(self), c)
                },
    {
        let ghost pre = *old(self);
        let mut p: usize = 0;
        while p < 6
            invariant
                p <= 6,
                self.wf(),
                store_wf(self),
                pre.wf(),
                store_wf(&pre),
                pre.contains(chunk.node),
                self.contains(chunk.node),
                same_store_structure(self, &pre),
                forall|c: ChunkId|
                    pre.contains(c.node) && (#[trigger] pre.node_value(c.node)) is Some
                        ==> if neighbor_within(&pre, chunk, c, p as int) {
                        chunk_margin_cleared_rel(
                            chunk_at(&pre, c),
                            chunk_at(self, c),
                            pre.spec_dimension() as int,
                        )
                    } else {
                        chunk_at(self, c) == chunk_at(&pre, c)
                    },
            decreases 6 - p,
        {
            let axis = match CoordAxis::try_from(p / 2) {
                Ok(a) => a,
                Err(_) => {
                    proof {
                        assert(false);
                    }
                    unreached()
                },
            };
            let dir = if p % 2 == 0 {
                CoordDirection::Plus
            } else {
                CoordDirection::Minus
            };
            let ghost mid = *self;
            proof {
                lemma_face_neighbor_congruent(&pre, &mid, chunk, p as int);
            }
            match self.get_chunk_neighbor(chunk, axis, dir) {
                Some(cid) => {
                    let _ = self.clear_solid_chunk_margin(cid);
                    proof {
                        assert(face_neighbor(&pre, chunk, p as int) == Some(cid));
                        lemma_same_store_structure_trans(&pre, &mid, self);
                        assert forall|c: ChunkId|
                            pre.contains(c.node) && (#[trigger] pre.node_value(c.node))
                                is Some implies if neighbor_within(&pre, chunk, c, p as int + 1) {
                            chunk_margin_cleared_rel(
                                chunk_at(&pre, c),
                                chunk_at(self, c),
                                pre.spec_dimension() as int,
                            )
                        } else {
                            chunk_at(self, c) == chunk_at(&pre, c)
                        } by {
                            if c == cid {
                                assert(neighbor_within(&pre, chunk, c, p as int + 1)) by {
                                    assert(face_neighbor(&pre, chunk, p as int) == Some(c));
                                }
                                assert(mid.node_value(cid.node) is Some);
                                if neighbor_within(&pre, chunk, c, p as int) {
                                    lemma_margin_clear_idempotent(
                                        chunk_at(&pre, c),
                                        chunk_at(&mid, c),
                                        chunk_at(self, c),
                                        pre.spec_dimension() as int,
                                    );
                                } else {
                                    assert(chunk_at(&mid, c) == chunk_at(&pre, c));
                                }
                            } else {
                                // A different chunk: the clearing touched only
                                // `cid`'s slot of `cid`'s cell.
                                assert(chunk_at(self, c) == chunk_at(&mid, c)) by {
                                    if c.node.idx() != cid.node.idx() {
                                        assert(self.node_value(c.node) == mid.node_value(c.node));
                                    } else {
                                        crate::graph::lemma_node_id_injective(c.node, cid.node);
                                        assert(vertex_index_spec(c.vertex) != vertex_index_spec(
                                            cid.vertex,
                                        ));
                                    }
                                }
                                if neighbor_within(&pre, chunk, c, p as int + 1) {
                                    let q = choose|q: int|
                                        0 <= q < p as int + 1 && face_neighbor(&pre, chunk, q)
                                            == Some(c);
                                    assert(q < p as int);
                                    assert(neighbor_within(&pre, chunk, c, p as int));
                                }
                            }
                        }
                    }
                },
                None => {
                    proof {
                        assert(face_neighbor(&pre, chunk, p as int) is None);
                        assert forall|c: ChunkId|
                            pre.contains(c.node) && (#[trigger] pre.node_value(c.node))
                                is Some implies if neighbor_within(&pre, chunk, c, p as int + 1) {
                            chunk_margin_cleared_rel(
                                chunk_at(&pre, c),
                                chunk_at(self, c),
                                pre.spec_dimension() as int,
                            )
                        } else {
                            chunk_at(self, c) == chunk_at(&pre, c)
                        } by {
                            if neighbor_within(&pre, chunk, c, p as int + 1) {
                                let q = choose|q: int|
                                    0 <= q < p as int + 1 && face_neighbor(&pre, chunk, q) == Some(
                                        c,
                                    );
                                assert(q < p as int);
                                assert(neighbor_within(&pre, chunk, c, p as int));
                            }
                        }
                    }
                },
            }
            p = p + 1;
        }
    }

    /// Populates a chunk with the given voxel data. Because margins cache
    /// neighboring data, a solid payload arriving next to an already modified
    /// chunk gets its margin cleared, and committing modified data clears the
    /// margins of adjacent solid chunks.
    pub fn populate_chunk(&mut self, chunk: ChunkId, new_data: VoxelData, modified: bool)
        requires
            old(self).wf(),
            store_wf(old(self)),
            old(self).contains(chunk.node),
            old(self).node_value(chunk.node) is Some,
            voxel_data_wf(new_data, old(self).spec_dimension() as int),
        ensures
            final(self).wf(),
            store_wf(final(self)),
            same_store_structure(final(self), old(self)),
            chunk_at(final(self), chunk) is Populated,
            chunk_at(final(self), chunk)->Populated_modified == modified,
            chunk_at(final(self), chunk)->Populated_surface is None,
            chunk_at(final(self), chunk)->Populated_old_surface is None,
            (new_data is Solid && has_modified_neighbor(old(self), chunk)) ==> (chunk_at(
                final(self),
                chunk,
            )->Populated_voxels matches VoxelData::Dense(d) && d@ == margin_cleared(
                new_data,
                old(self).spec_dimension() as int,
            )),
            !(new_data is Solid && has_modified_neighbor(old(self), chunk)) ==> chunk_at(
                final(self),
                chunk,
            )->Populated_voxels == new_data,
            forall|c: ChunkId|
                old(self).contains(c.node) && (#[trigger] old(self).node_value(c.node)) is Some
                    && c != chunk ==> if modified && neighbor_within(old(self), chunk, c, 6) {
                    chunk_margin_cleared_rel(
                        chunk_at(old(self), c),
                        chunk_at(final(self), c),
                        old(self).spec_dimension() as int,
                    )
                } else {
                    chunk_at(final(self), c) == chunk_at(old(self), c)
                },
    {
        let ghost pre = *old(self);
        let dimension = self.dimension();
        let mut data = new_data;
        // A solid payload next to an already modified chunk must not trust
        // the margin world generation gave it.
        if data.is_solid() {
            let mut found = false;
            let mut p: usize = 0;
            while p < 6
                invariant
                    p <= 6,
                    *self == pre,
                    pre.wf(),
                    store_wf(&pre),
                    pre.contains(chunk.node),
                    found == exists|q: int| 0 <= q < p && #[trigger] face_has_modified(&pre, chunk, q),
                decreases 6 - p,
            {
                let axis = match CoordAxis::try_from(p / 2) {
                    Ok(a) => a,
                    Err(_) => {
                        proof {
                            assert(false);
                        }
                        unreached()
                    },
                };
                let dir = if p % 2 == 0 {
                    CoordDirection::Plus
                } else {
                    CoordDirection::Minus
                };
                match self.get_chunk_neighbor(chunk, axis, dir) {
                    Some(cid) => {
                        match self.get_chunk(cid) {
                            Some(c) => {
                                if matches!(c, Chunk::Populated { modified: true, .. }) {
                                    found = true;
                                    proof {
                                        assert(face_has_modified(&pre, chunk, p as int));
                                    }
                                }
                            },
                            None => {},
                        }
                    },
                    None => {},
                }
                proof {
                    if found && !(exists|q: int|
                        0 <= q < p && #[trigger] face_has_modified(&pre, chunk, q)) {
                        assert(face_has_modified(&pre, chunk, p as int));
                    }
                }
                p = p + 1;
            }
            if found {
                data.clear_margin(dimension);
            }
        }
        // Committing modified data invalidates the margins neighbors cached.
        if modified {
            self.clear_adjacent_solid_chunk_margins(chunk);
        }
        let ghost mid = *self;
        let c = self.get_chunk_mut(chunk);
        *c = Chunk::Populated { voxels: data, modified, surface: None, old_surface: None };
        proof {
            Graph::lemma_wf_same_structure(&mid, self);
            lemma_store_wf_after_chunk_write(&mid, self, chunk, chunk_at(self, chunk));
            lemma_same_store_structure_single_write(&mid, self, chunk.node);
            lemma_same_store_structure_trans(&pre, &mid, self);
            assert forall|c2: ChunkId|
                pre.contains(c2.node) && (#[trigger] pre.node_value(c2.node)) is Some && c2
                    != chunk implies if modified && neighbor_within(&pre, chunk, c2, 6) {
                chunk_margin_cleared_rel(
                    chunk_at(&pre, c2),
                    chunk_at(self, c2),
                    pre.spec_dimension() as int,
                )
            } else {
                chunk_at(self, c2) == chunk_at(&pre, c2)
            } by {
                assert(chunk_at(self, c2) == chunk_at(&mid, c2)) by {
                    if c2.node.idx() != chunk.node.idx() {
                        assert(self.node_value(c2.node) == mid.node_value(c2.node));
                    } else {
                        crate::graph::lemma_node_id_injective(c2.node, chunk.node);
                        assert(vertex_index_spec(c2.vertex) != vertex_index_spec(chunk.vertex));
                    }
                }
            }
        }
    }

    /// Tries to update the block at the given position to the given material.
    /// Fails and returns false, leaving everything untouched, if the chunk is
    /// not populated yet; the caller may retry after generation catches up.
    #[must_use]
    pub fn update_block(&mut self, block_update: &BlockUpdate) -> (r: bool)
        requires
            old(self).wf(),
            store_wf(old(self)),
            old(self).contains(block_update.chunk_id.node),
            block_update.coords.x < old(self).spec_dimension(),
            block_update.coords.y < old(self).spec_dimension(),
            block_update.coords.z < old(self).spec_dimension(),
        ensures
            final(self).wf(),
            store_wf(final(self)),
            r == chunk_populated(old(self), block_update.chunk_id),
            !r ==> *final(self) == *old(self),
            r ==> same_store_structure(final(self), old(self)),
            r ==> ({
                let c = chunk_at(final(self), block_update.chunk_id);
                let old_c = chunk_at(old(self), block_update.chunk_id);
                let dim = old(self).spec_dimension() as int;
                &&& c is Populated
                &&& c->Populated_modified == true
                &&& c->Populated_surface is None
                &&& c->Populated_old_surface == (if old_c->Populated_surface is Some {
                    old_c->Populated_surface
                } else {
                    old_c->Populated_old_surface
                })
                &&& c->Populated_voxels matches VoxelData::Dense(d) && d@ == (if old_c
                    ->Populated_voxels is Solid {
                    margin_cleared(old_c->Populated_voxels, dim)
                } else {
                    old_c->Populated_voxels->Dense_0@
                }).update(voxel_index_spec(block_update.coords, dim), block_update.new_material)
            }),
            r ==> forall|c: ChunkId|
                old(self).contains(c.node) && (#[trigger] old(self).node_value(c.node)) is Some
                    && c != block_update.chunk_id ==> if neighbor_within(
                    old(self),
                    block_update.chunk_id,
                    c,
                    6,
                ) {
                    chunk_margin_cleared_rel(
                        chunk_at(old(self), c),
                        chunk_at(final(self), c),
                        old(self).spec_dimension() as int,
                    )
                } else {
                    chunk_at(final(self), c) == chunk_at(old(self), c)
                },
    {
        let ghost pre = *old(self);
        let dimension = self.dimension();
        let chunk_id = block_update.chunk_id;
        let populated = match self.get_chunk(chunk_id) {
            Some(c) => matches!(c, Chunk::Populated { .. }),
            None => false,
        };
        if !populated {
            return false;
        }
        let ghost mut mid_voxels: VoxelData = VoxelData::Solid(Material::Void);
        let ghost mut base_seq: Seq<Material> = Seq::empty();
        let c = self.get_chunk_mut(chunk_id);
        match c {
            Chunk::Populated { voxels, modified, surface, old_surface } => {
                if voxels.is_solid() {
                    voxels.clear_margin(dimension);
                }
                proof {
                    mid_voxels = *voxels;
                }
                let data = voxels.data_mut(dimension);
                proof {
                    base_seq = data@;
                }
                let idx = block_update.coords.to_index(dimension);
                data[idx] = block_update.new_material;
                *modified = true;
                let prev_surface = *surface;
                *surface = None;
                if prev_surface.is_some() {
                    *old_surface = prev_surface;
                }
            },
            _ => {
                proof {
                    assert(false);
                }
            },
        }
        proof {
            Graph::lemma_wf_same_structure(&pre, self);
            let dim = pre.spec_dimension() as int;
            let old_c = chunk_at(&pre, chunk_id);
            assert(spec_node_wf(pre.node_value(chunk_id.node)->Some_0, dim));
            assert(chunk_wf(old_c, dim));
            let base = if old_c->Populated_voxels is Solid {
                margin_cleared(old_c->Populated_voxels, dim)
            } else {
                old_c->Populated_voxels->Dense_0@
            };
            let idx = voxel_index_spec(block_update.coords, dim);
            assert(chunk_at(self, chunk_id) is Populated);
            assert(chunk_at(self, chunk_id)->Populated_voxels is Dense);
            let d = chunk_at(self, chunk_id)->Populated_voxels->Dense_0@;
            assert(base.len() == padded_len(dim));
            assert(d.len() == padded_len(dim));
            assert(0 <= idx < padded_len(dim));
            assert(d[idx] == block_update.new_material);
            assert(d == base_seq.update(idx, block_update.new_material));
            assert forall|i: int| 0 <= i < padded_len(dim) && i != idx implies #[trigger] d[i]
                == base[i] by {
                assert(base_seq[i] == spec_voxel_get(mid_voxels, i));
                if old_c->Populated_voxels is Solid {
                    assert(mid_voxels is Dense);
                    assert(mid_voxels->Dense_0@ == margin_cleared(old_c->Populated_voxels, dim));
                } else {
                    assert(mid_voxels == old_c->Populated_voxels);
                }
            }
            assert(d =~= base.update(idx, block_update.new_material));
            lemma_store_wf_after_chunk_write(&pre, self, chunk_id, chunk_at(self, chunk_id));
            lemma_same_store_structure_single_write(&pre, self, chunk_id.node);
        }
        let ghost mid = *self;
        self.clear_adjacent_solid_chunk_margins(chunk_id);
        proof {
            lemma_same_store_structure_trans(&pre, &mid, self);
            lemma_face_neighbor_not_self(&mid, chunk_id, pair_axis(0));
            assert(chunk_at(self, chunk_id) == chunk_at(&mid, chunk_id)) by {
                assert forall|q: int| 0 <= q < 6 implies face_neighbor(&mid, chunk_id, q) != Some(
                    chunk_id,
                ) by {
                    lemma_face_neighbor_not_self(&mid, chunk_id, q);
                }
                assert(!neighbor_within(&mid, chunk_id, chunk_id, 6));
            }
            assert forall|c2: ChunkId|
                pre.contains(c2.node) && (#[trigger] pre.node_value(c2.node)) is Some && c2
                    != chunk_id implies if neighbor_within(&pre, chunk_id, c2, 6) {
                chunk_margin_cleared_rel(
                    chunk_at(&pre, c2),
                    chunk_at(self, c2),
                    pre.spec_dimension() as int,
                )
            } else {
                chunk_at(self, c2) == chunk_at(&pre, c2)
            } by {
                lemma_neighbor_within_congruent(&pre, &mid, chunk_id, c2, 6);
                assert(mid.node_value(c2.node) is Some);
                assert(chunk_at(&mid, c2) == chunk_at(&pre, c2)) by {
                    if c2.node.idx() != chunk_id.node.idx() {
                        assert(mid.node_value(c2.node) == pre.node_value(c2.node));
                    } else {
                        crate::graph::lemma_node_id_injective(c2.node, chunk_id.node);
                        assert(vertex_index_spec(c2.vertex) != vertex_index_spec(chunk_id.vertex));
                    }
                }
            }
        }
        true
    }
}

/// Lexicographically ordered coordinate triples have strictly increasing
/// linearizations.
proof fn lemma_lex_index_order(i2: int, j2: int, k2: int, i: int, j: int, k: int, c1: int, c2: int)
    requires
        c1 > 0,
        c2 > 0,
        0 <= j2 < c1,
        0 <= k2 < c2,
        0 <= j < c1,
        0 <= k < c2,
        0 <= i2,
        0 <= i,
        i2 < i || (i2 == i && (j2 < j || (j2 == j && k2 < k))),
    ensures
        (i2 * c1 + j2) * c2 + k2 < (i * c1 + j) * c2 + k,
{
    assert((i2 * c1 + j2) * c2 + k2 < (i * c1 + j) * c2 + k) by (nonlinear_arith)
        requires
            c1 > 0,
            c2 > 0,
            0 <= j2 < c1,
            0 <= k2 < c2,
            0 <= j < c1,
            0 <= k < c2,
            0 <= i2,
            0 <= i,
            i2 < i || (i2 == i && (j2 < j || (j2 == j && k2 < k))),
    ;
}

/// A discretized region of a chunk's voxel grid, given by an axis-aligned
/// bounding box over grid coordinates. The bounds include the one-voxel
/// margins, so a box can reach one step past the chunk on every side, which
/// is how boundary-crossing collisions are noticed.
pub struct VoxelAABB {
    mins: [u8; 3],
    maxes: [u8; 3],
}

impl VoxelAABB {
    /// Lower bound (inclusive) on the given axis.
    pub closed spec fn spec_min(&self, axis: int) -> u8 {
        self.mins[axis]
    }

    /// Upper bound (exclusive) on the given axis.
    pub closed spec fn spec_max(&self, axis: int) -> u8 {
        self.maxes[axis]
    }

    /// Number of grid values the box spans on the given axis.
    pub open spec fn spec_count(&self, axis: int) -> int {
        self.spec_max(axis) - self.spec_min(axis)
    }

    /// Whether the bounds are ordered: every axis spans a (possibly empty)
    /// range.
    pub open spec fn bounds_ok(&self) -> bool {
        forall|a: int| 0 <= a < 3 ==> #[trigger] self.spec_min(a) <= self.spec_max(a)
    }

    /// Builds a box from per-axis bounds, or `None` if some bound is out of
    /// order or reaches past the padded grid of a chunk of size `dimension`.
    pub fn new(mins: [u8; 3], maxes: [u8; 3], dimension: u8) -> (r: Option<VoxelAABB>)
        ensures
            r is Some <==> (forall|i: int|
                0 <= i < 3 ==> #[trigger] mins[i] <= maxes[i] && maxes[i] <= dimension + 1),
            r is Some ==> r->Some_0.bounds_ok(),
            r is Some ==> forall|i: int|
                0 <= i < 3 ==> r->Some_0.spec_min(i) == mins[i] && r->Some_0.spec_max(i)
                    == maxes[i],
    {
        let mut i: usize = 0;
        let mut ok = true;
        while i < 3
            invariant
                i <= 3,
                ok == (forall|j: int|
                    0 <= j < i ==> #[trigger] mins[j] <= maxes[j] && maxes[j] as int <= dimension
                        + 1),
            decreases 3 - i,
        {
            if !(mins[i] <= maxes[i] && maxes[i] as usize <= dimension as usize + 1) {
                ok = false;
            }
            i = i + 1;
        }
        if ok {
            Some(VoxelAABB { mins, maxes })
        } else {
            None
        }
    }

    /// All grid points of the region, as triples ordered by the given axis
    /// permutation (first axis slowest).
    pub fn grid_points(&self, axis0: usize, axis1: usize, axis2: usize) -> (r: Vec<(u8, u8, u8)>)
        requires
            self.bounds_ok(),
            axis0 < 3,
            axis1 < 3,
            axis2 < 3,
        ensures
            r@.len() == self.spec_count(axis0 as int) * self.spec_count(axis1 as int)
                * self.spec_count(axis2 as int),
            forall|i: int, j: int, k: int|
                0 <= i < self.spec_count(axis0 as int) && 0 <= j < self.spec_count(axis1 as int)
                    && 0 <= k < self.spec_count(axis2 as int) ==> #[trigger] r@[(i
                    * self.spec_count(axis1 as int) + j) * self.spec_count(axis2 as int) + k] == ((
                self.spec_min(axis0 as int) + i) as u8, (self.spec_min(axis1 as int) + j) as u8, (
                self.spec_min(axis2 as int) + k) as u8),
    {
        let min0 = self.mins[axis0];
        let max0 = self.maxes[axis0];
        let min1 = self.mins[axis1];
        let max1 = self.maxes[axis1];
        let min2 = self.mins[axis2];
        let max2 = self.maxes[axis2];
        let ghost c0 = self.spec_count(axis0 as int);
        let ghost c1 = self.spec_count(axis1 as int);
        let ghost c2 = self.spec_count(axis2 as int);
        let mut r: Vec<(u8, u8, u8)> = Vec::new();
        if min0 == max0 || min1 == max1 || min2 == max2 {
            proof {
                assert(c0 * c1 * c2 == 0) by (nonlinear_arith)
                    requires
                        c0 == 0 || c1 == 0 || c2 == 0,
                ;
            }
            return r;
        }
        let mut i = min0;
        let mut j = min1;
        let mut k = min2;
        let mut done = false;
        proof {
            assert(((i - min0) * c1 + (j - min1)) * c2 + (k - min2) == 0) by (nonlinear_arith)
                requires
                    i == min0 && j == min1 && k == min2,
            ;
        }
        while !done
            invariant
                min0 == self.spec_min(axis0 as int) && max0 == self.spec_max(axis0 as int),
                min1 == self.spec_min(axis1 as int) && max1 == self.spec_max(axis1 as int),
                min2 == self.spec_min(axis2 as int) && max2 == self.spec_max(axis2 as int),
                c0 == max0 - min0 && c1 == max1 - min1 && c2 == max2 - min2,
                c0 > 0 && c1 > 0 && c2 > 0,
                !done ==> min0 <= i < max0 && min1 <= j < max1 && min2 <= k < max2,
                !done ==> r@.len() == ((i - min0) * c1 + (j - min1)) * c2 + (k - min2),
                done ==> r@.len() == c0 * c1 * c2,
                forall|i2: int, j2: int, k2: int|
                    0 <= i2 < c0 && 0 <= j2 < c1 && 0 <= k2 < c2 && (done || (i2 < i - min0 || (i2
                        == i - min0 && (j2 < j - min1 || (j2 == j - min1 && k2 < k - min2)))))
                        ==> #[trigger] r@[(i2 * c1 + j2) * c2 + k2] == ((min0 + i2) as u8, (min1
                        + j2) as u8, (min2 + k2) as u8),
            decreases (max0 - i), (max1 - j), (max2 - k), (if done { 0int } else { 1int }),
        {
            let ghost oi = i - min0;
            let ghost oj = j - min1;
            let ghost ok2 = k - min2;
            let ghost rold = r@;
            r.push((i, j, k));
            if k + 1 < max2 {
                k = k + 1;
            } else if j + 1 < max1 {
                k = min2;
                j = j + 1;
                proof {
                    assert(((i - min0) * c1 + (j - min1 - 1)) * c2 + c2 == ((i - min0) * c1 + (j
                        - min1)) * c2) by (nonlinear_arith);
                }
            } else if i + 1 < max0 {
                k = min2;
                j = min1;
                i = i + 1;
                proof {
                    assert(((i - min0 - 1) * c1 + (c1 - 1)) * c2 + c2 == ((i - min0) * c1) * c2)
                        by (nonlinear_arith);
                }
            } else {
                done = true;
                proof {
                    assert(((c0 - 1) * c1 + (c1 - 1)) * c2 + c2 == c0 * c1 * c2)
                        by (nonlinear_arith);
                }
            }
            proof {
                assert forall|i2: int, j2: int, k2: int|
                    0 <= i2 < c0 && 0 <= j2 < c1 && 0 <= k2 < c2 && (done || (i2 < i - min0 || (i2
                        == i - min0 && (j2 < j - min1 || (j2 == j - min1 && k2 < k
                        - min2))))) implies #[trigger] r@[(i2 * c1 + j2) * c2 + k2] == ((min0
                    + i2) as u8, (min1 + j2) as u8, (min2 + k2) as u8) by {
                    if i2 == oi && j2 == oj && k2 == ok2 {
                        assert((i2 * c1 + j2) * c2 + k2 == rold.len());
                    } else if i2 < oi || (i2 == oi && (j2 < oj || (j2 == oj && k2 < ok2))) {
                        lemma_lex_index_order(i2, j2, k2, oi, oj, ok2, c1, c2);
                        assert((i2 * c1 + j2) * c2 + k2 < rold.len());
                        assert(rold[(i2 * c1 + j2) * c2 + k2] == ((min0 + i2) as u8, (min1
                            + j2) as u8, (min2 + k2) as u8));
                    } else {
                        // Every triple newly admitted by the advanced cursor
                        // is the one just pushed.
                        assert(false);
                    }
                }
            }
        }
        r
    }

    /// All grid lines of the region along the remaining axis, as pairs of
    /// the two fixed coordinates (first axis slowest).
    pub fn grid_lines(&self, axis0: usize, axis1: usize) -> (r: Vec<(u8, u8)>)
        requires
            self.bounds_ok(),
            axis0 < 3,
            axis1 < 3,
        ensures
            r@.len() == self.spec_count(axis0 as int) * self.spec_count(axis1 as int),
            forall|i: int, j: int|
                0 <= i < self.spec_count(axis0 as int) && 0 <= j < self.spec_count(axis1 as int)
                    ==> #[trigger] r@[i * self.spec_count(axis1 as int) + j] == ((self.spec_min(
                    axis0 as int,
                ) + i) as u8, (self.spec_min(axis1 as int) + j) as u8),
    {
        let min0 = self.mins[axis0];
        let max0 = self.maxes[axis0];
        let min1 = self.mins[axis1];
        let max1 = self.maxes[axis1];
        let ghost c0 = self.spec_count(axis0 as int);
        let ghost c1 = self.spec_count(axis1 as int);
        let mut r: Vec<(u8, u8)> = Vec::new();
        if min0 == max0 || min1 == max1 {
            proof {
                assert(c0 * c1 == 0) by (nonlinear_arith)
                    requires
                        c0 == 0 || c1 == 0,
                ;
            }
            return r;
        }
        let mut i = min0;
        let mut j = min1;
        let mut done = false;
        while !done
            invariant
                min0 == self.spec_min(axis0 as int) && max0 == self.spec_max(axis0 as int),
                min1 == self.spec_min(axis1 as int) && max1 == self.spec_max(axis1 as int),
                c0 == max0 - min0 && c1 == max1 - min1,
                c0 > 0 && c1 > 0,
                !done ==> min0 <= i < max0 && min1 <= j < max1,
                !done ==> r@.len() == (i - min0) * c1 + (j - min1),
                done ==> r@.len() == c0 * c1,
                forall|i2: int, j2: int|
                    0 <= i2 < c0 && 0 <= j2 < c1 && (done || (i2 < i - min0 || (i2 == i - min0 && j2
                        < j - min1))) ==> #[trigger] r@[i2 * c1 + j2] == ((min0 + i2) as u8, (min1
                        + j2) as u8),
            decreases (max0 - i), (max1 - j), (if done { 0int } else { 1int }),
        {
            let ghost oi = i - min0;
            let ghost oj = j - min1;
            let ghost rold = r@;
            r.push((i, j));
            if j + 1 < max1 {
                j = j + 1;
            } else if i + 1 < max0 {
                j = min1;
                i = i + 1;
                proof {
                    assert((i - min0 - 1) * c1 + (c1 - 1) + 1 == (i - min0) * c1)
                        by (nonlinear_arith);
                }
            } else {
                done = true;
                proof {
                    assert((c0 - 1) * c1 + (c1 - 1) + 1 == c0 * c1) by (nonlinear_arith);
                }
            }
            proof {
                assert forall|i2: int, j2: int|
                    0 <= i2 < c0 && 0 <= j2 < c1 && (done || (i2 < i - min0 || (i2 == i - min0 && j2
                        < j - min1))) implies #[trigger] r@[i2 * c1 + j2] == ((min0 + i2) as u8, (
                    min1 + j2) as u8) by {
                    if i2 == oi && j2 == oj {
                        assert(i2 * c1 + j2 == rold.len());
                    } else if i2 < oi || (i2 == oi && j2 < oj) {
                        assert(i2 * c1 + j2 < rold.len()) by (nonlinear_arith)
                            requires
                                c1 > 0,
                                0 <= j2 < c1,
                                0 <= oj < c1,
                                0 <= i2,
                                0 <= oi,
                                rold.len() == oi * c1 + oj,
                                i2 < oi || (i2 == oi && j2 < oj),
                        ;
                        assert(rold[i2 * c1 + j2] == ((min0 + i2) as u8, (min1 + j2) as u8));
                    } else {
                        assert(false);
                    }
                }
            }
        }
        r
    }

    /// All grid planes of the region perpendicular to the given axis, as
    /// their fixed coordinates in ascending order.
    pub fn grid_planes(&self, axis: usize) -> (r: Vec<u8>)
        requires
            self.bounds_ok(),
            axis < 3,
        ensures
            r@.len() == self.spec_count(axis as int),
            forall|i: int|
                0 <= i < self.spec_count(axis as int) ==> #[trigger] r@[i] == (self.spec_min(
                    axis as int,
                ) + i) as u8,
    {
        let min0 = self.mins[axis];
        let max0 = self.maxes[axis];
        proof {
            assert(min0 == self.spec_min(axis as int));
            assert(max0 == self.spec_max(axis as int));
            assert(self.spec_min(axis as int) <= self.spec_max(axis as int));
        }
        let mut r: Vec<u8> = Vec::new();
        let mut a = min0;
        while a < max0
            invariant
                min0 <= a <= max0,
                min0 == self.spec_min(axis as int) && max0 == self.spec_max(axis as int),
                r@.len() == a - min0,
                forall|i: int| 0 <= i < (a - min0) ==> #[trigger] r@[i] == (min0 + i) as u8,
            decreases max0 - a,
        {
            r.push(a);
            a = a + 1;
        }
        r
    }
}

/// The generation state a node inherits: its parent's state transformed by
/// the crossed side, or the root state where no populated parent exists.
pub open spec fn derived_state(g: &Graph, n: NodeId) -> NodeState {
    match g.spec_parent(n) {
        Some(side) => match g.spec_neighbor(n, side) {
            Some(p) => if g.node_value(p) is Some {
                spec_child_state(g.node_value(p)->Some_0.state, side)
            } else {
                spec_root_state()
            },
            None => spec_root_state(),
        },
        None => spec_root_state(),
    }
}

/// Whether `n` carries a freshly derived payload in `g`: populated, with the
/// state its discovery path dictates and all chunks still unloaded.
pub open spec fn freshly_populated(g: &Graph, n: NodeId) -> bool {
    &&& g.node_value(n) is Some
    &&& g.node_value(n)->Some_0.state == derived_state(g, n)
    &&& g.node_value(n)->Some_0.chunks@.len() == 20
    &&& forall|k: int| 0 <= k < 20 ==> (#[trigger] g.node_value(n)->Some_0.chunks@[k]) is Fresh
}

/// Installs the payload of one node: generation state derived from its
/// parent, all chunks fresh. Population is deterministic given the graph, so
/// repeating it is harmless.
pub fn populate_node(graph: &mut Graph, node: NodeId)
    requires
        old(graph).wf(),
        store_wf(old(graph)),
        old(graph).contains(node),
    ensures
        final(graph).wf(),
        store_wf(final(graph)),
        final(graph).len() == old(graph).len(),
        final(graph).spec_dimension() == old(graph).spec_dimension(),
        final(graph).spec_fresh() == old(graph).spec_fresh(),
        forall|m: NodeId, s: Side|
            old(graph).contains(m) ==> #[trigger] final(graph).spec_neighbor(m, s)
                == old(graph).spec_neighbor(m, s),
        forall|m: NodeId|
            old(graph).contains(m) ==> #[trigger] final(graph).spec_parent(m)
                == old(graph).spec_parent(m),
        forall|m: NodeId|
            old(graph).contains(m) ==> #[trigger] final(graph).spec_length(m)
                == old(graph).spec_length(m),
        forall|m: NodeId|
            old(graph).contains(m) && m.idx() != node.idx()
                ==> #[trigger] final(graph).node_value(m) == old(graph).node_value(m),
        freshly_populated(final(graph), node),
{
    let ghost pre = *old(graph);
    let state = match graph.parent(node) {
        Some(side) => match graph.neighbor(node, side) {
            Some(p) => match graph.get(p) {
                Some(parent_node) => parent_node.state.child(side),
                None => NodeState::root(),
            },
            None => NodeState::root(),
        },
        None => NodeState::root(),
    };
    let fresh_node = Node::new(state);
    let value = graph.get_mut(node);
    *value = Some(fresh_node);
    proof {
        Graph::lemma_wf_same_structure(&pre, graph);
        assert forall|n2: NodeId|
            graph.contains(n2) && (#[trigger] graph.node_value(n2)) is Some implies spec_node_wf(
            graph.node_value(n2)->Some_0,
            graph.spec_dimension() as int,
        ) by {
            if n2.idx() == node.idx() {
                crate::graph::lemma_node_id_injective(n2, node);
            } else {
                assert(pre.node_value(n2) is Some);
            }
        }
        assert(derived_state(graph, node) == derived_state(&pre, node)) by {
            match pre.spec_parent(node) {
                Some(side) => {
                    match pre.spec_neighbor(node, side) {
                        Some(p) => {
                            if node.idx() >= 1 {
                                pre.lemma_discovery_order(node);
                            }
                            if p.idx() != node.idx() {
                                assert(graph.node_value(p) == pre.node_value(p));
                            } else {
                                pre.lemma_neighbor_props(node, side);
                            }
                        },
                        None => {},
                    }
                },
                None => {},
            }
        }
    }
}

/// Ensures that every node created since the last population pass carries a
/// payload and is ready for chunk generation. Parents are always queued
/// before their children, so each fresh node finds its parent's state
/// settled by the time it is populated.
pub fn populate_fresh_nodes(graph: &mut Graph)
    requires
        old(graph).wf(),
        store_wf(old(graph)),
    ensures
        final(graph).wf(),
        store_wf(final(graph)),
        final(graph).len() == old(graph).len(),
        final(graph).spec_dimension() == old(graph).spec_dimension(),
        final(graph).spec_fresh().len() == 0,
        forall|m: NodeId, s: Side|
            old(graph).contains(m) ==> #[trigger] final(graph).spec_neighbor(m, s)
                == old(graph).spec_neighbor(m, s),
        forall|m: NodeId|
            old(graph).contains(m) ==> #[trigger] final(graph).spec_parent(m)
                == old(graph).spec_parent(m),
        forall|m: NodeId|
            old(graph).contains(m) && (forall|k: int|
                0 <= k < old(graph).spec_fresh().len() ==> (#[trigger] old(
                    graph,
                ).spec_fresh()[k]).idx() != m.idx()) ==> final(graph).node_value(m) == old(
                graph,
            ).node_value(m),
        forall|k: int|
            0 <= k < old(graph).spec_fresh().len() ==> freshly_populated(
                final(graph),
                #[trigger] old(graph).spec_fresh()[k],
            ),
{
    let ghost pre = *old(graph);
    let fresh = graph.fresh();
    graph.clear_fresh();
    let mut i: usize = 0;
    while i < fresh.len()
        invariant
            i <= fresh@.len(),
            fresh@ == pre.spec_fresh(),
            pre.wf(),
            graph.wf(),
            store_wf(graph),
            graph.len() == pre.len(),
            graph.spec_dimension() == pre.spec_dimension(),
            graph.spec_fresh().len() == 0,
            forall|m: NodeId, s: Side|
                pre.contains(m) ==> #[trigger] graph.spec_neighbor(m, s) == pre.spec_neighbor(
                    m,
                    s,
                ),
            forall|m: NodeId|
                pre.contains(m) ==> #[trigger] graph.spec_parent(m) == pre.spec_parent(m),
            forall|m: NodeId|
                pre.contains(m) ==> #[trigger] graph.spec_length(m) == pre.spec_length(m),
            forall|m: NodeId|
                pre.contains(m) && (forall|k: int|
                    0 <= k < i ==> (#[trigger] fresh@[k]).idx() != m.idx())
                    ==> graph.node_value(m) == pre.node_value(m),
            forall|k: int| 0 <= k < i ==> freshly_populated(graph, #[trigger] fresh@[k]),
        decreases fresh@.len() - i,
    {
        let node = fresh[i];
        proof {
            pre.lemma_fresh_valid(i as int);
            assert(pre.spec_fresh()[i as int] == node);
        }
        let ghost before = *graph;
        populate_node(graph, node);
        proof {
            assert forall|k: int| 0 <= k < i + 1 implies freshly_populated(
                graph,
                #[trigger] fresh@[k],
            ) by {
                if k < i {
                    let n2 = fresh@[k];
                    pre.lemma_fresh_valid(k);
                    pre.lemma_fresh_sorted(k, i as int);
                    assert(n2.idx() < node.idx());
                    assert(graph.node_value(n2) == before.node_value(n2));
                    if n2.idx() == 0 {
                        before.lemma_root_parent(n2);
                    } else {
                        match before.spec_parent(n2) {
                            Some(side) => {
                                match before.spec_neighbor(n2, side) {
                                    Some(p) => {
                                        before.lemma_discovery_order(n2);
                                        before.lemma_neighbor_props(n2, side);
                                        assert(before.contains(p));
                                        assert(p.idx() < n2.idx());
                                        assert(p.idx() != node.idx());
                                        assert(graph.node_value(p) == before.node_value(p));
                                    },
                                    None => {},
                                }
                            },
                            None => {},
                        }
                    }
                    assert(derived_state(graph, n2) == derived_state(&before, n2));
                } else {
                    assert(fresh@[k] == node);
                }
            }
            assert forall|m: NodeId|
                pre.contains(m) && (forall|k: int|
                    0 <= k < i + 1 ==> (#[trigger] fresh@[k]).idx() != m.idx()) implies
                graph.node_value(m) == pre.node_value(m) by {
                assert(m.idx() != node.idx());
                assert(forall|k: int| 0 <= k < i ==> (#[trigger] fresh@[k]).idx() != m.idx());
                assert(before.node_value(m) == pre.node_value(m));
            }
        }
        i = i + 1;
    }
}

} // verus!
