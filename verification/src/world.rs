//! Voxel materials.

use vstd::prelude::*;

verus! {

/// The material filling one voxel. `Void` is empty space; everything else is
/// solid matter that a swept sphere can collide with.
#[derive(Clone, Copy, Debug, PartialEq, Eq, Structural)]
pub enum Material {
    Void,
    Dirt,
    Sand,
    Stone,
}

impl Material {
    /// Whether a sphere cast treats this material as an obstacle.
    pub fn is_opaque(self) -> (r: bool)
        ensures
            r == (self != Material::Void),
    {
        !matches!(self, Material::Void)
    }
}

} // verus!
