use vstd::prelude::*;

verus! {

/// The closed set of tile materials. `Empty` is passable; every other
/// material stops a ray. `OutOfBounds` is what a grid query returns for
/// any coordinate outside the grid extent, and it is opaque, so the world
/// always has a solid border.
#[derive(Clone, Copy, Debug, PartialEq, Eq, Structural)]
pub enum Material {
    Empty,
    SolidWall,
    BrickWall,
    StoneWall,
    WoodWall,
    OutOfBounds,
}

impl Material {
    /// True of every material that stops a ray.
    pub open spec fn spec_is_opaque(self) -> bool {
        self != Material::Empty
    }

    /// Whether a ray stops in a cell of this material.
    pub fn is_opaque(self) -> (r: bool)
        ensures
            r == self.spec_is_opaque(),
    {
        !matches!(self, Material::Empty)
    }

    /// The base color of the material before shading, as (red, green, blue).
    pub open spec fn spec_base_color(self) -> (u8, u8, u8) {
        match self {
            Material::SolidWall => (180u8, 0u8, 0u8),
            Material::BrickWall => (0u8, 180u8, 0u8),
            Material::StoneWall => (0u8, 0u8, 180u8),
            Material::WoodWall => (180u8, 180u8, 180u8),
            Material::OutOfBounds => (50u8, 50u8, 50u8),
            Material::Empty => (0u8, 0u8, 0u8),
        }
    }

    /// Returns the base color of the material before shading.
    pub fn base_color(self) -> (r: (u8, u8, u8))
        ensures
            r == self.spec_base_color(),
    {
        match self {
            Material::SolidWall => (180, 0, 0),
            Material::BrickWall => (0, 180, 0),
            Material::StoneWall => (0, 0, 180),
            Material::WoodWall => (180, 180, 180),
            Material::OutOfBounds => (50, 50, 50),
            Material::Empty => (0, 0, 0),
        }
    }
}

} // verus!
