//! The table of tile materials.

use vstd::prelude::*;

verus! {

/// What a tile is made of.
///
/// `Missing` stands for every tile whose stored code names no material.
#[derive(Clone, Copy, Debug, PartialEq, Eq, Structural)]
pub enum Material {
    Grass,
    Wall,
    Floor,
    Dirt,
    Asphalt,
    Sand,
    Concrete,
    WoodFloor,
    Stairs,
    Missing,
}

/// The material that a stored byte names; every byte without a material of
/// its own names `Missing`.
pub open spec fn material_of_code(code: u8) -> Material {
    if code == 0 {
        Material::Grass
    } else if code == 1 {
        Material::Wall
    } else if code == 2 {
        Material::Floor
    } else if code == 3 {
        Material::Dirt
    } else if code == 4 {
        Material::Asphalt
    } else if code == 5 {
        Material::Sand
    } else if code == 6 {
        Material::Concrete
    } else if code == 7 {
        Material::WoodFloor
    } else if code == 8 {
        Material::Stairs
    } else {
        Material::Missing
    }
}

impl Material {
    /// The byte under which this material is stored.
    pub open spec fn spec_code(self) -> u8 {
        match self {
            Material::Grass => 0,
            Material::Wall => 1,
            Material::Floor => 2,
            Material::Dirt => 3,
            Material::Asphalt => 4,
            Material::Sand => 5,
            Material::Concrete => 6,
            Material::WoodFloor => 7,
            Material::Stairs => 8,
            Material::Missing => 255,
        }
    }

    /// Whether a tile of this material blocks movement and sight.
    pub open spec fn spec_solid(self) -> bool {
        self == Material::Wall || self == Material::Concrete || self == Material::Missing
    }

    /// Decodes a stored byte. Never fails: an unknown byte gives `Missing`.
    pub fn from_code(code: u8) -> (m: Material)
        ensures
            m == material_of_code(code),
    {
        match code {
            0 => Material::Grass,
            1 => Material::Wall,
            2 => Material::Floor,
            3 => Material::Dirt,
            4 => Material::Asphalt,
            5 => Material::Sand,
            6 => Material::Concrete,
            7 => Material::WoodFloor,
            8 => Material::Stairs,
            _ => Material::Missing,
        }
    }

    /// The byte under which this material is stored.
    #[verifier::when_used_as_spec(spec_code)]
    pub fn code(self) -> (c: u8)
        ensures
            c == self.spec_code(),
    {
        match self {
            Material::Grass => 0,
            Material::Wall => 1,
            Material::Floor => 2,
            Material::Dirt => 3,
            Material::Asphalt => 4,
            Material::Sand => 5,
            Material::Concrete => 6,
            Material::WoodFloor => 7,
            Material::Stairs => 8,
            Material::Missing => 255,
        }
    }

    /// Whether a tile of this material blocks movement and sight.
    #[verifier::when_used_as_spec(spec_solid)]
    pub fn solid(self) -> (b: bool)
        ensures
            b == self.spec_solid(),
    {
        match self {
            Material::Wall | Material::Concrete | Material::Missing => true,
            _ => false,
        }
    }
}

/// The materials that a run of stored bytes names.
pub open spec fn materials_of(codes: Seq<u8>) -> Seq<Material> {
    Seq::new(codes.len(), |i: int| material_of_code(codes[i]))
}

/// The bytes under which a run of materials is stored.
pub open spec fn codes_of(cells: Seq<Material>) -> Seq<u8> {
    Seq::new(cells.len(), |i: int| cells[i].spec_code())
}

/// Storing a material and decoding the byte gives the material back.
pub proof fn lemma_code_round_trip(m: Material)
    ensures
        material_of_code(m.spec_code()) == m,
{
}

/// Decoding a byte and storing the material gives the byte back exactly when
/// the byte is the code of some material.
pub proof fn lemma_code_canonical(code: u8)
    ensures
        material_of_code(code).spec_code() == code <==> (code <= 8 || code == 255),
{
}

} // verus!
