//! The value stored in each grid cell.

use vstd::prelude::*;

verus! {

/// What a tile is made of.
#[derive(Clone, Copy, PartialEq, Eq, Structural, Debug)]
pub enum TileMaterial {
    Earth,
    Grass,
    AntGuts,
    AntBody,
    ToothPaste1,
    ToothPaste2,
    ToothPaste3,
    Nacho,
    Debug,
}

/// The plain material that harvesting and digging leave behind.
pub const BASE_MATERIAL: TileMaterial = TileMaterial::Earth;

impl TileMaterial {
    pub open spec fn harvestable(self) -> bool {
        self == TileMaterial::AntBody || self == TileMaterial::Nacho
    }

    /// Whether a foraging agent picks this material up.
    pub fn is_harvestable(&self) -> (r: bool)
        ensures
            r == self.harvestable(),
    {
        match self {
            TileMaterial::AntBody | TileMaterial::Nacho => true,
            _ => false,
        }
    }
}

/// One grid cell.
#[derive(Clone, Copy, PartialEq, Eq, Structural, Debug)]
pub struct Tile {
    /// Elevation; all arithmetic on it saturates.
    pub height: u8,
    pub material: TileMaterial,
    /// How much agents have explored here.
    pub pheremone_level: i16,
    /// Kills every agent on the tile until the end-of-tick sweep.
    pub kill_flag: bool,
    /// Kills non-predator agents on the tile until the end-of-tick sweep.
    pub kill_ants_only: bool,
    /// How often agents have passed over the tile.
    pub times_changed: u32,
}

/// The tile a fresh grid is filled with.
pub open spec fn blank_tile() -> Tile {
    Tile {
        height: 128,
        material: TileMaterial::Earth,
        pheremone_level: 0,
        kill_flag: false,
        kill_ants_only: false,
        times_changed: 0,
    }
}

/// `t` with both transient hazard flags cleared.
pub open spec fn cleared(t: Tile) -> Tile {
    Tile { kill_flag: false, kill_ants_only: false, ..t }
}

} // verus!
