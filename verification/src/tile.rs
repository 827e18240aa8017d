use vstd::prelude::*;

verus! {

/// The kinds of terrain a map cell can hold.
#[derive(Clone, Copy, Debug, PartialEq, Eq, Hash, Structural)]
pub enum TileType {
    Wall,
    Floor,
    DownStairs,
    Road,
    Grass,
    ShallowWater,
    DeepWater,
    WoodFloor,
    Bridge,
    Gravel,
    UpStairs,
}

/// Walls and deep water block movement; every other tile can be walked on.
pub open spec fn spec_tile_walkable(tt: TileType) -> bool {
    !(tt is Wall || tt is DeepWater)
}

/// Only walls block sight.
pub open spec fn spec_tile_opaque(tt: TileType) -> bool {
    tt is Wall
}

/// Whether an entity can walk on a tile of the given kind.
pub fn tile_walkable(tt: TileType) -> (r: bool)
    ensures
        r == spec_tile_walkable(tt),
{
    match tt {
        TileType::Floor
        | TileType::DownStairs
        | TileType::UpStairs
        | TileType::Road
        | TileType::Grass
        | TileType::ShallowWater
        | TileType::WoodFloor
        | TileType::Bridge
        | TileType::Gravel => true,
        TileType::Wall | TileType::DeepWater => false,
    }
}

/// Whether a tile of the given kind blocks line of sight.
pub fn tile_opaque(tt: TileType) -> (r: bool)
    ensures
        r == spec_tile_opaque(tt),
{
    match tt {
        TileType::Wall => true,
        TileType::Floor
        | TileType::DownStairs
        | TileType::UpStairs
        | TileType::Road
        | TileType::Grass
        | TileType::ShallowWater
        | TileType::DeepWater
        | TileType::WoodFloor
        | TileType::Bridge
        | TileType::Gravel => false,
    }
}

/// The cost of leaving a tile of the given kind, in 1/256 of a plain step,
/// for an orthogonal step or (when `diagonal`) for a diagonal one.
///
/// These are the movement costs of the game (0.8 on roads, 1.1 on grass,
/// 1.2 in shallow water, 1.0 elsewhere, diagonals 1.45 times dearer), scaled
/// by 256 and truncated, as the path finder works on whole numbers.
pub open spec fn spec_step_cost(tt: TileType, diagonal: bool) -> int {
    match tt {
        TileType::Road => if diagonal { 296 } else { 204 },
        TileType::Grass => if diagonal { 408 } else { 281 },
        TileType::ShallowWater => if diagonal { 445 } else { 307 },
        _ => if diagonal { 371 } else { 256 },
    }
}

/// Executable form of [`spec_step_cost`].
pub fn step_cost(tt: TileType, diagonal: bool) -> (r: i32)
    ensures
        r == spec_step_cost(tt, diagonal),
        204 <= r <= 445,
{
    match tt {
        TileType::Road => if diagonal { 296 } else { 204 },
        TileType::Grass => if diagonal { 408 } else { 281 },
        TileType::ShallowWater => if diagonal { 445 } else { 307 },
        _ => if diagonal { 371 } else { 256 },
    }
}


/// A tile that blocks sight also blocks movement.
pub proof fn lemma_opaque_not_walkable(tt: TileType)
    ensures
        spec_tile_opaque(tt) ==> !spec_tile_walkable(tt),
{
}

} // verus!
