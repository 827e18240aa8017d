use vstd::prelude::*;

verus! {

/// A small room drawn in text, placed where it fits between two depths.
#[derive(Clone, Copy)]
pub struct PrefabRoom {
    pub template: &'static str,
    pub width: usize,
    pub height: usize,
    pub first_depth: i32,
    pub last_depth: i32,
}

/// A treasure ringed by traps.
pub fn totally_not_a_trap() -> (r: PrefabRoom)
    ensures
        r.width == 5,
        r.height == 5,
        r.first_depth == 0,
        r.last_depth == 100,
{
    PrefabRoom { template: "\n\n ^^^\n ^!^\n ^^^\n\n", width: 5, height: 5, first_depth: 0, last_depth: 100 }
}

/// A face of traps and walls.
pub fn silly_smile() -> (r: PrefabRoom)
    ensures
        r.width == 6,
        r.height == 6,
        r.first_depth == 0,
        r.last_depth == 100,
{
    PrefabRoom { template: "\n\n ^  ^\n  ##\n\n ####\n\n", width: 6, height: 6, first_depth: 0, last_depth: 100 }
}

/// Walls, traps, a goblin, an orc and a treasure in a chequered pattern.
pub fn checkerboard() -> (r: PrefabRoom)
    ensures
        r.width == 6,
        r.height == 6,
        r.first_depth == 0,
        r.last_depth == 100,
{
    PrefabRoom { template: "\n\n #^#\n g#%#\n #!#\n ^# #\n\n", width: 6, height: 6, first_depth: 0, last_depth: 100 }
}

} // verus!
