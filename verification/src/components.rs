use vstd::prelude::*;

verus! {

/// Where an entity stands on the map.
#[derive(Clone, Copy, Debug, PartialEq, Eq, Structural)]
pub struct Position {
    pub x: i32,
    pub y: i32,
}

/// Where an item is worn or held.
#[derive(Clone, Copy, Debug, PartialEq, Eq, Structural)]
pub enum EquipmentSlot {
    Melee,
    Shield,
    Head,
    Torso,
    Legs,
    Feet,
    Hands,
}

/// How fed a creature is.
#[derive(Clone, Copy, Debug, PartialEq, Eq, Structural)]
pub enum HungerState {
    WellFed,
    Normal,
    Hungry,
    Starving,
}

/// A creature's hunger and how many turns are left before it changes.
#[derive(Clone, Copy, Debug, PartialEq, Eq, Structural)]
pub struct HungerClock {
    pub state: HungerState,
    pub duration: i32,
}

/// A quantity with a maximum, such as hit points.
#[derive(Clone, Copy, Debug, PartialEq, Eq, Structural)]
pub struct Pool {
    pub max: i32,
    pub current: i32,
}

/// One of a creature's attributes: its base value, what modifies it, and
/// the bonus it gives.
#[derive(Clone, Copy, Debug, PartialEq, Eq, Structural)]
pub struct Attribute {
    pub base: i32,
    pub modifiers: i32,
    pub bonus: i32,
}

/// The attribute a weapon's hits are rolled with.
#[derive(Clone, Copy, Debug, PartialEq, Eq, Structural)]
pub enum WeaponAttribute {
    Might,
    Quickness,
}

/// A melee weapon: the attribute it uses, its damage dice and bonuses.
#[derive(Clone, Copy, Debug, PartialEq, Eq, Structural)]
pub struct MeleeWeapon {
    pub attribute: WeaponAttribute,
    pub damage_n_dice: i32,
    pub damage_die_type: i32,
    pub damage_bonus: i32,
    pub hit_bonus: i32,
}

} // verus!
