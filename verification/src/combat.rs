use vstd::prelude::*;
use rltk::RandomNumberGenerator;
use crate::components::{EquipmentSlot, MeleeWeapon, WeaponAttribute};
use crate::rng::roll_dice;

verus! {

/// The bonuses a creature brings to a melee exchange.
#[derive(Clone, Copy, Debug, PartialEq, Eq, Structural)]
pub struct Fighter {
    /// Current hit points.
    pub hp: i32,
    pub might_bonus: i32,
    pub quickness_bonus: i32,
    /// Bonus from the melee skill.
    pub melee_skill: i32,
    /// Bonus from the defence skill.
    pub defense_skill: i32,
    /// The creature is well fed.
    pub well_fed: bool,
}

/// How a melee attack went.
#[derive(Clone, Copy, Debug, PartialEq, Eq, Structural)]
pub enum MeleeKind {
    /// One of the two is already dead: there is no attack.
    NotAlive,
    /// A natural 1: the attacker misjudges.
    Fumble,
    /// The attack connects for `damage` hit points, `base_damage` of them
    /// from the weapon's dice.
    Hit { base_damage: i32, damage: i32 },
    /// The attack does not connect.
    Miss,
}

/// A melee attack's outcome and the d20 it was rolled with (0 when no
/// attack took place).
#[derive(Clone, Copy, Debug, PartialEq, Eq, Structural)]
pub struct MeleeOutcome {
    pub natural_roll: i32,
    pub kind: MeleeKind,
}

/// The weapon of a creature with none: a 1d4 fist using might.
pub open spec fn unarmed() -> MeleeWeapon {
    MeleeWeapon { attribute: WeaponAttribute::Might, hit_bonus: 0, damage_n_dice: 1, damage_die_type: 4, damage_bonus: 0 }
}

/// The weapon `attacker` fights with: the last of the listed weapons it
/// holds in its melee slot, or its fists.
pub open spec fn spec_weapon_for(attacker: u64, wielded: Seq<(u64, EquipmentSlot, MeleeWeapon)>) -> MeleeWeapon
    decreases wielded.len(),
{
    if wielded.len() == 0 {
        unarmed()
    } else {
        let e = wielded.last();
        if e.0 == attacker && e.1 == EquipmentSlot::Melee {
            e.2
        } else {
            spec_weapon_for(attacker, wielded.drop_last())
        }
    }
}

/// The weapon `attacker` fights with, given the weapons held by everyone
/// (owner, slot, weapon).
pub fn melee_weapon_for(attacker: u64, wielded: &Vec<(u64, EquipmentSlot, MeleeWeapon)>) -> (r: MeleeWeapon)
    ensures
        r == spec_weapon_for(attacker, wielded@),
{
    let mut k = wielded.len();
    proof { assert(wielded@.take(k as int) == wielded@); }
    while k > 0
        invariant
            k <= wielded@.len(),
            spec_weapon_for(attacker, wielded@) == spec_weapon_for(attacker, wielded@.take(k as int)),
        decreases k,
    {
        let e = wielded[k - 1];
        proof { assert(wielded@.take(k as int).drop_last() == wielded@.take(k - 1)); }
        if e.0 == attacker && e.1 == EquipmentSlot::Melee {
            return e.2;
        }
        k = k - 1;
    }
    MeleeWeapon { attribute: WeaponAttribute::Might, hit_bonus: 0, damage_n_dice: 1, damage_die_type: 4, damage_bonus: 0 }
}

/// A value an `i32` can hold.
pub open spec fn fits_i32(v: int) -> bool {
    i32::MIN <= v <= i32::MAX
}

/// The bonus the weapon's attribute gives the attacker's hit roll.
pub open spec fn attribute_bonus(attacker: Fighter, weapon: MeleeWeapon) -> int {
    match weapon.attribute {
        WeaponAttribute::Might => attacker.might_bonus as int,
        WeaponAttribute::Quickness => attacker.quickness_bonus as int,
    }
}

/// The sums an attack works out, term by term, fit in an `i32` for every
/// d20 roll and every roll of the weapon's dice, and the dice can be rolled.
pub open spec fn melee_ok(attacker: Fighter, target: Fighter, weapon: MeleeWeapon, armor_item_bonus: int) -> bool {
    let a = attribute_bonus(attacker, weapon);
    let lo = if weapon.damage_n_dice <= 0 { 0 } else { weapon.damage_n_dice as int };
    let hi = if weapon.damage_n_dice <= 0 { 0 } else { weapon.damage_n_dice * weapon.damage_die_type };
    &&& weapon.damage_n_dice <= 0 || (1 <= weapon.damage_die_type < i32::MAX && weapon.damage_n_dice * weapon.damage_die_type <= i32::MAX)
    &&& fits_i32(1 + a) && fits_i32(20 + a)
    &&& fits_i32(1 + a + attacker.melee_skill) && fits_i32(20 + a + attacker.melee_skill)
    &&& fits_i32(1 + a + attacker.melee_skill + weapon.hit_bonus) && fits_i32(21 + a + attacker.melee_skill + weapon.hit_bonus)
    &&& fits_i32(20 + a + attacker.melee_skill + weapon.hit_bonus)
    &&& fits_i32(10 + target.quickness_bonus) && fits_i32(10 + target.quickness_bonus + target.defense_skill)
    &&& fits_i32(10 + target.quickness_bonus + target.defense_skill + armor_item_bonus)
    &&& fits_i32(lo + attacker.might_bonus) && fits_i32(hi + attacker.might_bonus)
    &&& fits_i32(lo + attacker.might_bonus + attacker.melee_skill) && fits_i32(hi + attacker.might_bonus + attacker.melee_skill)
    &&& fits_i32(lo + attacker.might_bonus + attacker.melee_skill + weapon.damage_bonus)
    &&& fits_i32(hi + attacker.might_bonus + attacker.melee_skill + weapon.damage_bonus)
}

/// The attacker's hit roll: the d20 plus the weapon's attribute bonus, the
/// melee skill, the weapon's hit bonus and 1 for being well fed.
pub open spec fn hit_roll(natural: int, attacker: Fighter, weapon: MeleeWeapon) -> int {
    natural + (match weapon.attribute {
        WeaponAttribute::Might => attacker.might_bonus as int,
        WeaponAttribute::Quickness => attacker.quickness_bonus as int,
    }) + attacker.melee_skill + weapon.hit_bonus + (if attacker.well_fed { 1int } else { 0 })
}

/// The target's armour class: 10 plus its quickness bonus, its defence
/// skill and what its worn items give.
pub open spec fn armor_class(target: Fighter, armor_item_bonus: int) -> int {
    10 + target.quickness_bonus + target.defense_skill + armor_item_bonus
}

/// Resolves one melee attack. Nothing happens unless both are alive.
/// Otherwise a d20 is rolled: a 1 always misses badly; a 20, or a hit roll
/// above the target's armour class, hits for the weapon's dice plus the
/// attacker's might bonus, melee skill and the weapon's damage bonus (never
/// below 0); anything else misses.
pub fn melee_attack(rng: &mut RandomNumberGenerator, attacker: &Fighter, target: &Fighter, weapon: &MeleeWeapon,
    armor_item_bonus: i32) -> (r: MeleeOutcome)
    requires
        melee_ok(*attacker, *target, *weapon, armor_item_bonus as int),
    ensures
        !(attacker.hp > 0 && target.hp > 0) ==> r == (MeleeOutcome { natural_roll: 0, kind: MeleeKind::NotAlive }),
        attacker.hp > 0 && target.hp > 0 ==> {
            &&& 1 <= r.natural_roll <= 20
            &&& r.natural_roll == 1 ==> r.kind == MeleeKind::Fumble
            &&& r.natural_roll != 1 && (r.natural_roll == 20
                || hit_roll(r.natural_roll as int, *attacker, *weapon) > armor_class(*target, armor_item_bonus as int)) ==> {
                &&& r.kind matches MeleeKind::Hit { base_damage, damage }
                &&& weapon.damage_n_dice <= 0 ==> base_damage == 0
                &&& weapon.damage_n_dice > 0 ==> weapon.damage_n_dice <= base_damage <= weapon.damage_n_dice * weapon.damage_die_type
                &&& damage == (if base_damage + attacker.might_bonus + attacker.melee_skill + weapon.damage_bonus < 0 { 0 } else {
                    base_damage + attacker.might_bonus + attacker.melee_skill + weapon.damage_bonus
                })
            }
            &&& r.natural_roll != 1 && r.natural_roll != 20
                && hit_roll(r.natural_roll as int, *attacker, *weapon) <= armor_class(*target, armor_item_bonus as int)
                ==> r.kind == MeleeKind::Miss
        },
{
    if !(attacker.hp > 0 && target.hp > 0) {
        return MeleeOutcome { natural_roll: 0, kind: MeleeKind::NotAlive };
    }
    let natural_roll = roll_dice(rng, 1, 20);
    let attribute_hit_bonus = match weapon.attribute {
        WeaponAttribute::Might => attacker.might_bonus,
        WeaponAttribute::Quickness => attacker.quickness_bonus,
    };
    let status_hit_bonus: i32 = if attacker.well_fed { 1 } else { 0 };
    let modified_hit_roll = natural_roll + attribute_hit_bonus + attacker.melee_skill + weapon.hit_bonus + status_hit_bonus;
    let base_armor_class: i32 = 10;
    let ac = base_armor_class + target.quickness_bonus + target.defense_skill + armor_item_bonus;
    if natural_roll == 1 {
        MeleeOutcome { natural_roll, kind: MeleeKind::Fumble }
    } else if natural_roll == 20 || modified_hit_roll > ac {
        proof {
            if weapon.damage_n_dice > 0 {
                assert(weapon.damage_die_type <= weapon.damage_n_dice * weapon.damage_die_type) by (nonlinear_arith)
                    requires weapon.damage_n_dice >= 1, weapon.damage_die_type >= 1;
            }
        }
        let base_damage = roll_dice(rng, weapon.damage_n_dice, weapon.damage_die_type);
        let total = base_damage + attacker.might_bonus + attacker.melee_skill + weapon.damage_bonus;
        let damage = if total < 0 { 0 } else { total };
        MeleeOutcome { natural_roll, kind: MeleeKind::Hit { base_damage, damage } }
    } else {
        MeleeOutcome { natural_roll, kind: MeleeKind::Miss }
    }
}

} // verus!
