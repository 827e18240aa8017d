use vstd::prelude::*;
use crate::state::RunState;
use crate::components::EquipmentSlot;
use crate::fov::{field_of_view, fov_seen, origin_ok};
use crate::map::{TileMap, lemma_cell_index};
use crate::point::Point;

verus! {

broadcast use vstd::seq_lib::group_seq_properties;

/// What an item does when used.
#[derive(Clone, Copy, Debug, PartialEq, Eq, Structural)]
pub struct ItemEffects {
    /// The radius it affects around the target, if it affects an area.
    pub area_of_effect: Option<i32>,
    /// The slot it is worn in, if it can be equipped.
    pub equippable: Option<EquipmentSlot>,
    /// It can be eaten.
    pub food: bool,
    /// It reveals the map.
    pub magic_mapper: bool,
    /// The hit points it restores to each target.
    pub healing: Option<i32>,
    /// The hit points it takes from each target.
    pub damage: Option<i32>,
    /// How many turns it confuses each target.
    pub confusion: Option<i32>,
    /// It is used up when it takes effect.
    pub consumable: bool,
}

/// What using an item does, for the game to carry out.
pub struct ItemUsePlan {
    /// The cells targeted.
    pub tiles: Vec<Point>,
    /// The entities affected, in order.
    pub targets: Vec<u64>,
    /// Items to take off the first target and put back in its pack.
    pub unequip: Vec<u64>,
    /// The entity that puts the item on, and the slot.
    pub equip: Option<(u64, EquipmentSlot)>,
    /// The entity that eats the item.
    pub feed: Option<u64>,
    /// The map is revealed.
    pub magic_map: bool,
    /// Hit points restored to each target.
    pub heal: Option<i32>,
    /// Hit points taken from each target.
    pub damage: Option<i32>,
    /// Turns of confusion given to each target.
    pub confuse: Option<i32>,
    /// The item took effect.
    pub used: bool,
    /// The item is destroyed.
    pub consume: bool,
}

/// The entities standing on the cells, cell by cell.
pub open spec fn entities_on(map: &TileMap, tiles: Seq<Point>) -> Seq<u64> {
    tiles.map_values(|p: Point| map.tile_content@[map.idx(p.x as int, p.y as int)]@).flatten()
}

/// An entry `(item, owner, slot)` of the equipment list is `owner`'s, in `slot`.
pub open spec fn worn_by(owner: u64, slot: EquipmentSlot) -> spec_fn((u64, u64, EquipmentSlot)) -> bool {
    |e: (u64, u64, EquipmentSlot)| e.1 == owner && e.2 == slot
}

/// The item of an entry `(item, owner, slot)` of the equipment list.
pub open spec fn item_of() -> spec_fn((u64, u64, EquipmentSlot)) -> u64 {
    |e: (u64, u64, EquipmentSlot)| e.0
}

/// The items equipped by `owner` in `slot`, in the order listed.
pub open spec fn equipped_in(equipped: Seq<(u64, u64, EquipmentSlot)>, owner: u64, slot: EquipmentSlot) -> Seq<u64> {
    equipped.filter(worn_by(owner, slot)).map_values(item_of())
}

/// The equipment list has `item` worn by `owner` in `slot`.
pub open spec fn wears(equipped: Seq<(u64, u64, EquipmentSlot)>, owner: u64, slot: EquipmentSlot, item: u64) -> bool {
    exists|j: int| 0 <= j < equipped.len() && equipped[j] == (item, owner, slot)
}

/// Equipping takes off exactly what the wearer has in that slot: every item
/// listed is, in the equipment list, worn by `owner` in `slot`, and every
/// item worn by `owner` in `slot` is listed. Nothing in another slot, or
/// worn by someone else, comes off.
pub proof fn lemma_unequip_only_that_slot(equipped: Seq<(u64, u64, EquipmentSlot)>, owner: u64, slot: EquipmentSlot)
    ensures
        forall|k: int| 0 <= k < equipped_in(equipped, owner, slot).len()
            ==> wears(equipped, owner, slot, #[trigger] equipped_in(equipped, owner, slot)[k]),
        forall|j: int| 0 <= j < equipped.len() && (#[trigger] equipped[j]).1 == owner && equipped[j].2 == slot
            ==> equipped_in(equipped, owner, slot).contains(equipped[j].0),
{
    let pred = worn_by(owner, slot);
    let fl = equipped.filter(pred);
    assert forall|k: int| 0 <= k < equipped_in(equipped, owner, slot).len()
        implies wears(equipped, owner, slot, #[trigger] equipped_in(equipped, owner, slot)[k]) by {
        let e = fl[k];
        equipped.lemma_filter_pred(pred, k);
        assert(fl.contains(e));
        equipped.lemma_filter_contains_rev(pred, e);
        let j = choose|j: int| 0 <= j < equipped.len() && equipped[j] == e;
        assert(equipped_in(equipped, owner, slot)[k] == e.0);
        assert(equipped[j] == (e.0, owner, slot));
    }
    assert forall|j: int| 0 <= j < equipped.len() && (#[trigger] equipped[j]).1 == owner && equipped[j].2 == slot
        implies equipped_in(equipped, owner, slot).contains(equipped[j].0) by {
        equipped.lemma_filter_contains(pred, j);
        let m = choose|m: int| 0 <= m < fl.len() && fl[m] == equipped[j];
        assert(equipped_in(equipped, owner, slot)[m] == equipped[j].0);
    }
}

/// The item is used on a target whose cell can be read: with no target the
/// user is the player; a single target cell lies on the map; an area target
/// has a radius the field of view takes (at most 10000, see
/// [`crate::fov::field_of_view`]) and a centre well inside `i32`.
pub open spec fn item_use_ok(effects: ItemEffects, target: Option<Point>, map: &TileMap) -> bool {
    &&& map.wf()
    &&& match target {
        None => true,
        Some(t) => match effects.area_of_effect {
            None => map.in_bounds(t.x as int, t.y as int),
            Some(r) => 0 <= r <= 10000 && origin_ok(t.x as int, t.y as int),
        },
    }
}

fn entities_on_tiles(map: &TileMap, tiles: &Vec<Point>) -> (r: Vec<u64>)
    requires
        map.wf(),
        forall|k: int| 0 <= k < tiles@.len() ==> map.in_bounds((#[trigger] tiles@[k]).x as int, tiles@[k].y as int),
    ensures
        r@ == entities_on(map, tiles@),
{
    let mut r: Vec<u64> = Vec::new();
    for k in 0..tiles.len()
        invariant
            map.wf(),
            forall|j: int| 0 <= j < tiles@.len() ==> map.in_bounds((#[trigger] tiles@[j]).x as int, tiles@[j].y as int),
            r@ == entities_on(map, tiles@.take(k as int)),
    {
        let t = tiles[k];
        assert(map.in_bounds(tiles@[k as int].x as int, tiles@[k as int].y as int));
        proof { lemma_cell_index(map.width as int, map.height as int, t.x as int, t.y as int); }
        let idx = map.xy_idx(t.x, t.y);
        let content = &map.tile_content[idx];
        let ghost before = r@;
        for j in 0..content.len()
            invariant
                r@ == before + content@.take(j as int),
        {
            r.push(content[j]);
            proof { assert(content@.take(j + 1) == content@.take(j as int).push(content@[j as int])); }
        }
        proof {
            let f = |p: Point| map.tile_content@[map.idx(p.x as int, p.y as int)]@;
            assert(content@.take(content@.len() as int) == content@);
            assert(tiles@.take(k + 1) == tiles@.take(k as int).push(t));
            assert(tiles@.take(k + 1).map_values(f) == tiles@.take(k as int).map_values(f).push(f(t)));
            tiles@.take(k as int).map_values(f).lemma_flatten_push(f(t));
        }
    }
    proof { assert(tiles@.take(tiles@.len() as int) == tiles@); }
    r
}

fn equipped_by(equipped: &Vec<(u64, u64, EquipmentSlot)>, owner: u64, slot: EquipmentSlot) -> (r: Vec<u64>)
    ensures
        r@ == equipped_in(equipped@, owner, slot),
{
    let ghost pred = worn_by(owner, slot);
    let ghost f = item_of();
    let mut r: Vec<u64> = Vec::new();
    for k in 0..equipped.len()
        invariant
            pred == worn_by(owner, slot),
            f == item_of(),
            r@ == equipped@.take(k as int).filter(pred).map_values(f),
    {
        let e = equipped[k];
        proof {
            assert(equipped@.take(k + 1) == equipped@.take(k as int).push(e));
            equipped@.take(k as int).lemma_filter_push(e, pred);
            assert(pred(e) == (e.1 == owner && e.2 == slot));
            assert(f(e) == e.0);
        }
        if e.1 == owner && e.2 == slot {
            r.push(e.0);
            proof {
                let fs = equipped@.take(k as int).filter(pred);
                assert(fs.push(e).map_values(f) =~= fs.map_values(f).push(e.0)) by {
                    assert forall|i: int| 0 <= i < fs.len() + 1 implies #[trigger] fs.push(e).map_values(f)[i] == fs.map_values(f).push(e.0)[i] by {
                        if i < fs.len() {
                            assert(fs.push(e)[i] == fs[i]);
                        }
                    }
                }
            }
        }
    }
    proof { assert(equipped@.take(equipped@.len() as int) == equipped@); }
    r
}

/// Decides what using an item does. The targets are the player when no
/// cell is targeted, else the entities standing on the target cell, or on
/// the cells seen from it within the item's radius. An equippable item goes
/// on the first target, in its slot, and what that target wore there comes
/// off; food feeds the first target; a magic mapper reveals the map; healing,
/// damage and confusion reach every target. The item is used if it fed,
/// mapped, healed, harmed or confused, and a consumable used item is
/// destroyed. There is no plan (the cells targeted come back as an error)
/// when an equippable item or food has no target to go to.
pub fn item_use(player: u64, effects: &ItemEffects, target: Option<Point>, map: &TileMap,
    equipped: &Vec<(u64, u64, EquipmentSlot)>) -> (r: Result<ItemUsePlan, Vec<Point>>)
    requires
        item_use_ok(*effects, target, map),
    ensures
        ({
            let tiles = match r {
                Ok(plan) => plan.tiles@,
                Err(t) => t@,
            };
            let targets = match target {
                None => seq![player],
                Some(_) => entities_on(map, tiles),
            };
            &&& match target {
                None => tiles.len() == 0,
                Some(t) => match effects.area_of_effect {
                    None => tiles == seq![t],
                    Some(radius) => fov_seen(map, t, radius as int, tiles),
                },
            }
            &&& (r is Err <==> (targets.len() == 0 && (effects.equippable is Some || effects.food)))
            &&& match r {
                Err(_) => true,
                Ok(plan) => {
                    &&& plan.targets@ == targets
                    &&& plan.equip == (match effects.equippable {
                        Some(slot) => Some((targets[0], slot)),
                        None => None,
                    })
                    &&& plan.unequip@ == (match effects.equippable {
                        Some(slot) => equipped_in(equipped@, targets[0], slot),
                        None => Seq::<u64>::empty(),
                    })
                    &&& plan.feed == (if effects.food { Some(targets[0]) } else { None })
                    &&& plan.magic_map == effects.magic_mapper
                    &&& plan.heal == effects.healing
                    &&& plan.damage == effects.damage
                    &&& plan.confuse == effects.confusion
                    &&& plan.used == (effects.food || effects.magic_mapper || effects.healing is Some
                        || effects.damage is Some || effects.confusion is Some)
                    &&& plan.consume == (plan.used && effects.consumable)
                },
            }
        }),
{
    let mut tiles: Vec<Point> = Vec::new();
    let targets: Vec<u64> = match target {
        None => {
            let mut v: Vec<u64> = Vec::new();
            v.push(player);
            v
        },
        Some(t) => {
            match effects.area_of_effect {
                None => {
                    tiles.push(t);
                },
                Some(radius) => {
                    tiles = field_of_view(t, radius as usize, map);
                },
            }
            entities_on_tiles(map, &tiles)
        },
    };
    if targets.len() == 0 && (effects.equippable.is_some() || effects.food) {
        return Err(tiles);
    }
    let (equip, unequip) = match effects.equippable {
        Some(slot) => {
            let who = targets[0];
            (Some((who, slot)), equipped_by(equipped, who, slot))
        },
        None => (None, Vec::new()),
    };
    let feed = if effects.food { Some(targets[0]) } else { None };
    let used = effects.food || effects.magic_mapper || effects.healing.is_some() || effects.damage.is_some()
        || effects.confusion.is_some();
    let plan = ItemUsePlan {
        tiles,
        targets,
        unequip,
        equip,
        feed,
        magic_map: effects.magic_mapper,
        heal: effects.healing,
        damage: effects.damage,
        confuse: effects.confusion,
        used,
        consume: used && effects.consumable,
    };
    Ok(plan)
}

/// The hit points after healing: raised by `amount`, but not above the maximum.
pub fn healed(current: i32, max: i32, amount: i32) -> (r: i32)
    requires
        i32::MIN <= current + amount <= i32::MAX,
    ensures
        r == (if max < current + amount { max as int } else { current + amount }),
{
    let v = current + amount;
    if max < v { max } else { v }
}

} // verus!

verus! {

/// The state after choosing an item to use: an item with a range asks for
/// a target within that range; any other is used at once on the player's
/// turn.
pub fn activate_item(ranged: Option<i32>, item: u64) -> (r: RunState)
    ensures
        r == (match ranged {
            Some(range) => RunState::ShowTargeting { range, item },
            None => RunState::PlayerTurn,
        }),
{
    match ranged {
        Some(range) => RunState::ShowTargeting { range, item },
        None => RunState::PlayerTurn,
    }
}

} // verus!
