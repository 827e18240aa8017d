use vstd::prelude::*;
use crate::random_table::RandomTable;
use crate::components::EquipmentSlot;
use crate::text::{str_is, parse_i32, spec_parse_i32};

verus! {

/// How an entity is drawn, as the prefab file gives it: a character, two
/// colours in hexadecimal and a drawing order.
pub struct RenderableTemplate {
    pub glyph: char,
    pub fg: String,
    pub bg: String,
    pub order: i32,
}

/// The effects of a consumable item, as name and value pairs.
pub struct ConsumableTemplate {
    pub effects: Vec<(String, String)>,
}

/// A weapon: its range ("melee") and its power bonus.
pub struct WeaponTemplate {
    pub range: String,
    pub power_bonus: i32,
}

/// A shield and the defence it adds.
pub struct ShieldTemplate {
    pub defense_bonus: i32,
}

/// An item as the prefab file describes it.
pub struct ItemTemplate {
    pub name: String,
    pub renderable: Option<RenderableTemplate>,
    pub consumable: Option<ConsumableTemplate>,
    pub weapon: Option<WeaponTemplate>,
    pub shield: Option<ShieldTemplate>,
}

/// A creature's combat numbers.
#[derive(Clone, Copy, Debug, PartialEq, Eq, Structural)]
pub struct MobStats {
    pub max_hp: i32,
    pub hp: i32,
    pub power: i32,
    pub defense: i32,
}

/// A creature's attributes, where the file gives them.
#[derive(Clone, Copy, Debug, PartialEq, Eq, Structural)]
pub struct MobAttributes {
    pub might: Option<i32>,
    pub fitness: Option<i32>,
    pub quickness: Option<i32>,
    pub intelligence: Option<i32>,
}

/// A creature as the prefab file describes it.
pub struct Mob {
    pub name: String,
    pub renderable: Option<RenderableTemplate>,
    pub blocks_tile: bool,
    pub stats: MobStats,
    pub vision_range: i32,
    pub ai: String,
    pub quips: Option<Vec<String>>,
    pub attributes: MobAttributes,
}

/// The effects of stepping on a trap, as name and value pairs.
pub struct EntryTriggerTemplate {
    pub effects: Vec<(String, String)>,
}

/// A prop (door, trap, furniture) as the prefab file describes it.
pub struct PropTemplate {
    pub name: String,
    pub renderable: Option<RenderableTemplate>,
    pub hidden: Option<bool>,
    pub blocks_tile: Option<bool>,
    pub blocks_visibility: Option<bool>,
    pub door_open: Option<bool>,
    pub entry_trigger: Option<EntryTriggerTemplate>,
}

/// A line of the spawn table: what may appear, how often, and between which depths.
pub struct SpawnTableEntry {
    pub name: String,
    pub weight: i32,
    pub min_depth: i32,
    pub max_depth: i32,
    pub add_map_depth_to_weight: Option<bool>,
}

/// Everything the prefab file describes.
pub struct Prefabs {
    pub spawn_table: Vec<SpawnTableEntry>,
    pub items: Vec<ItemTemplate>,
    pub mobs: Vec<Mob>,
    pub props: Vec<PropTemplate>,
}

/// The prefabs the game spawns from. A name refers to the last template
/// that carries it.
pub struct PrefabMaster {
    pub prefabs: Prefabs,
}

impl PrefabMaster {
    /// A master with nothing in it.
    pub fn empty() -> (r: PrefabMaster)
        ensures
            r.prefabs.spawn_table@.len() == 0,
            r.prefabs.items@.len() == 0,
            r.prefabs.mobs@.len() == 0,
            r.prefabs.props@.len() == 0,
    {
        PrefabMaster {
            prefabs: Prefabs { spawn_table: Vec::new(), items: Vec::new(), mobs: Vec::new(), props: Vec::new() },
        }
    }

    /// Takes in the prefabs read from the file.
    pub fn load(&mut self, prefabs: Prefabs)
        ensures
            final(self).prefabs == prefabs,
    {
        self.prefabs = prefabs;
    }
}

/// The index of the last of the names equal to `key`, if any.
pub open spec fn last_named(names: Seq<Seq<char>>, key: Seq<char>) -> Option<int>
    decreases names.len(),
{
    if names.len() == 0 {
        None
    } else if names.last() == key {
        Some(names.len() - 1)
    } else {
        last_named(names.drop_last(), key)
    }
}

pub open spec fn item_names(pm: &PrefabMaster) -> Seq<Seq<char>> {
    pm.prefabs.items@.map_values(|t: ItemTemplate| t.name@)
}

pub open spec fn mob_names(pm: &PrefabMaster) -> Seq<Seq<char>> {
    pm.prefabs.mobs@.map_values(|t: Mob| t.name@)
}

pub open spec fn prop_names(pm: &PrefabMaster) -> Seq<Seq<char>> {
    pm.prefabs.props@.map_values(|t: PropTemplate| t.name@)
}

proof fn lemma_last_named_in(names: Seq<Seq<char>>, key: Seq<char>)
    ensures
        last_named(names, key) matches Some(i) ==> 0 <= i < names.len() && names[i] == key,
    decreases names.len(),
{
    if names.len() > 0 && names.last() != key {
        lemma_last_named_in(names.drop_last(), key);
    }
}

fn find_item(pm: &PrefabMaster, key: &String) -> (r: Option<usize>)
    ensures
        r matches Some(i) ==> Some(i as int) == last_named(item_names(pm), key@),
        r is None ==> last_named(item_names(pm), key@) is None,
{
    let items = &pm.prefabs.items;
    let mut k = items.len();
    proof { assert(item_names(pm).take(k as int) == item_names(pm)); }
    while k > 0
        invariant
            k <= items@.len(),
            items == pm.prefabs.items,
            last_named(item_names(pm), key@) == last_named(item_names(pm).take(k as int), key@),
        decreases k,
    {
        proof { assert(item_names(pm).take(k as int).drop_last() == item_names(pm).take(k - 1)); }
        if str_is(&items[k - 1].name, key.as_str()) {
            return Some(k - 1);
        }
        k = k - 1;
    }
    None
}

fn find_mob(pm: &PrefabMaster, key: &String) -> (r: Option<usize>)
    ensures
        r matches Some(i) ==> Some(i as int) == last_named(mob_names(pm), key@),
        r is None ==> last_named(mob_names(pm), key@) is None,
{
    let mobs = &pm.prefabs.mobs;
    let mut k = mobs.len();
    proof { assert(mob_names(pm).take(k as int) == mob_names(pm)); }
    while k > 0
        invariant
            k <= mobs@.len(),
            mobs == pm.prefabs.mobs,
            last_named(mob_names(pm), key@) == last_named(mob_names(pm).take(k as int), key@),
        decreases k,
    {
        proof { assert(mob_names(pm).take(k as int).drop_last() == mob_names(pm).take(k - 1)); }
        if str_is(&mobs[k - 1].name, key.as_str()) {
            return Some(k - 1);
        }
        k = k - 1;
    }
    None
}

fn find_prop(pm: &PrefabMaster, key: &String) -> (r: Option<usize>)
    ensures
        r matches Some(i) ==> Some(i as int) == last_named(prop_names(pm), key@),
        r is None ==> last_named(prop_names(pm), key@) is None,
{
    let props = &pm.prefabs.props;
    let mut k = props.len();
    proof { assert(prop_names(pm).take(k as int) == prop_names(pm)); }
    while k > 0
        invariant
            k <= props@.len(),
            props == pm.prefabs.props,
            last_named(prop_names(pm), key@) == last_named(prop_names(pm).take(k as int), key@),
        decreases k,
    {
        proof { assert(prop_names(pm).take(k as int).drop_last() == prop_names(pm).take(k - 1)); }
        if str_is(&props[k - 1].name, key.as_str()) {
            return Some(k - 1);
        }
        k = k - 1;
    }
    None
}

/// The components a consumable's effects give.
#[derive(Clone, Copy, Debug, PartialEq, Eq, Structural)]
pub struct ConsumableEffects {
    pub provides_healing: Option<i32>,
    pub ranged: Option<i32>,
    pub inflicts_damage: Option<i32>,
    pub area_of_effect: Option<i32>,
    pub confusion: Option<i32>,
    pub magic_mapper: bool,
    pub provides_food: bool,
}

/// The names of the effects that carry a number.
pub open spec fn numeric_effect(key: Seq<char>) -> bool {
    key == "provides_healing"@ || key == "ranged"@ || key == "damage"@ || key == "area_of_effect"@ || key == "confusion"@
}

/// The effects after one more `(key, value)` pair: the named component is
/// set (a later pair overrides an earlier one), and an unknown name does
/// nothing.
pub open spec fn with_effect(c: ConsumableEffects, key: Seq<char>, value: Seq<char>) -> ConsumableEffects {
    let v = spec_parse_i32(value)->0 as i32;
    if key == "provides_healing"@ {
        ConsumableEffects { provides_healing: Some(v), ..c }
    } else if key == "ranged"@ {
        ConsumableEffects { ranged: Some(v), ..c }
    } else if key == "damage"@ {
        ConsumableEffects { inflicts_damage: Some(v), ..c }
    } else if key == "area_of_effect"@ {
        ConsumableEffects { area_of_effect: Some(v), ..c }
    } else if key == "confusion"@ {
        ConsumableEffects { confusion: Some(v), ..c }
    } else if key == "magic_mapping"@ {
        ConsumableEffects { magic_mapper: true, ..c }
    } else if key == "food"@ {
        ConsumableEffects { provides_food: true, ..c }
    } else {
        c
    }
}

pub open spec fn no_effects() -> ConsumableEffects {
    ConsumableEffects {
        provides_healing: None,
        ranged: None,
        inflicts_damage: None,
        area_of_effect: None,
        confusion: None,
        magic_mapper: false,
        provides_food: false,
    }
}

/// The components the effects give, taken in order.
pub open spec fn effects_of(effects: Seq<(String, String)>) -> ConsumableEffects
    decreases effects.len(),
{
    if effects.len() == 0 {
        no_effects()
    } else {
        with_effect(effects_of(effects.drop_last()), effects.last().0@, effects.last().1@)
    }
}

/// The effect list has an entry named `key`.
pub open spec fn has_effect(effects: Seq<(String, String)>, key: Seq<char>) -> bool {
    exists|k: int| 0 <= k < effects.len() && (#[trigger] effects[k]).0@ == key
}

/// The last entry named `key` in the effect list carries the number `v`.
pub open spec fn last_value_is(effects: Seq<(String, String)>, key: Seq<char>, v: i32) -> bool {
    exists|k: int| 0 <= k < effects.len() && (#[trigger] effects[k]).0@ == key
        && spec_parse_i32(effects[k].1@)->0 as i32 == v
        && forall|j: int| k < j < effects.len() ==> (#[trigger] effects[j]).0@ != key
}

/// A component that carries a number is set exactly when an entry of its
/// name is in the list, to the number of the last such entry.
pub open spec fn set_by(field: Option<i32>, effects: Seq<(String, String)>, key: Seq<char>) -> bool {
    &&& (field is Some <==> has_effect(effects, key))
    &&& (field matches Some(v) ==> last_value_is(effects, key, v))
}

proof fn lemma_has_effect_last(effects: Seq<(String, String)>, key: Seq<char>)
    requires
        effects.len() > 0,
    ensures
        has_effect(effects, key) == (has_effect(effects.drop_last(), key) || effects.last().0@ == key),
        forall|v: i32| #[trigger] last_value_is(effects, key, v) == (if effects.last().0@ == key {
            spec_parse_i32(effects.last().1@)->0 as i32 == v
        } else {
            last_value_is(effects.drop_last(), key, v)
        }),
{
    let e0 = effects.drop_last();
    let n = effects.len() - 1;
    if has_effect(effects, key) && effects.last().0@ != key {
        let k = choose|k: int| 0 <= k < effects.len() && (#[trigger] effects[k]).0@ == key;
        assert(e0[k] == effects[k]);
    }
    if has_effect(e0, key) {
        let k = choose|k: int| 0 <= k < e0.len() && (#[trigger] e0[k]).0@ == key;
        assert(e0[k] == effects[k]);
    }
    assert forall|v: i32| #[trigger] last_value_is(effects, key, v) == (if effects.last().0@ == key {
        spec_parse_i32(effects.last().1@)->0 as i32 == v
    } else {
        last_value_is(e0, key, v)
    }) by {
        if effects.last().0@ == key {
            if last_value_is(effects, key, v) {
                let k = choose|k: int| 0 <= k < effects.len() && (#[trigger] effects[k]).0@ == key
                    && spec_parse_i32(effects[k].1@)->0 as i32 == v
                    && forall|j: int| k < j < effects.len() ==> (#[trigger] effects[j]).0@ != key;
                if k < n {
                    assert(effects[n].0@ == key);
                }
            }
            if spec_parse_i32(effects.last().1@)->0 as i32 == v {
                assert(effects[n].0@ == key);
            }
        } else {
            if last_value_is(effects, key, v) {
                let k = choose|k: int| 0 <= k < effects.len() && (#[trigger] effects[k]).0@ == key
                    && spec_parse_i32(effects[k].1@)->0 as i32 == v
                    && forall|j: int| k < j < effects.len() ==> (#[trigger] effects[j]).0@ != key;
                assert(e0[k] == effects[k]);
                assert forall|j: int| k < j < e0.len() implies (#[trigger] e0[j]).0@ != key by {
                    assert(e0[j] == effects[j]);
                }
            }
            if last_value_is(e0, key, v) {
                let k = choose|k: int| 0 <= k < e0.len() && (#[trigger] e0[k]).0@ == key
                    && spec_parse_i32(e0[k].1@)->0 as i32 == v
                    && forall|j: int| k < j < e0.len() ==> (#[trigger] e0[j]).0@ != key;
                assert(e0[k] == effects[k]);
                assert forall|j: int| k < j < effects.len() implies (#[trigger] effects[j]).0@ != key by {
                    if j < n { assert(e0[j] == effects[j]); }
                }
            }
        }
    }
}

/// Each effect of a consumable sets the component of its own name and no
/// other: healing, range, damage, area and confusion are set exactly when
/// the list names them, to the number of the last entry of that name (so a
/// `damage` entry gives damage and never healing); magic mapping and food
/// are given exactly when named.
pub proof fn lemma_effects_follow_their_names(effects: Seq<(String, String)>)
    ensures
        set_by(effects_of(effects).provides_healing, effects, "provides_healing"@),
        set_by(effects_of(effects).ranged, effects, "ranged"@),
        set_by(effects_of(effects).inflicts_damage, effects, "damage"@),
        set_by(effects_of(effects).area_of_effect, effects, "area_of_effect"@),
        set_by(effects_of(effects).confusion, effects, "confusion"@),
        effects_of(effects).magic_mapper == has_effect(effects, "magic_mapping"@),
        effects_of(effects).provides_food == has_effect(effects, "food"@),
    decreases effects.len(),
{
    reveal_strlit("provides_healing");
    reveal_strlit("ranged");
    reveal_strlit("damage");
    reveal_strlit("area_of_effect");
    reveal_strlit("confusion");
    reveal_strlit("magic_mapping");
    reveal_strlit("food");
    assert("damage"@ != "ranged"@) by {
        assert("damage"@[0] != "ranged"@[0]);
    }
    assert("provides_healing"@.len() == 16);
    assert("ranged"@.len() == 6);
    assert("damage"@.len() == 6);
    assert("area_of_effect"@.len() == 14);
    assert("confusion"@.len() == 9);
    assert("magic_mapping"@.len() == 13);
    assert("food"@.len() == 4);
    if effects.len() == 0 {
    } else {
        let e0 = effects.drop_last();
        lemma_effects_follow_their_names(e0);
        lemma_has_effect_last(effects, "provides_healing"@);
        lemma_has_effect_last(effects, "ranged"@);
        lemma_has_effect_last(effects, "damage"@);
        lemma_has_effect_last(effects, "area_of_effect"@);
        lemma_has_effect_last(effects, "confusion"@);
        lemma_has_effect_last(effects, "magic_mapping"@);
        lemma_has_effect_last(effects, "food"@);
    }
}

/// Every effect that carries a number carries a readable one.
pub open spec fn effects_readable(effects: Seq<(String, String)>) -> bool {
    forall|k: int| 0 <= k < effects.len() && numeric_effect((#[trigger] effects[k]).0@) ==> spec_parse_i32(effects[k].1@) is Some
}

fn consumable_effects(effects: &Vec<(String, String)>) -> (r: ConsumableEffects)
    requires
        effects_readable(effects@),
    ensures
        r == effects_of(effects@),
{
    let mut c = ConsumableEffects {
        provides_healing: None,
        ranged: None,
        inflicts_damage: None,
        area_of_effect: None,
        confusion: None,
        magic_mapper: false,
        provides_food: false,
    };
    for k in 0..effects.len()
        invariant
            effects_readable(effects@),
            c == effects_of(effects@.take(k as int)),
    {
        let key = &effects[k].0;
        let value = &effects[k].1;
        proof {
            assert(effects@.take(k + 1).drop_last() == effects@.take(k as int));
            assert(effects@.take(k + 1).last() == effects@[k as int]);
        }
        let numeric = str_is(key, "provides_healing") || str_is(key, "ranged") || str_is(key, "damage")
            || str_is(key, "area_of_effect") || str_is(key, "confusion");
        let v: i32 = if numeric {
            match parse_i32(value) {
                Some(v) => v,
                None => 0,
            }
        } else {
            0
        };
        if str_is(key, "provides_healing") {
            c = ConsumableEffects { provides_healing: Some(v), ..c };
        } else if str_is(key, "ranged") {
            c = ConsumableEffects { ranged: Some(v), ..c };
        } else if str_is(key, "damage") {
            c = ConsumableEffects { inflicts_damage: Some(v), ..c };
        } else if str_is(key, "area_of_effect") {
            c = ConsumableEffects { area_of_effect: Some(v), ..c };
        } else if str_is(key, "confusion") {
            c = ConsumableEffects { confusion: Some(v), ..c };
        } else if str_is(key, "magic_mapping") {
            c = ConsumableEffects { magic_mapper: true, ..c };
        } else if str_is(key, "food") {
            c = ConsumableEffects { provides_food: true, ..c };
        }
    }
    proof { assert(effects@.take(effects@.len() as int) == effects@); }
    c
}

/// Where a spawned entity goes.
#[derive(Clone, Copy, Debug, PartialEq, Eq, Structural)]
pub enum SpawnType {
    AtPosition { x: i32, y: i32 },
}

/// An item to put in the world: its name, place, look and components.
pub struct ItemBlueprint {
    pub name: String,
    pub pos: SpawnType,
    /// The index of the template whose look it has, when it has one.
    pub renderable: Option<usize>,
    pub consumable: bool,
    pub effects: ConsumableEffects,
    pub equippable: Option<EquipmentSlot>,
    pub melee_power_bonus: Option<i32>,
    pub defense_bonus: Option<i32>,
}

/// The item template that `key` names, if any, can be spawned: the numbers
/// of its effects read.
pub open spec fn item_readable(pm: &PrefabMaster, key: Seq<char>) -> bool {
    last_named(item_names(pm), key) matches Some(i) ==> match pm.prefabs.items@[i].consumable {
        Some(c) => effects_readable(c.effects@),
        None => true,
    }
}

/// What an item template spawns: the item named after it at `pos`, with
/// its look; a consumable gets the components of its effects; a melee
/// weapon can be equipped in the melee slot and adds its power; a shield
/// can be equipped in the shield slot (over a weapon's slot) and adds its
/// defence.
pub open spec fn item_blueprint_ok(t: ItemTemplate, index: int, pos: SpawnType, b: ItemBlueprint) -> bool {
    let melee = t.weapon matches Some(w) && w.range@ == "melee"@;
    &&& b.name@ == t.name@
    &&& b.pos == pos
    &&& b.renderable == (if t.renderable is Some { Some(index as usize) } else { None })
    &&& b.consumable == t.consumable is Some
    &&& b.effects == (match t.consumable { Some(c) => effects_of(c.effects@), None => no_effects() })
    &&& b.equippable == (if t.shield is Some { Some(EquipmentSlot::Shield) } else if melee { Some(EquipmentSlot::Melee) } else { None })
    &&& b.melee_power_bonus == (if melee { Some(t.weapon->0.power_bonus) } else { None })
    &&& b.defense_bonus == (match t.shield { Some(s) => Some(s.defense_bonus), None => None })
}

/// The item named `key` (the last template of that name), ready to be put
/// at `pos`; `None` when no item has that name.
pub fn spawn_named_item(pm: &PrefabMaster, key: &String, pos: SpawnType) -> (r: Option<ItemBlueprint>)
    requires
        item_readable(pm, key@),
    ensures
        r is Some <==> last_named(item_names(pm), key@) is Some,
        r matches Some(b) ==> {
            let i = last_named(item_names(pm), key@)->0;
            item_blueprint_ok(pm.prefabs.items@[i], i, pos, b)
        },
{
    match find_item(pm, key) {
        None => None,
        Some(i) => {
            proof { lemma_last_named_in(item_names(pm), key@); }
            let t = &pm.prefabs.items[i];
            let effects = match &t.consumable {
                Some(c) => consumable_effects(&c.effects),
                None => ConsumableEffects {
                    provides_healing: None,
                    ranged: None,
                    inflicts_damage: None,
                    area_of_effect: None,
                    confusion: None,
                    magic_mapper: false,
                    provides_food: false,
                },
            };
            let melee = match &t.weapon {
                Some(w) => str_is(&w.range, "melee"),
                None => false,
            };
            let equippable = if t.shield.is_some() {
                Some(EquipmentSlot::Shield)
            } else if melee {
                Some(EquipmentSlot::Melee)
            } else {
                None
            };
            let melee_power_bonus = match &t.weapon {
                Some(w) => if melee { Some(w.power_bonus) } else { None },
                None => None,
            };
            let defense_bonus = match &t.shield {
                Some(s) => Some(s.defense_bonus),
                None => None,
            };
            Some(ItemBlueprint {
                name: t.name.clone(),
                pos,
                renderable: if t.renderable.is_some() { Some(i) } else { None },
                consumable: t.consumable.is_some(),
                effects,
                equippable,
                melee_power_bonus,
                defense_bonus,
            })
        },
    }
}

/// How a creature behaves.
#[derive(Clone, Copy, Debug, PartialEq, Eq, Structural)]
pub enum MobAi {
    /// It attacks (the "melee" AI).
    Monster,
    /// It wanders about (the "bystander" AI).
    Bystander,
    /// An AI the game does not know.
    Unknown,
}

/// A creature to put in the world.
pub struct MobBlueprint {
    pub name: String,
    pub pos: SpawnType,
    pub vision_range: i32,
    pub stats: MobStats,
    pub ai: MobAi,
    /// The index of the template whose look it has, when it has one.
    pub renderable: Option<usize>,
    pub blocks_tile: bool,
}

/// The creature named `key` (the last template of that name), ready to be
/// put at `pos`, with the AI its template names; `None` when no creature
/// has that name.
pub fn spawn_named_mob(pm: &PrefabMaster, key: &String, pos: SpawnType) -> (r: Option<MobBlueprint>)
    ensures
        r is Some <==> last_named(mob_names(pm), key@) is Some,
        r matches Some(b) ==> {
            let i = last_named(mob_names(pm), key@)->0;
            let t = pm.prefabs.mobs@[i];
            &&& b.name@ == t.name@
            &&& b.pos == pos
            &&& b.vision_range == t.vision_range
            &&& b.stats == t.stats
            &&& b.ai == (if t.ai@ == "melee"@ { MobAi::Monster } else if t.ai@ == "bystander"@ { MobAi::Bystander } else { MobAi::Unknown })
            &&& b.renderable == (if t.renderable is Some { Some(i as usize) } else { None })
            &&& b.blocks_tile == t.blocks_tile
        },
{
    match find_mob(pm, key) {
        None => None,
        Some(i) => {
            proof { lemma_last_named_in(mob_names(pm), key@); }
            let t = &pm.prefabs.mobs[i];
            let ai = if str_is(&t.ai, "melee") {
                MobAi::Monster
            } else if str_is(&t.ai, "bystander") {
                MobAi::Bystander
            } else {
                MobAi::Unknown
            };
            Some(MobBlueprint {
                name: t.name.clone(),
                pos,
                vision_range: t.vision_range,
                stats: t.stats,
                ai,
                renderable: if t.renderable.is_some() { Some(i) } else { None },
                blocks_tile: t.blocks_tile,
            })
        },
    }
}

/// What a trap's effects give: damage and whether it fires once.
#[derive(Clone, Copy, Debug, PartialEq, Eq, Structural)]
pub struct TriggerEffects {
    pub inflicts_damage: Option<i32>,
    pub single_activation: bool,
}

/// The trap effects after one more `(key, value)` pair.
pub open spec fn with_trigger_effect(c: TriggerEffects, key: Seq<char>, value: Seq<char>) -> TriggerEffects {
    if key == "damage"@ {
        TriggerEffects { inflicts_damage: Some(spec_parse_i32(value)->0 as i32), ..c }
    } else if key == "single_activation"@ {
        TriggerEffects { single_activation: true, ..c }
    } else {
        c
    }
}

/// What the trap effects give, taken in order.
pub open spec fn trigger_effects_of(effects: Seq<(String, String)>) -> TriggerEffects
    decreases effects.len(),
{
    if effects.len() == 0 {
        TriggerEffects { inflicts_damage: None, single_activation: false }
    } else {
        with_trigger_effect(trigger_effects_of(effects.drop_last()), effects.last().0@, effects.last().1@)
    }
}

/// Every damage effect of the trap carries a readable number.
pub open spec fn trigger_readable(effects: Seq<(String, String)>) -> bool {
    forall|k: int| 0 <= k < effects.len() && (#[trigger] effects[k]).0@ == "damage"@ ==> spec_parse_i32(effects[k].1@) is Some
}

fn trigger_effects(effects: &Vec<(String, String)>) -> (r: TriggerEffects)
    requires
        trigger_readable(effects@),
    ensures
        r == trigger_effects_of(effects@),
{
    let mut c = TriggerEffects { inflicts_damage: None, single_activation: false };
    for k in 0..effects.len()
        invariant
            trigger_readable(effects@),
            c == trigger_effects_of(effects@.take(k as int)),
    {
        let key = &effects[k].0;
        proof {
            assert(effects@.take(k + 1).drop_last() == effects@.take(k as int));
            assert(effects@.take(k + 1).last() == effects@[k as int]);
        }
        if str_is(key, "damage") {
            let v = match parse_i32(&effects[k].1) {
                Some(v) => v,
                None => 0,
            };
            c = TriggerEffects { inflicts_damage: Some(v), ..c };
        } else if str_is(key, "single_activation") {
            c = TriggerEffects { single_activation: true, ..c };
        }
    }
    proof { assert(effects@.take(effects@.len() as int) == effects@); }
    c
}

/// A prop to put in the world.
pub struct PropBlueprint {
    pub name: String,
    pub pos: SpawnType,
    /// The index of the template whose look it has, when it has one.
    pub renderable: Option<usize>,
    pub hidden: bool,
    pub blocks_tile: bool,
    pub blocks_visibility: bool,
    /// Whether it is a door, and then whether it is open.
    pub door: Option<bool>,
    pub entry_trigger: bool,
    pub trigger: TriggerEffects,
}

/// The prop templates can be spawned: their trap effects read.
pub open spec fn props_readable(pm: &PrefabMaster) -> bool {
    forall|i: int| 0 <= i < pm.prefabs.props@.len() ==> match (#[trigger] pm.prefabs.props@[i]).entry_trigger {
        Some(t) => trigger_readable(t.effects@),
        None => true,
    }
}

/// The prop named `key` (the last template of that name), ready to be put
/// at `pos`: hidden, blocking or a door as its template says, and a trap
/// with its effects; `None` when no prop has that name.
pub fn spawn_named_prop(pm: &PrefabMaster, key: &String, pos: SpawnType) -> (r: Option<PropBlueprint>)
    requires
        props_readable(pm),
    ensures
        r is Some <==> last_named(prop_names(pm), key@) is Some,
        r matches Some(b) ==> {
            let i = last_named(prop_names(pm), key@)->0;
            let t = pm.prefabs.props@[i];
            &&& b.name@ == t.name@
            &&& b.pos == pos
            &&& b.renderable == (if t.renderable is Some { Some(i as usize) } else { None })
            &&& b.hidden == (t.hidden == Some(true))
            &&& b.blocks_tile == (t.blocks_tile == Some(true))
            &&& b.blocks_visibility == (t.blocks_visibility == Some(true))
            &&& b.door == t.door_open
            &&& b.entry_trigger == t.entry_trigger is Some
            &&& b.trigger == (match t.entry_trigger {
                Some(e) => trigger_effects_of(e.effects@),
                None => TriggerEffects { inflicts_damage: None, single_activation: false },
            })
        },
{
    match find_prop(pm, key) {
        None => None,
        Some(i) => {
            proof { lemma_last_named_in(prop_names(pm), key@); }
            let t = &pm.prefabs.props[i];
            let trigger = match &t.entry_trigger {
                Some(e) => trigger_effects(&e.effects),
                None => TriggerEffects { inflicts_damage: None, single_activation: false },
            };
            Some(PropBlueprint {
                name: t.name.clone(),
                pos,
                renderable: if t.renderable.is_some() { Some(i) } else { None },
                hidden: t.hidden == Some(true),
                blocks_tile: t.blocks_tile == Some(true),
                blocks_visibility: t.blocks_visibility == Some(true),
                door: t.door_open,
                entry_trigger: t.entry_trigger.is_some(),
                trigger,
            })
        },
    }
}

/// Anything that can be spawned by name.
pub enum EntityBlueprint {
    Item(ItemBlueprint),
    Mob(MobBlueprint),
    Prop(PropBlueprint),
}

/// The entity named `key`: an item if one has that name, else a creature,
/// else a prop; `None` when nothing has that name.
pub fn spawn_named_entity(pm: &PrefabMaster, key: &String, pos: SpawnType) -> (r: Option<EntityBlueprint>)
    requires
        item_readable(pm, key@),
        props_readable(pm),
    ensures
        r is Some <==> (last_named(item_names(pm), key@) is Some || last_named(mob_names(pm), key@) is Some
            || last_named(prop_names(pm), key@) is Some),
        r matches Some(EntityBlueprint::Item(_)) ==> last_named(item_names(pm), key@) is Some,
        r matches Some(EntityBlueprint::Mob(_)) ==> last_named(item_names(pm), key@) is None
            && last_named(mob_names(pm), key@) is Some,
        r matches Some(EntityBlueprint::Prop(_)) ==> last_named(item_names(pm), key@) is None
            && last_named(mob_names(pm), key@) is None,
{
    match spawn_named_item(pm, key, pos) {
        Some(b) => Some(EntityBlueprint::Item(b)),
        None => match spawn_named_mob(pm, key, pos) {
            Some(b) => Some(EntityBlueprint::Mob(b)),
            None => match spawn_named_prop(pm, key, pos) {
                Some(b) => Some(EntityBlueprint::Prop(b)),
                None => None,
            },
        },
    }
}

/// The entry can appear at `depth`.
pub open spec fn entry_at_depth(e: SpawnTableEntry, depth: int) -> bool {
    e.min_depth <= depth <= e.max_depth
}

/// An entry's weight at `depth`: its own, raised by the depth where the
/// entry asks for it.
pub open spec fn weight_at(e: SpawnTableEntry, depth: int) -> int {
    e.weight + (if e.add_map_depth_to_weight is Some { depth } else { 0 })
}

/// The names and weights that the spawn table gives at `depth`: the entries
/// whose depth range holds it, in order, with their weight at that depth,
/// those whose weight is not positive left out.
pub open spec fn table_for(entries: Seq<SpawnTableEntry>, depth: int) -> Seq<(Seq<char>, int)>
    decreases entries.len(),
{
    if entries.len() == 0 {
        seq![]
    } else {
        let e = entries.last();
        let rest = table_for(entries.drop_last(), depth);
        if entry_at_depth(e, depth) && weight_at(e, depth) > 0 { rest.push((e.name@, weight_at(e, depth))) } else { rest }
    }
}

/// The sum of the weights of a list of names and weights.
pub open spec fn weights_sum(t: Seq<(Seq<char>, int)>) -> int
    decreases t.len(),
{
    if t.len() == 0 { 0 } else { weights_sum(t.drop_last()) + t.last().1 }
}

/// The names and weights of a table's entries, the names by their characters.
pub open spec fn table_view(rt: &RandomTable) -> Seq<(Seq<char>, int)> {
    rt.entries@.map_values(|e: (String, i32)| (e.0@, e.1 as int))
}

/// The spawn table for `depth`: the entries whose depth range holds it, in
/// order, each at its weight for that depth (see `table_for`).
pub fn get_spawn_table_for_depth(pm: &PrefabMaster, depth: i32) -> (r: RandomTable)
    requires
        -0x1000_0000 <= depth <= 0x1000_0000,
        forall|k: int| 0 <= k < pm.prefabs.spawn_table@.len() ==> -0x1000_0000 <= (#[trigger] pm.prefabs.spawn_table@[k]).weight <= 0x1000_0000,
        weights_sum(table_for(pm.prefabs.spawn_table@, depth as int)) <= i32::MAX,
    ensures
        r.wf(),
        table_view(&r) == table_for(pm.prefabs.spawn_table@, depth as int),
        r.total_weight == weights_sum(table_for(pm.prefabs.spawn_table@, depth as int)),
{
    let table = &pm.prefabs.spawn_table;
    let mut rt = RandomTable::new();
    let ghost all = table@;
    proof {
        assert(table_view(&rt) =~= table_for(all.take(0), depth as int));
    }
    for k in 0..table.len()
        invariant
            table == pm.prefabs.spawn_table,
            all == table@,
            -0x1000_0000 <= depth <= 0x1000_0000,
            forall|j: int| 0 <= j < table@.len() ==> -0x1000_0000 <= (#[trigger] table@[j]).weight <= 0x1000_0000,
            weights_sum(table_for(all, depth as int)) <= i32::MAX,
            rt.wf(),
            table_view(&rt) == table_for(all.take(k as int), depth as int),
            rt.total_weight == weights_sum(table_for(all.take(k as int), depth as int)),
    {
        let e = &table[k];
        proof {
            lemma_table_for_step(all, depth as int, k as int);
            lemma_table_for_prefix(all, depth as int, k + 1);
        }
        if e.min_depth <= depth && depth <= e.max_depth {
            let weight = if e.add_map_depth_to_weight.is_some() { e.weight + depth } else { e.weight };
            let ghost v0 = table_view(&rt);
            rt = rt.add(e.name.clone(), weight);
            proof {
                assert(table_view(&rt) =~= table_for(all.take(k + 1), depth as int));
            }
        } else {
            proof {
                assert(table_view(&rt) =~= table_for(all.take(k + 1), depth as int));
            }
        }
    }
    proof { assert(all.take(all.len() as int) =~= all); }
    rt
}

/// Going one entry further adds that entry, when it counts at `depth`.
pub proof fn lemma_table_for_step(all: Seq<SpawnTableEntry>, depth: int, k: int)
    requires
        0 <= k < all.len(),
    ensures
        ({
            let e = all[k];
            let before = table_for(all.take(k), depth);
            let after = table_for(all.take(k + 1), depth);
            if entry_at_depth(e, depth) && weight_at(e, depth) > 0 {
                &&& after == before.push((e.name@, weight_at(e, depth)))
                &&& weights_sum(after) == weights_sum(before) + weight_at(e, depth)
            } else {
                &&& after == before
                &&& weights_sum(after) == weights_sum(before)
            }
        }),
{
    assert(all.take(k + 1).drop_last() =~= all.take(k));
    assert(all.take(k + 1).last() == all[k]);
    let e = all[k];
    let before = table_for(all.take(k), depth);
    if entry_at_depth(e, depth) && weight_at(e, depth) > 0 {
        let after = before.push((e.name@, weight_at(e, depth)));
        assert(after.drop_last() =~= before);
    }
}

/// The weights that the first `k` entries give sum to no more than those
/// of all entries.
pub proof fn lemma_table_for_prefix(all: Seq<SpawnTableEntry>, depth: int, k: int)
    requires
        0 <= k <= all.len(),
    ensures
        weights_sum(table_for(all.take(k), depth)) <= weights_sum(table_for(all, depth)),
    decreases all.len() - k,
{
    if k < all.len() {
        lemma_table_for_prefix(all, depth, k + 1);
        lemma_table_for_step(all, depth, k);
    } else {
        assert(all.take(k) =~= all);
    }
}

} // verus!
