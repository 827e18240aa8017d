use vstd::prelude::*;
use std::collections::HashMap;
use crate::map::TileMap;

verus! {

broadcast use vstd::std_specs::hash::group_hash_axioms;

/// `a` is a copy of `b`: the same tiles, layers, marks and contents.
pub open spec fn same_map(a: TileMap, b: TileMap) -> bool {
    &&& a.tiles@ == b.tiles@
    &&& a.width == b.width
    &&& a.height == b.height
    &&& a.revealed_tiles@ == b.revealed_tiles@
    &&& a.visible_tiles@ == b.visible_tiles@
    &&& a.blocked@ == b.blocked@
    &&& a.depth == b.depth
    &&& a.bloodstains@ == b.bloodstains@
    &&& a.view_blocked@ == b.view_blocked@
    &&& a.name@ == b.name@
    &&& a.tile_content@.len() == b.tile_content@.len()
    &&& forall|i: int| 0 <= i < a.tile_content@.len() ==> (#[trigger] a.tile_content@[i])@ == b.tile_content@[i]@
}

/// `a` is `b` with nobody standing anywhere: a copy of it whose content
/// index holds an empty list for each of its `width * height` cells.
pub open spec fn emptied_copy(a: TileMap, b: TileMap) -> bool {
    &&& a.tiles@ == b.tiles@
    &&& a.width == b.width
    &&& a.height == b.height
    &&& a.revealed_tiles@ == b.revealed_tiles@
    &&& a.visible_tiles@ == b.visible_tiles@
    &&& a.blocked@ == b.blocked@
    &&& a.depth == b.depth
    &&& a.bloodstains@ == b.bloodstains@
    &&& a.view_blocked@ == b.view_blocked@
    &&& a.name@ == b.name@
    &&& a.tile_content@.len() == b.width * b.height
    &&& forall|i: int| 0 <= i < a.tile_content@.len() ==> (#[trigger] a.tile_content@[i])@.len() == 0
}

/// `after` is the store `before` with `map` stored under its depth.
pub open spec fn stored(before: Map<i32, TileMap>, after: Map<i32, TileMap>, map: TileMap) -> bool {
    &&& after.dom() == before.dom().insert(map.depth)
    &&& same_map(after[map.depth], map)
    &&& forall|d: i32| d != map.depth && #[trigger] before.contains_key(d) ==> after[d] == before[d]
}

/// The maps of the levels visited so far, by depth.
pub struct MasterDungeonMap {
    pub maps: HashMap<i32, TileMap>,
}

impl MasterDungeonMap {
    /// Every stored map is sane.
    pub open spec fn wf(&self) -> bool {
        forall|d: i32| #[trigger] self.maps@.contains_key(d) ==> self.maps@[d].wf()
    }

    /// A store with no maps.
    pub fn new() -> (r: MasterDungeonMap)
        ensures
            r.wf(),
            r.maps@ == Map::<i32, TileMap>::empty(),
    {
        MasterDungeonMap { maps: HashMap::new() }
    }

    /// Stores a copy of `map` under its depth, in place of any map stored there.
    pub fn store_map(&mut self, map: &TileMap)
        requires
            old(self).wf(),
            map.wf(),
        ensures
            final(self).wf(),
            stored(old(self).maps@, final(self).maps@, *map),
    {
        let copy = map.duplicate();
        self.maps.insert(map.depth, copy);
        proof {
            assert(self.maps@.dom() =~= old(self).maps@.dom().insert(map.depth));
        }
    }

    /// A copy of the map stored for `depth`, with nobody standing anywhere,
    /// or none when no map is stored there.
    pub fn get_map(&self, depth: i32) -> (r: Option<TileMap>)
        requires
            self.wf(),
        ensures
            r is Some <==> self.maps@.contains_key(depth),
            r matches Some(m) ==> emptied_copy(m, self.maps@[depth]),
    {
        match self.maps.get(&depth) {
            Some(stored_map) => {
                let mut result = stored_map.duplicate();
                let n = (result.width * result.height) as usize;
                let mut content: Vec<Vec<u64>> = Vec::new();
                for i in 0..n
                    invariant
                        content@.len() == i,
                        forall|j: int| 0 <= j < i ==> (#[trigger] content@[j])@.len() == 0,
                {
                    content.push(Vec::new());
                }
                result.tile_content = content;
                Some(result)
            },
            None => None,
        }
    }
}

/// What a read gives back of a write: after a map is stored, the store
/// holds a copy of it under its depth, and every other depth keeps what it
/// held; reading that depth back gives the copy with nobody on it.
pub proof fn lemma_get_after_store(before: Map<i32, TileMap>, after: Map<i32, TileMap>, map: TileMap, depth: i32, got: TileMap)
    requires
        stored(before, after, map),
    ensures
        after.contains_key(map.depth),
        depth != map.depth ==> (after.contains_key(depth) <==> before.contains_key(depth)),
        depth != map.depth && before.contains_key(depth) ==> after[depth] == before[depth],
        depth == map.depth && emptied_copy(got, after[depth]) ==> emptied_copy(got, map),
{
    assert(after.dom().contains(map.depth));
}

} // verus!
