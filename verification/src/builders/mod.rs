use vstd::prelude::*;
use rltk::RandomNumberGenerator;
use crate::map::TileMap;
use crate::components::Position;
use crate::rect::Rect;

pub mod common;
pub mod cellular_automata;
pub mod wfc_constraints;
pub mod simple_map;
pub mod room_sorter;
pub mod room_draw;
pub mod rooms_corridors_bsp;
pub mod distant_exit;
pub mod forest;
pub mod dla;
pub mod prefab_rooms;
pub mod town;
pub mod drunkard;
pub mod bsp_dungeon;
pub mod bsp_interior;
pub mod maze;
pub mod prefab_builder;
pub mod waveform_collapse;

verus! {

/// Whether map generation records snapshots of its progress.
pub const SHOW_MAPGEN_VISUALIZER: bool = true;

/// The map being built and what the builders have found out about it.
pub struct BuilderMap {
    pub map: TileMap,
    pub starting_position: Option<Position>,
    pub rooms: Option<Vec<Rect>>,
    pub history: Vec<TileMap>,
    pub spawn_list: Vec<(usize, String)>,
}

impl BuilderMap {
    /// The map is sane, and no side is longer than the generators' coordinate
    /// arithmetic is laid out for.
    pub open spec fn wf(&self) -> bool {
        &&& self.map.wf()
        &&& self.map.width <= 0x4000
        &&& self.map.height <= 0x4000
    }

    /// Records a copy of the map, fully revealed, in the history.
    pub fn take_snapshot(&mut self)
        requires
            old(self).wf(),
        ensures
            final(self).map == old(self).map,
            final(self).starting_position == old(self).starting_position,
            final(self).rooms == old(self).rooms,
            final(self).spawn_list == old(self).spawn_list,
            final(self).history@.len() == old(self).history@.len() + 1,
            final(self).history@.subrange(0, old(self).history@.len() as int) == old(self).history@,
            ({
                let s = final(self).history@.last();
                &&& s.tiles@ == old(self).map.tiles@
                &&& s.width == old(self).map.width
                &&& s.height == old(self).map.height
                &&& s.revealed_tiles@.len() == old(self).map.revealed_tiles@.len()
                &&& forall|i: int| 0 <= i < s.revealed_tiles@.len() ==> #[trigger] s.revealed_tiles@[i]
            }),
    {
        if SHOW_MAPGEN_VISUALIZER {
            let mut snapshot = self.map.duplicate();
            let n = snapshot.revealed_tiles.len();
            for i in 0..n
                invariant
                    n == snapshot.revealed_tiles.len(),
                    snapshot.tiles@ == self.map.tiles@,
                    snapshot.width == self.map.width,
                    snapshot.height == self.map.height,
                    forall|j: int| 0 <= j < i ==> #[trigger] snapshot.revealed_tiles@[j],
            {
                snapshot.revealed_tiles.set(i, true);
            }
            self.history.push(snapshot);
        }
    }
}

/// A builder that lays down a first map.
pub trait InitialMapBuilder {
    fn build_map(&mut self, rng: &mut RandomNumberGenerator, build_data: &mut BuilderMap)
        requires
            old(build_data).wf(),
        ensures
            final(build_data).wf(),
    ;
}

/// A builder that reworks a map another builder has laid down.
pub trait MetaMapBuilder {
    fn build_map(&mut self, rng: &mut RandomNumberGenerator, build_data: &mut BuilderMap)
        requires
            old(build_data).wf(),
        ensures
            final(build_data).wf(),
    ;
}

/// A first builder followed by builders that rework its map in turn.
pub struct BuilderChain {
    pub starter: Option<Box<dyn InitialMapBuilder>>,
    pub builders: Vec<Box<dyn MetaMapBuilder>>,
    pub build_data: BuilderMap,
}

impl BuilderChain {
    /// A chain with no builders yet, over a fresh `width` by `height` map of
    /// walls named `name`, with nothing found out about it.
    pub fn new(depth: i32, width: i32, height: i32, name: String) -> (r: BuilderChain)
        requires
            0 <= width <= 0x4000,
            0 <= height <= 0x4000,
            width * height <= crate::map::max_cells(),
        ensures
            r.starter is None,
            r.builders@.len() == 0,
            r.build_data.wf(),
            r.build_data.map.depth == depth,
            r.build_data.map.width == width,
            r.build_data.map.height == height,
            r.build_data.map.name@ == name@,
            forall|i: int| 0 <= i < r.build_data.map.tiles@.len() ==> #[trigger] r.build_data.map.tiles@[i] == crate::tile::TileType::Wall,
            r.build_data.starting_position is None,
            r.build_data.rooms is None,
            r.build_data.history@.len() == 0,
            r.build_data.spawn_list@.len() == 0,
    {
        BuilderChain {
            starter: None,
            builders: Vec::new(),
            build_data: BuilderMap {
                map: TileMap::new(depth, width, height, name),
                starting_position: None,
                rooms: None,
                history: Vec::new(),
                spawn_list: Vec::new(),
            },
        }
    }

    /// Sets the builder that lays down the first map; a chain has only one.
    pub fn start_with(&mut self, starter: Box<dyn InitialMapBuilder>)
        requires
            old(self).starter is None,
        ensures
            final(self).starter is Some,
            final(self).builders == old(self).builders,
            final(self).build_data == old(self).build_data,
    {
        self.starter = Some(starter);
    }

    pub fn with(&mut self, meta_builder: Box<dyn MetaMapBuilder>)
        ensures
            final(self).builders@ == old(self).builders@.push(meta_builder),
    {
        self.builders.push(meta_builder);
    }

    pub fn build_map(&mut self, rng: &mut RandomNumberGenerator)
        requires
            old(self).build_data.wf(),
            old(self).starter is Some,
        ensures
            final(self).build_data.wf(),
    {
        match &mut self.starter {
            None => {},
            Some(starter) => {
                starter.build_map(rng, &mut self.build_data);
            },
        }
        let n = self.builders.len();
        for i in 0..n
            invariant
                self.build_data.wf(),
                n == self.builders.len(),
        {
            self.builders[i].build_map(rng, &mut self.build_data);
        }
    }
}

} // verus!

verus! {

/// The builders that can lay down a level's first map.
#[derive(Clone, Copy, Debug, PartialEq, Eq, Structural)]
pub enum InitialBuilderKind {
    BspDungeon,
    BspInterior,
    CellularAutomata,
    DrunkardOpenArea,
    DrunkardOpenHalls,
    DrunkardWindingPassages,
    DrunkardFatPassage,
    DrunkardFearfulSymmetry,
    Maze,
    DlaWalkInwards,
    DlaWalkOutwards,
    DlaCentralAttractor,
    DlaInsectoid,
    VoronoiPythagoras,
    VoronoiManhattan,
    VoronoiChebyshev,
    PrefabConstant,
    SimpleMap,
}

/// The first builder that a roll of a d18 picks, and whether it records rooms.
pub open spec fn initial_builder_for(roll: int) -> (InitialBuilderKind, bool) {
    if roll == 1 { (InitialBuilderKind::BspDungeon, true) }
    else if roll == 2 { (InitialBuilderKind::BspInterior, true) }
    else if roll == 3 { (InitialBuilderKind::CellularAutomata, false) }
    else if roll == 4 { (InitialBuilderKind::DrunkardOpenArea, false) }
    else if roll == 5 { (InitialBuilderKind::DrunkardOpenHalls, false) }
    else if roll == 6 { (InitialBuilderKind::DrunkardWindingPassages, false) }
    else if roll == 7 { (InitialBuilderKind::DrunkardFatPassage, false) }
    else if roll == 8 { (InitialBuilderKind::DrunkardFearfulSymmetry, false) }
    else if roll == 9 { (InitialBuilderKind::Maze, false) }
    else if roll == 10 { (InitialBuilderKind::DlaWalkInwards, false) }
    else if roll == 11 { (InitialBuilderKind::DlaWalkOutwards, false) }
    else if roll == 12 { (InitialBuilderKind::DlaCentralAttractor, false) }
    else if roll == 13 { (InitialBuilderKind::DlaInsectoid, false) }
    else if roll == 14 { (InitialBuilderKind::VoronoiPythagoras, false) }
    else if roll == 15 { (InitialBuilderKind::VoronoiManhattan, false) }
    else if roll == 16 { (InitialBuilderKind::VoronoiChebyshev, false) }
    else if roll == 17 { (InitialBuilderKind::PrefabConstant, false) }
    else { (InitialBuilderKind::SimpleMap, true) }
}

/// The first builder picked by a roll of a d18 (see `initial_builder_for`),
/// and whether it records rooms.
pub fn initial_builder_kind(roll: i32) -> (r: (InitialBuilderKind, bool))
    ensures
        r == initial_builder_for(roll as int),
{
    match roll {
        1 => (InitialBuilderKind::BspDungeon, true),
        2 => (InitialBuilderKind::BspInterior, true),
        3 => (InitialBuilderKind::CellularAutomata, false),
        4 => (InitialBuilderKind::DrunkardOpenArea, false),
        5 => (InitialBuilderKind::DrunkardOpenHalls, false),
        6 => (InitialBuilderKind::DrunkardWindingPassages, false),
        7 => (InitialBuilderKind::DrunkardFatPassage, false),
        8 => (InitialBuilderKind::DrunkardFearfulSymmetry, false),
        9 => (InitialBuilderKind::Maze, false),
        10 => (InitialBuilderKind::DlaWalkInwards, false),
        11 => (InitialBuilderKind::DlaWalkOutwards, false),
        12 => (InitialBuilderKind::DlaCentralAttractor, false),
        13 => (InitialBuilderKind::DlaInsectoid, false),
        14 => (InitialBuilderKind::VoronoiPythagoras, false),
        15 => (InitialBuilderKind::VoronoiManhattan, false),
        16 => (InitialBuilderKind::VoronoiChebyshev, false),
        17 => (InitialBuilderKind::PrefabConstant, false),
        _ => (InitialBuilderKind::SimpleMap, true),
    }
}

/// Rolls a d18 for a level's first builder (see `initial_builder_for`).
pub fn random_initial_builder(rng: &mut RandomNumberGenerator) -> (r: (InitialBuilderKind, bool))
    ensures
        exists|roll: int| 1 <= roll <= 18 && r == #[trigger] initial_builder_for(roll),
{
    let roll = crate::rng::roll_dice(rng, 1, 18);
    let r = initial_builder_kind(roll);
    assert(r == initial_builder_for(roll as int));
    r
}

} // verus!
