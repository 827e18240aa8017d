# roguelike

A small tile-based roguelike: dungeon and town generators, field of view,
path finding, menus, items, combat and the turn loop that ties them together.

The game's rules live in a library written in Verus. Its functions state
in `requires`/`ensures` what they need and what they return or change, and
Verus proves the code against those contracts (a constructor with nothing
to set up, such as a builder without fields, has none). The
outside crates it builds on (`rltk` for dice and lines, `pathfinding` for
A*, `num-rational` for exact slopes) are reached through a handful of small
trusted wrappers, each of which says in its doc comment what it claims of
the crate.

Layout:

- `src/` – the verified library
  - `map.rs`, `tile.rs`, `rect.rs`, `point.rs` – the map and its cells
  - `fov.rs`, `astar.rs` – what a creature sees, and how it walks
  - `builders/` – the map generators (rooms and corridors, BSP, cellular
    automata, the starting point and clean-up steps of the drunkard's walk,
    diffusion-limited aggregation, mazes,
    prefabricated levels and sections, the harbour town, the forest road,
    the pattern gallery of the wave-function-collapse builder)
  - `spawner.rs`, `random_table.rs`, `prefabs.rs` – what is spawned where
  - `state.rs`, `systems.rs`, `ai.rs`, `combat.rs`, `inventory.rs`,
    `gui.rs`, `camera.rs`, `themes.rs` – the turn loop, monsters, items and
    what the screen shows
- `tests/` – tests of the library on concrete values
- `app/` – the game itself: the window, input, the entity store, drawing,
  saving and loading, and the few computations that need floating point
