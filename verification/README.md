# Maplewood

The logic of a small 2D adventure game engine, verified with Verus: an
entity-component store with deferred mutations, story variables and the
conditions scripts start on, script metadata and sub-script extraction,
LDtk world loading into tile and collision grids, nine-slice layout, input
decisions and the state of the developer windows.

## Layout

- `src/` — the verified library. Each module states its data model with
  spec functions and views, gives every public function a contract, and
  proves the laws that span several calls (`law_*` proof functions).
  - `ecs.rs` — entities, component presence, names, queries, deferred
    mutations (entity handles come from `slotmap`, see `slots.rs`).
  - `world.rs` — LDtk levels and worlds to maps: tile layers, collision
    grids, world bounds, the map store.
  - `story.rs` — story variables and start conditions (references are found
    with `regex`, expressions evaluated with `evalexpr`).
  - `script.rs` — script annotations, sub-scripts in files, which scripts
    start, what a waiting script waits for.
  - `dev_ui.rs`, `ui.rs`, `input.rs`, `nine_slice.rs`, `loader.rs`,
    `components.rs`, `logger.rs`, `math.rs`, `text.rs` — the rest.
- `tests/` — tests run against the compiled library with the real outside
  crates.
- `app/` — the game around the library: SDL2 window, input, sound and
  drawing, LDtk and JSON parsing, Lua scripting with `mlua`, and the
  floating-point movement and collision code.
