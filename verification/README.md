# simulator

A layout planner and economy calculator for Stronghold Crusader production
chains, written in Verus. Buildings and walls are placed on a signed grid,
workers walk eight-direction shortest routes between building entries, and
the library works out weapon workshop cycles, the wheat-to-bread chain and
the population economy.

## Layout

- `src/` — the verified library.
  - `buildings/` — building types, footprints, placements, the factory that
    hands out identifiers and goods yard stacks.
  - `map/` — canvas bounds and the cell map that records occupants and
    blocked cells.
  - `walls.rs` — straight wall segments and their cells.
  - `simulation/` — the `Simulator`: placement with canvas growth, removal,
    entry points, breadth-first route search, worker routes, production
    cycles, the bread chain, the population calculator, and the command step
    of the editing backend.
  - `project.rs` — the saved form of a layout and loading it back.
  - `history.rs` — undo and redo snapshots.
  - `editor.rs` — the map editor's tool and settings state.
  - `session.rs` — the open project and the recent-files list.
- `tests/` — tests run against the compiled library.
- `app/` — a command-line front end: reads and writes project JSON, keeps
  the recent-files list on disk, and prints rates per minute, which are
  floating-point and computed there.

## Running

The library is checked with Verus; the front end takes a project file:

```text
simulator <project.json>
simulator --recent
simulator --new <project.json> [map size]
simulator --edit <project.json> place <building> <x> <y>
```
