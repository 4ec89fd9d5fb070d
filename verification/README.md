# xiaofeng

The engine of a small top-down roguelike, split in two.

- `src/` is the library, verified with Verus: error values and their
  messages, the player's inventory and its mouse and key handling, loot
  tables, the chunked terrain grid with its collision and damage caches,
  entity archetype validation, room generation from spawn options, the
  player's steering, abilities and attacks, the game's screens, the
  camera's element and text registries, the level editor's text field, and the index arithmetic of render
  batches and sprite sheets. Each public function states what it does in its
  contract; the laws that relate several functions are public proof
  functions.
- `app/` is the program around it: loading the game data (JSON), the
  floating-point positions, stats and movement of the player and the
  monsters, and the frame loop.
- `tests/` exercise the library on concrete values.

The hash maps of `rustc_hash` and the random numbers of `rand` are used
from the library through a few trusted functions whose contracts say what
those crates do.
