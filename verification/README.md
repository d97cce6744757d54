# The Ashen Chronicle

A terminal role-playing game about a persistent world: characters die, the world
remembers, and the next life inherits what was left behind. Campaigns are data:
a base campaign file and mods under `data/mods`, each mod a folder whose JSON
`manifest` file names its content file.

## Layout

- `src/` is the library, verified with Verus:
  - `model.rs`: the world, characters, factions, quests and the game state, with new
    and inherited games;
  - `content.rs` and `content/`: campaign content, its validation, the filtering of
    events, merging of mods by stable ids, the order mods load in, and seeding a world
    from content;
  - `events.rs`: event conditions, cooldowns, weighted selection and effects;
  - `persistence.rs`: save-file versions and bringing older saves up to date;
  - `ui.rs`: the journal, the dashboard panels, list and prompt behaviour, layout sizes;
  - `screens.rs`: start, load, quit and death menus and the record read out at a death;
  - `text.rs`: character-level text helpers.
- `app/` is the program around it: terminal drawing with ratatui and crossterm,
  reading keys, files, JSON through serde, and the session loop.
- `tests/` runs the library on concrete values.
