# adventure

A small text adventure engine. Places are joined by named exits; they hold objects that the
player can take, drop, eat or fight with, and critters that can be attacked and that strike
back when mad.

## Layout

- `src/` is the library, verified with Verus:
  - `names.rs`: looking a thing up by the words the player typed (`get_name`);
  - `text.rs`: splitting a line into words, lower-casing, decimal numbers;
  - `dict.rs`: `Dict`, a table from names to values (the exits, the places, the aliases,
    the critter table), viewed as a `Map`;
  - `world.rs`: the game data, each type with a mathematical view, critter behaviour
    (`hurt`, `kill`, `tick`), what showing a place prints, and setting a world up;
  - `command.rs`: reading a command line and carrying it out, then ending the turn, each
    step described by a spec function over the views;
  - `laws.rs`: properties that span the operations (what moves objects keeps them, where
    moving can lead, what the end of a turn can change, and so on);
  - `chance.rs`: the random numbers the game draws.
- `app/` is the program around the library: command-line options, reading the data files
  (`data/world.yml`, `data/critters.yml`, `data/player.yml`), the terminal loop, and saving
  and loading games as YAML.
- `tests/` holds the tests.
