# pgn_nag

Annotated PGN games: reading and writing them, and browsing them move by
move in a terminal (`nag`).

- `src/` is the library, verified with Verus: the PGN reader and writer
  (`pgn`), the model of games and evaluations (`model`), the command line
  (`cli`), the settings' defaults (`config`), the choice of game files
  (`library`) and everything the screens show or do with a key (`view`).
  Chess itself (legal moves, SAN, UCI, positions) is `shakmaty`'s, reached
  through the trusted items of `chess`.
- `app/` is the program around it: arguments, files, the settings file
  (`serde`, `toml`, `etcetera`) and the terminal (`ratatui`).
- `tests/` exercises the library on concrete games.
