# rxbms

A BMS rhythm-game player. The rules of the game live in a library verified
with Verus (`src/`); the program around it (`app/`) drives windows, input,
sound, files and Lua skins with Bevy and friends.

## Layout

- `src/` — the verified library
  - `judge.rs`, `lane.rs`, `rank.rs`: timing judgement, long notes, lanes,
    clear types and ranks
  - `chart.rs`, `play.rs`, `bga.rs`: chart notes and lanes, press and miss
    decisions, the play session's phases, the BGA cursor
  - `audio.rs`: the reference-counted sound cache and its eviction
  - `keybind.rs`, `settings.rs`: key bindings and the settings store
  - `database.rs`, `text.rs`: chart source decoding, parsing (bms-rs) and
    chart statistics
  - `skin/`: Lua-skin options, object model, key-frame animation, digits,
    gauge parts, scroll distance and the play snapshot skins read
- `tests/` — tests of the library
- `app/` — the game: Bevy systems, audio mixing, chart processing (bms-rs),
  song database (rusqlite), Lua skins (mlua), video BGA

Times in the library are integers (microseconds, milliseconds), positions are
millionths of a measure; floating-point work stays in `app/`.
