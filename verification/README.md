# vic3_analyzer

Reads the game files and save games of Victoria 3 and draws maps from them. The
library is written in Verus: its public functions carry contracts, and the verifier
proves every function under `src/` against the contracts it calls, except the few
trusted wrappers around `regex`, `jomini` and `std`.

## Layout

- `src/scanner.rs`, `src/record.rs`: the brace format of the game files, cut into
  labeled items, single values and lists, and the records read from them.
- `src/map/`: the map of the game: state templates, strategic regions, sea provinces,
  cultures, religions, professions, traits and named colors; the index of province
  colors and the numbering of states (`map/index.rs`, `map/layout.rs`); `GameMap`,
  which answers what lies under a province color.
- `src/data/`: records of the game files and of saves in the scanner's format;
  `data/save/coloring.rs` decides the base color of each province color of the map
  drawn by owner, and `data/save/tallies.rs` counts a culture per state and country.
- `src/save/`: the older line-by-line reader of saves (regular expressions), its
  pops, states, cultures and countries.
- `src/tape_scanner.rs`: walking the token tape of a save read with `jomini`.
- `src/draw.rs`: the owners of each province color and the colors it was given,
  kept per save; the borders and the sea drawn from them.
- `src/settings.rs`: what the drawing settings decide: open inputs, the plan of a
  drawing, the name it is saved under, the window's messages.
- `src/wrappers.rs`, `src/text.rs`: colors as the game writes them, and text helpers.
- `app/`: the window (fltk), reading files, archives and images from disk, and the
  floating point work: color conversions, shares and their scaling.
- `tests/`: tests of the library on small game files and saves.

Calls into `regex`, `jomini` and `std` stand behind small trusted wrappers whose
contracts state or name what they return; everything built on them is verified.
