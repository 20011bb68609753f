# dce_lib

Campaign data and rules for building campaigns for the Dynamic Campaign
Engine of DCS World from a mission file.

- `src/` is the library, written and proved with Verus: target lists built
  from mission zones and groups, airbase databases, squadrons and their
  tasks, loadout rules, FARP planning, campaign triggers, campaign settings
  and their date text, and the checks the editor runs on each of them.
  Each public function states what it returns in its contract; the
  properties that tie several functions together (round trips between the
  file forms and the editable forms, what every ship or static group
  becomes) stand as proof functions whose names start with `law_`.
- `tests/` runs the library on concrete values.
- `app/` is the part that reads and writes files: the mission archive, the
  Lua tables of the campaign files, running a trigger's Lua to check it (a
  Lua chunk need not return), the zip for the campaign manager, and
  the floating-point work of placing squadrons at their nearest base.

Maps from names to values are `StrMap` (`src/strmap.rs`), a list of
(name, value) pairs with no name twice that keeps the order in which names
were first inserted. vstd specifies `HashMap` lookups only for key types
whose hashing it models (`obeys_key_model`: the integer types and `bool`);
for `String` keys that fact could only be assumed, which this crate does
not do. The campaign files are also written in insertion order, which the
contracts speak of.
