# diskspace

The decisions of a disk-cleanup tool, verified with Verus: which paths to propose, whether one may
be removed, in which order, and when to stop.

- `src/` is the library. It reads no file and runs no command. What a decision needs to know of the
  disk comes in as plain values; what is to be done comes out as a value too. Where work on the
  disk and decisions alternate (the acute phase, the execution of a plan, the airlock, the reclaim,
  the guard round a command, the background watch) the library holds a machine, and the caller
  plays it.
- `app/` is the command line round it: files, `df`, `lsof`, `launchctl`, the terminal.
- `tests/` runs the library on concrete values.

Conventions:

- Confidences are integers in millionths, shares of a volume in millionths or billionths, points in
  time nanoseconds since the Unix epoch, sums of sizes `u128`.
- A path is a text that is read by its components.
- Where a function calls another crate (`glob`, `sha2`, `shell-words`, `toml_edit`), the call stands
  in one small trusted function, whose comment says what is taken from the crate without proof.

Modules, by theme:

- candidates: `model`, `agent_surface`, `detect`, `detect_laws`, `report`, `scan`
- safety: `check`, `explain`, `grant`, `grant_cmd`
- removal: `airlock`, `reclaim`, `doctor`, `size_laws`, `acute`, `acute_laws`, `plan`, `apply`,
  `execute`, `guard`
- the ledger and the airlock's contents: `history`, `store`
- directories outside the rules: `hunt`, `walk`, `hunt_laws`, `drill`, `drill_laws`, `classify`,
  `stow`
- monitoring: `watch`, `top`, `selfcheck`
- settings and greeting: `profile_cmd`, `wizard`, `welcome`
- shared: `text`, `paths`, `order`, `numbers`, `doubles`, `globs`

The program runs without grants: it has no keys to read or sign them with. The measurement layer
that `selfcheck` judges is not part of it either; its results come in from outside.
