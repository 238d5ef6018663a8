# omni

A terminal dashboard that hosts many live agent sessions side by side, grouped
by the Lead that spawned them, with a shared message bus per group.

- `src/` is the verified model, written in Verus: the tile/group state machine
  (focus, modes, the Esc-Esc detach, docking, column nudges, the welcome
  screen), new groups and their buses, the project picker (fuzzy filter,
  recents-first order), the walk that finds the repositories, key encoding,
  the status hook's decisions and status rules, launch prompts and arguments,
  the recents list, the command line, and the layout arithmetic of the
  screen. Each public function carries a `requires`/`ensures` contract;
  `src/laws.rs` states the properties that span several calls.
- `app/` is the program around it: the terminal loop, the PTYs, the SQLite
  state database, the directory and file reads, and the drawing. It hands the
  library plain values and carries out the `Action`s it returns.
- `tests/` runs the library on concrete inputs.

The agent program that each tile runs is read from the `OMNI_AGENT`
environment variable.
