# spotlight_win

The search logic of a Spotlight-style launcher for Windows, verified with
Verus: fuzzy scoring of names, ranking of applications, files and quick
actions, recognition of calculator, time-zone and unit-conversion queries,
the bookkeeping of the directory scans that build the indexes, and the
decision steps of loading the Everything library and of registering the
global shortcut.

Layout:

- `src/` — the verified library. Scores are exact rationals (`score.rs`);
  `fuzzy.rs` states the scoring rules as spec functions and proves the
  executable scorer against them, together with laws such as "an exact match
  scores 100" and "a missing character scores 0"; `rank.rs` proves a stable
  ranking and that it is unique; `search.rs` merges the sources.
- `tests/` — tests of the library on concrete values.
- `app/` — the unverified shell: directory walks, the Everything DLL, the
  registry, the clock, the expression evaluator's floats, the shortcut's
  message loop, and serializable copies of the result types.
