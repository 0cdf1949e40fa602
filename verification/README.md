# reaper

The core of a filesystem-bloat reaper: it scans a tree, classifies every
directory that a rule claims as *reapable* or *refused with reasons*, seals what
is reapable into a plan, and executes that plan step by step. Nothing is safe
until everything is proven: a fact that could not be established refuses.

- `src/` is the library. Everything in it is verified with Verus: its contracts
  say what each function returns, and its laws (public proof functions) say what
  holds across functions.
  - `model`, `policy`, `classify`: facts, dials, and the gates.
  - `rules`, `registry`, `orchestrator`: the ruleset, what it claims in a
    directory, and where a walk goes on.
  - `bytes`, `parse`, `layout`, `dirread`: directory listings as kernels write
    them.
  - `prober`, `sweep`, `gitprobe`: how facts come out of what is read.
  - `plan`, `json`, `members`, `digest`, `canonical`, `order`, `paths`: plans,
    their order, their canonical text, what is read of it, and their seal.
  - `deleter`, `manifest`: how a step is executed, and the write-ahead log.
  - `report`, `table`, `reap`, `render`, `sizes`, `browser`, `state`, `update`,
    `text`: what the command line and the interactive browser decide and show.
- `tests/` runs the library on concrete values.
- `app/` is the program around it: arguments, files, processes, the terminal,
  the network.

What the library has from other crates (camino, globset, serde_json, sha2, toml)
it calls through small functions whose contracts are trusted; each says what it
claims of the call.
