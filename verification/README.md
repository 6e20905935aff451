# parallel_disk_usage

A directory tree analyzer (`pdu`), as a library whose behaviour is stated in
`requires` / `ensures` contracts and proved by Verus, and a thin program
around it.

## Layout

- `src/` — the verified library.
  - `data_tree` — the tree of disk usage: construction, reflection (with the
    round trip of `into_reflection` and `par_try_into_tree`), culling by a
    predicate (the program culls by a float ratio of the total, which stays
    outside the library), sorting, partial reduction and the deduction of
    sizes shared by hardlinks. Children are processed on rayon's threads.
  - `fs_tree_builder` — the decisions of the filesystem walk: the step at
    each entry, the nodes cut at the max depth, the links to record.
  - `app` — what the program decides: overlapping arguments, HDD detection
    (with the reclassification of virtual disks), mount points, the thread
    limit, and the assembly and order of the trees of several arguments.
  - `args` — the values of the command line: depth, threads, quantities,
    column widths.
  - `bytes_format` — units of metric and binary scales.
  - `coloring`, `ansi_prefixes` — ANSI escape sequences of `LS_COLORS`
    styles and the prefix of each name.
  - `ai_instructions` — instruction files made of a shared template and a
    fragment per target, and the check that a file is up to date.
  - `text`, `path_ops`, `total_order`, `parallel` — strings, paths, orders and
    rayon, with the contracts the rest is proved against.
- `app/main.rs` — the `pdu` command: command line, filesystem walk, disks,
  JSON and printing.
- `tests/` — tests of the library on concrete values.
