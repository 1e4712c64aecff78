# hail_mary

A command-line tool for specification-driven development. It keeps a
project's feature specifications under `.kiro/specs` and a database of
memories (technical notes with types, tags and confidence scores) under
`.kiro/memory`, and offers them to tools through a memory server.

The crate has two parts:

- `src/` is the library, written in Verus: every function there is
  verified against its contract; the use cases whose every outcome is
  decided by a repository that the caller supplies state what their own
  steps decide. It holds the command-line grammar, the project
  layout, feature naming, the project and memory use cases, the filtering,
  ordering, counting and merging of memories and tags, and the text formats
  (CSV import and export, tag columns, analytics tables, Markdown).
  Calls into `regex`, `chrono` and a few `std` functions go through small
  trusted wrappers whose contracts state what those functions return.
- `app/` is the program around it: argument parsing with `clap`, the file
  and SQLite storage, the terminal output, and the computations on
  floating-point confidence scores.

`tests/` runs the library on concrete values.
