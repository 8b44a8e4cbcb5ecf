# issues

A local issue tracker for agents and people: issues with statuses, labels,
comments, commit anchors, blocking edges and membership edges, kept in SQLite
at `.scratch/issues.db`.

The library under `src/` is verified with Verus:

- `db/` — the records, the store's tables with their invariant, the queries
  (listings, frontier, blocked view, grab queue, detail), the edits (each
  records the row-level changes it made), and `laws.rs`, what holds across
  them.
- `report.rs` — the text the commands print, plain for agents or styled for a
  terminal, with the proof that the styled listings show the plain text.
- `render.rs`, `style.rs`, `markdown.rs` — colours, escape codes and markdown
  rendered for a terminal.
- `cli.rs` — the commands as plain values and the checks on their options.
- `text.rs`, `git.rs`, `instructions.rs` — string helpers, reading git's
  output, and the agent instructions document.

`app/` is the `issues` binary: argument parsing with clap, the SQLite file
with rusqlite, git, the terminal and the file system.
