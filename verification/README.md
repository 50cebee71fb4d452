# git_explorer

A terminal file explorer that shows the git status of every file and folder
and lets you edit files in place. The library in `src/` holds the model and
its decisions, verified with Verus; `app/` is the terminal program around it,
which reads the disk, runs git and draws.

## Layout

- `src/git.rs`, `src/manager.rs`: git status codes, the porcelain parser, the
  path normalisation against the repository prefix, and `get_status`, which
  turns a scanned tree and the output of `git status` into entries with
  statuses.
- `src/status.rs`: overlaying reported statuses, raising collapsed parent
  directories, and folder status propagation (deepest directories first).
- `src/scan.rs`: the directory walk: listing order, what is kept, where the walk
  descends, and the pre-order list of entries over the directories as read.
- `src/diff.rs`: gutter marks and hunk start lines from `git diff --unified=0`.
- `src/app.rs`, `src/editor.rs`, `src/scroll.rs`: the application state: tree
  listing, collapsing, search, selection and scrolling, the line editor with
  undo, and mouse handling.
- `src/view.rs`, `src/layout.rs`: the text and tones of every part of the
  screen.
- `src/laws.rs`: properties across calls (undo restores, toggles cancel,
  the selection stays in view, directories dominate their children, ...).
- `src/text.rs`, `src/strset.rs`, `src/path.rs`: string helpers, string sets
  and path parents.
- `app/`: `main`, the event loop, reading directories and files, running git,
  and drawing with ratatui.

The tests under `tests/` exercise the library on concrete values.
