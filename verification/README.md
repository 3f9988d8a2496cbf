# tellus_42

A full-screen terminal editor for Tellus `.tlvl` levels, with its editing core verified in Verus.

- `src/` is the verified library:
  - `level.rs`: the three-layer tile grid, with read-after-write proved;
  - `app.rs`: the editor state (cursor, view, zoom, modes, undo/redo, visual selection,
    yank/paste, texture mapping, the `:` command line) with an invariant that every
    operation keeps;
  - `keys.rs`: the key bindings of each mode, as a step from state and key to state and action;
  - `commands.rs`, `editor.rs`: the line-oriented command parser and editor;
  - `config.rs`: the `key=value` configuration format;
  - `folder.rs`: which files of an image folder are mapped, and in which order;
  - `ui.rs`: the canvas layout (grid, gutters, tile cells, labels) and sidebar text;
  - `text.rs`: the string and number helpers the rest is stated over.
- `app/` holds what is left around it: the terminal loop, drawing with ratatui, key events
  from crossterm, and reading and writing files (levels, images, configuration).
- `tests/` exercises the library on concrete values.

Start the editor with an optional level path; without one it opens a blank 32x18 level.
The key bindings are shown in the sidebar, and `:help` lists the commands.
