# mdedit

A terminal markdown editor that shows markdown rendered in place: markup is
hidden, headings, lists, quotes, code blocks and tables are drawn as such,
and the construct under the cursor is shown raw so it can be edited.

The library under `src/` is verified with Verus:

- `editor/`: the text buffer (over `ropey`), cursor, selection, and the undo
  history with its grouping of quick edits.
- `markdown/`: the syntax tree from `tree-sitter-md` read as plain values,
  the ranges the cursor reveals, and highlighting by node kind.
- `render/`: rendering a buffer line into spans (inline markup, headings,
  lists, block quotes, fenced code highlighted by `syntect`, pipe tables),
  the map between raw and display columns, and the paint plan of the
  editor area.
- `session.rs`, `input.rs`: key handling for the editor, the sidebar and
  the finder, as state changes and requests to the program.
- `filetree.rs`, `sidebar.rs`, `finder.rs`, `paths.rs`: the sidebar's tree of
  markdown files and the fuzzy file finder (`nucleo-matcher`).
- `view.rs`: what a frame shows and where the cursor goes.

`app/` is the program around it: the terminal (`crossterm`, `ratatui`),
files, the clipboard, walking the directory (`ignore`), detecting the
terminal background, and headings drawn as images.
