# flook

A terminal code browser: a file tree on the left, the selected file on the
right with syntax highlighting, and a view of its `git diff`.

- `src/` is the library, verified with Verus: the flattened file tree and how
  it expands and collapses (`tree`), the order of names (`order`), the viewer
  and its scrolling and change jumps (`viewer`), the reader of `git diff`
  output (`diff`), highlighting (`highlight`) with syntect behind the trusted
  boundary in `engine`, key handling
  (`app`), the screen layout computations (`layout`), and the text helpers
  they share (`text`, `path`, `style`).
- `app/` is the program around it: the command line, the terminal, drawing
  with ratatui, reading directories and files, and running git. The library
  hands back an effect for each of these, and the program performs it.
- `tests/` exercises the library on concrete values.
