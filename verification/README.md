# forge

A tmux sessionizer whose projects live in plain-text `.wl` files under a sync
directory.

- `src/` is the library, written in Verus: parsing and checking `.wl`,
  `lang.wl` and `include.wl` files, the per-project state file and the
  applied-includes file, the project index and its repairs, include merging,
  the text of new `.wl` files, the listings and the fzf protocol of the
  picker, overseer task templates, and the plans of tmux commands.  Each
  public function carries a contract; the laws that tie functions together
  (a state written reads back, a created `.wl` reads back, merge rules, ...)
  are public proof functions.
- `app/` is the `forge` binary: argument parsing, files, JSON, processes and
  terminal output around the library.
- `tests/` runs the library on concrete values.
