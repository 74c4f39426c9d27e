# aenyrathia

A git-backed wiki for the Aenyrathia setting, with its decisions proved
correct by Verus.

- `src/` is the verified library: page paths and slugs, branch names,
  percent-encoding and HTML escaping, page titles, the page tree and its
  HTML, the checks behind registration, login, logout and editing, the
  server settings, the git store's references and sync backoff, and a dice
  pool. Each public function's contract says on which inputs it succeeds,
  which error comes on which inputs, and what it returns; where a result
  depends on chance or on an outside library, it says what holds of every
  outcome or names the library's result. The `law_*` proof functions
  state what holds across calls.
- `app/` is the program around it: the axum server, SQLite sessions, the
  libgit2 store, the `git`-command-driven server, and the command line.
- `tests/` runs the library on concrete values.
