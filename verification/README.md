# bridgent

A stateless command that links agent configuration directories (`.pi`,
`.codex`, …) to a place of your choice and records them in
`.git/info/exclude`, so that a repository is not polluted by the agents its
members use.

Layout:

- `src/` — the verified library (Verus): path arithmetic (`path`,
  `project`), the exclude-file bookkeeping (`exclude`), the decisions behind
  `link` and `unlink` (`link`), the status and doctor reports (`status`,
  `doctor`), and the character-level helpers they share (`text`).
- `app/` — the command itself: arguments, the file system, the terminal.
  It asks the library what to do and carries it out.
- `tests/` — tests of the library on concrete values.
