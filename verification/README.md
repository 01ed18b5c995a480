# ishi

A command-line tool for a PARA note system (Inbox, Projects, Areas,
Resources, Archive), with its logic written in Verus and proved against
its contracts.

## Layout

- `src/` — the verified library.
  - `category` — the five categories and the kinds of note `new` creates.
  - `config` — settings, template rendering, layering of the user-level
    and local config files, and the annotated TOML that `config` prints.
  - `workspace` — where category folders live, and which folder is the
    workspace root.
  - `order` — name order and the sort used by listings.
  - `items` — listing, status rows, resolving an item by name, and where a
    move sends it.
  - `cli` — the text each command prints, move planning, completion names.
  - `review` — the weekly review walk and what each decision does.
  - `frontmatter` — setting one frontmatter key while keeping every other
    byte of the note.
  - `editor` — the `{{cursor}}` line and the file name suggested for a
    capture.
  - `text` — string helpers with their specifications.
- `tests/` — tests of the library on concrete values.
- `app/` — the `ishi` binary: argument parsing, the filesystem, the
  terminal, `$EDITOR`, JSON output, and the Markdown parser that reports
  headings and frontmatter fields.

Every function in `src/` carries a `requires`/`ensures` contract that
Verus checks; the public `lemma_*` proof functions state properties that
relate several functions (for example, that archiving an item and
restoring it returns it to the path it came from).
