# file_classification

A catalogue that classifies files into groups and tags. Files, groups and
tags are linked many-to-many; every record keeps a reference count equal to
the number of links that name it, and every file owns one primary group.
Records are queried by nested conditions (equality, ranges, `IN`, SQL
`LIKE`, `AND`/`OR`/`NOT` with SQL's three-valued logic), ordered and paged.

The library is written in Verus. Each operation states in its contract what
it returns and how the catalogue changes, and keeps the catalogue's
invariant (unique identifiers, links to existing records, counts that match
the links, primary groups owned by their files).

Layout:

- `src/store.rs`, `src/rows.rs`, `src/counts.rs`, `src/cascade.rs`: the
  tables, the invariant and the row operations that keep it.
- `src/service/`: creation, lookup, update and deletion of files, groups,
  tags and their links, one at a time and by conditions.
- `src/query.rs`, `src/sorting.rs`: condition evaluation, ordering, limits
  and offsets.
- `src/parsers.rs`, `src/shell.rs`, `src/context.rs`, `src/interpreter.rs`,
  `src/menus.rs`: what the command line tool reads: arguments, session
  lines, the `entity action params` expressions and numbered menus.
- `src/load.rs`: building a checked catalogue from stored rows.
- `src/laws.rs`: properties that relate several operations.
- `app/`: the command line tool (clap, rustyline, dialoguer) and the SQLite
  storage (rusqlite) around the library.
- `tests/`: tests of the library.
