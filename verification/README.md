# synthetic-storage

A synthetic storage backend for a database engine: one table,
`kv_store(key TEXT, value TEXT)`, kept in memory. The engine attaches it with
`ATTACH ':memory:' AS kv (TYPE synthetic_mutating)`, scans it with pushed-down
filters, and writes to it in transactions.

* `src/` is the backend, written in Verus: a state and the calls on it. Each
  call's contract says when it refuses, with which message, what it returns and
  what the state is afterwards. `history.rs` and `laws.rs` prove what holds over
  several calls: a rollback restores the rows, an open scan is a snapshot, a
  scan reads back what an insert wrote.
* `tests/` runs it.
* `app/` is the component around it: the host bindings, generated from the
  WIT world `writer` of the host's `duckdb:extension` package in `wit/`, the
  state behind a mutex, and the conversion of host values.

Things worth knowing:

* NULL is stored as empty text.
* A comparison with a value that is not text, NULL among them, lets every row
  pass.
* An insert or update that meets a row it cannot store refuses, and keeps the
  rows before it. A rollback removes those too.
* An update of a rowid that names no row adds one, and does not count it.
* Creating the table is not undone by a rollback.
* A scan with a limit of 0 returns one row.
