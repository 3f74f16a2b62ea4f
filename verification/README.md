# accounting_core

Event-sourced double-entry bookkeeping for a small trading business: purchases, sales by
lot, payments, returns, expenses, stock movements and reversals. Every change is one event
in an append-only log; every table of the read model is a projection that replaying the
log reproduces.

- `src/` is the library. All of it is verified with Verus: each function states what it
  returns or changes, and `src/laws/` states what holds of the books as a whole.
- `tests/` runs the library on concrete books.
- `app/` is a command-line program around it: a SQLite file for log and settings,
  snapshots, archives and datasets.

The library keeps its tables in memory. Three outside crates do work for it: `serde_json`
reads and writes JSON (`src/wire.rs`), SQLite's date functions are reached through
`rusqlite` (`src/dates.rs`), and `uuid` makes identities (`src/settings.rs`).
