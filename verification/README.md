# RustyMeals core

The core of RustyMeals, an offline-first client for a self-hosted
[Mealie](https://mealie.io/) instance, written in Verus.

- `src/` is the verified library: the data model, the statements and row
  decoding of the cache, the requests and their bodies, and the decisions
  of the commands and the sync engine, each with its contract proved by
  Verus. The pass over the offline recipes is a state machine that
  `app/` drives; the order of the other sync phases, the parallel
  thumbnail downloads and the database transaction around the metadata
  pass stay with the I/O in `app/`.
  - `text`: whitespace trimming, decimal numbers and their parsing,
    comma-joined token lists, string order.
  - `json`: a plain JSON value with a mathematical model.
  - `api`: the Mealie payload types, the endpoints of a server, paging,
    the bodies of shopping-item edits, error messages.
  - `like`: a model of SQLite's `LIKE ... ESCAPE '\'`, the escaping of
    search terms, and what substring and whole-token patterns select.
  - `db`: the SQLite schema and its migrations, the statements of every
    cache read and write, what a search selects, and the decoding of the
    rows they return.
  - `commands`: the shopping lists shown from the cache (stable sort by
    position, then display text), the refresh of shopping lists, the sync
    engine's tallies, progress events and offline-recipe pass, the sync
    status.
  - `state`: the session credentials.
- `app/` is the Tauri shell around the library: the window, the commands the
  React frontend invokes, HTTP with reqwest, SQLite with rusqlite, JSON with
  serde. It performs I/O and hands plain values to the library.
- `tests/` exercises the library, including its SQL against an in-memory
  SQLite database.
