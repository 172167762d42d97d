# metalcraft_store

The storage layer of an agent: chats, flow runs and named JSON documents, kept either in
files under a data directory or in one SQLite database, `agent.db`.

- `src/` is the library, verified with Verus. It says which files and statements an
  operation comes to, and what becomes of the replies; it touches no disk itself.
  - `paths`, `disk`, `files`: the layout of the data directory and the files backend. A
    file is told by its folder and its name; `app/` joins them to a path.
  - `sql`, `model`: the statements, and what they do to the rows of the database.
  - `json`: the members of an object and the items of an array, by `serde_json`.
  - `chats`, `flow_runs`, `docs`, `rows`: the operations on `agent.db`.
  - `backend`: which backend is used, and which part of it serves each area.
  - `migrate`: carrying the files over into the database.
  - `laws`: what the operations promise together.
  - `listing`: lemmas on listings, for the laws.
- `app/` runs the steps and statements on a real disk.
- `tests/` holds the library's decisions on given values, and its statements against a
  real SQLite database.
