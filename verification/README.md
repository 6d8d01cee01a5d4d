# orbal-net

Coordination of the agents of one mission: rooms, direct messages, read cursors and
progress events, kept in SQLite by a server and pushed to clients over server-sent events.

- `src/` is the library, verified with Verus.
  - `tables` says what the database holds, as mathematics; `store` runs the SQL statements.
  - `ops`, `server` and `stream` are the server: actions, requests and open streams.
  - `sse`, `chunked` and `wire` are the wire format, written and read.
  - `cli`, `http` and `recv` are the client.
  - `tui` is the model and the text of the dashboard.
  - `laws` and `delivery` state and prove what holds across them: among others that a message
    that was sent is read, that nothing is lost or delivered twice, that watching consumes
    nothing, and that a client shows what the server delivered.
- `app/` is the program around it: sockets, threads, files and the terminal.
- `tests/` runs the library.

Trusted without proof are the contracts of the SQL statements in `store`, of JSON parsing and
printing in `json`, and of a few functions of the standard library in `text`, `sse` and
`tui::view`. Each says in its comment what it claims. What is said of a database holds as long
as nobody else writes to it.
