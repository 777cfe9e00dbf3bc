# cnctd_server

A small HTTP and WebSocket server framework. Its logic is written in Verus
and proved against its contracts; the running server around it is ordinary
Rust.

- `src/` — the verified library: the registry of socket connections and
  every operation on it (`socket`), request paths and status codes
  (`router`, `server`), signed cookies and range headers (`utils`), JWT
  subjects (`auth`), and the JSON and text models these are stated over
  (`json`, `text`). Calls into `ring`, `base64`, `jwt`, `hmac`, `tokio`,
  `uuid`, `chrono` and `warp` stand behind small trusted wrappers whose
  contracts are documented where they are declared.
- `app/` — warp routes and handlers, the shared registry behind a lock, the
  socket loop, Redis, the server's self-report, and serde forms of the
  library's types.
- `tests/` — tests of the library on concrete values.
