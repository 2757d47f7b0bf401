# vault_airlock

A daemon that unlocks a KeePass (`.kdbx`) database and serves it over a Unix
domain socket, with audit hooks around every request. The library under
`src/` is verified with Verus; `app/` is the program around it.

- `src/kdbx.rs` — the bridge to the `keepass` crate: the decrypted database,
  a model of its groups and entries as plain values, and the calls that read it.
- `src/vault.rs` — the vault and its three readings (tree, lookup by
  identifier, search by title or tag), each proved against the model;
  `src/vault_laws.rs` relates them to each other.
- `src/hooks.rs` — hook contexts, the built-in hooks, and the order in which a
  registry runs its hooks.
- `src/api.rs` — request handling as an exchange that the service drives step
  by step; `src/api_laws.rs` states what requests are answered.
- `src/io_util.rs` — the client's request text and how it reads the answer.
- `src/secret.rs`, `src/text.rs` — secret strings, and text helpers.

Every request but the health check, locking included, runs the pre-hooks
first, and a refusal by any of them is the answer (403). KeePass 1 (`.kdb`)
files are not opened.

`app/` holds `main`, the axum routes, the socket, the async hook loops, the
Feishu sender and the JSON forms of the library's types.
