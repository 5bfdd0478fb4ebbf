# encrypted_spaces

The verified core of an end-to-end encrypted shared space: the decisions that a
client, a server and a change log verifier make, without the services around
them.

- `src/ops` verifies change log entries against proven reads: the creation of a
  space, invites and rekeys, with the rules for channel grants. `ops::laws`
  states what holds of every accepted entry.
- `src/stark_proofs.rs` and `src/transitions.rs` say which key-tree transition a
  retention operation proves; `src/stark_laws.rs` that it binds its inputs.
- `src/tree_keys.rs` and `src/tree_space_key.rs` are the read plane: who reaches
  which data key.
- `src/crypto.rs` decides which fields of a query are encrypted and on which
  line the key lies, and which rows survive decryption.
- `src/channel_grant.rs`, `src/auth_challenge.rs`, `src/conn_limiter.rs` and
  `src/persistence.rs` hold grant records, authentication challenges, connection
  caps and stored spaces, and what a stored space gives back of what was written.

Calls into `base64`, `hkdf` and `sha2`, and the standard library's
`char::escape_debug`, stand behind four small wrappers, in `src/encoding.rs`,
`src/tree_keys.rs` and `src/error_text.rs`; their contracts are not proved.

`app` is ordinary Rust around the library: locks, SQLite, wire formats and async
plumbing. Key derivation, the proof system and the row cipher come in through
the traits of `app/backend.rs`.
