# relay_core

A minimalist relay for private direct messages and group rooms over the
Nostr protocol, with Sign-In with Ethereum authentication.

The library under `src/` holds the relay's logic, each function with its
contract, proved by Verus:

- `store`: an ordered key/value tree with byte-string keys, kept in
  lexicographic key order; reads after writes and deletes are stated and
  proved.
- `event`, `filter`: the parts of an event the relay reads, and the
  IM-restricted subscription filters with the test of an event against a
  filter.
- `storage`: events by id and a room index by `room:created_at`; saving,
  querying (a scan of the rooms a filter names, or a full scan), and
  sweeping expired events. The storage is kept in memory: the path it is
  opened with is recorded, but nothing survives a restart.
- `state`, `keyed`: connections, their authentication and subscriptions,
  the connection count, and each room's time-ordered index.
- `handler`: what each client message changes and what it asks to be sent:
  events are checked (authentication, kind, expiry), stored and broadcast;
  subscriptions are answered with stored events; `AUTH` is a SIWE check.
- `message`, `auth`: messages and their JSON text; SIWE challenges and the
  check of a signed-in message.
- `upload`, `gc`, `config`, `metrics`, `error`, `text`, and `mesh` (the
  proxy type of a relay that forwards to no peer).

Calls into `siwe`, `chrono`, `uuid`, `serde_json`, `hex`, `sha2`,
`mime_guess` and a few `std` functions go through small wrappers whose
contracts are trusted; each says what it claims of the outside function.

`app/` is the server around the library: configuration loading and
watching, the axum WebSocket and upload endpoints, the broadcast channel,
the mesh proxy and the garbage-collection timer.
