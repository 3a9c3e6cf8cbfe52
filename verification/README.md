# tp2p

A peer-to-peer syncing engine: peers exchange sealed (public-key encrypted)
messages, confirm each other, subscribe to topics, and a `Sync` object turns
each incoming event into a list of actions for whoever runs it (messages to
send, records to change, questions for the user).

The library under `src/` is verified with Verus:

- `wire`, `ser`: the byte encoding of every value that travels between peers,
  with encoding and decoding proved to agree: bytes are read back without
  ambiguity, as the very value (its deep view) that was written.
- `crypto`: the calls into `sodiumoxide` (the only trusted code besides the
  base64 call in `peer`, one std call in `wire`, and the `Subscription`
  trait, whose `verify` users implement: its result is taken to be the
  subscription's `spec_verify`).
- `message`: messages, and sealing and opening them.
- `peer`, `identity`, `topic`, `event`, `action`, `error`, `util`: the data
  the engine works on.
- `sync`: the engine. Its records are modelled by `SyncModel`; every
  operation is specified over that model, and the laws about the records
  (what a lookup finds after a change, which changes are idempotent, that the
  records' invariant is kept) are proof functions there.

`app/` holds what runs around the library: the clock, socket addresses and
the network listener. `tests/` exercises the library.
