# mqtt5

The decisions of an MQTT v5.0 client and broker, verified with Verus.

- `src/` is the library. Its functions take plain values (packets, times in milliseconds, the
  outcome of a write) and give plain values back; what each of them returns and changes is stated
  in its contract and proved. Properties that span functions are the `law_` proof functions.
  - `topic`, `packets`, `types`, `error`: topic names and filters, packets and their sizes, errors.
  - `codec`: payload codecs; the compression itself is `flate2`.
  - `session`: flow control, topic aliases, QUIC flows, what a session remembers.
  - `callback`: which callbacks a message reaches.
  - `client`: publishing, subscribing, connecting, replaying a session, acknowledgements.
  - `broker`: routing, delivery plans, queues, retained messages, storage, delivery streams.
- `app/` performs what the library decides: files, streams, timers, callbacks.
- `tests/` runs the library on concrete values.
