# gclient

The networking and configuration core of a game client, verified with Verus.

- `src/` is the verified library: the two binary frame codecs (`codec`,
  `netcore::codec`), the connection state machine that decides what a
  WebSocket transport must do (`client`, `session`, `transport`), the packet
  dispatchers (`dispatcher`, `netcore::dispatcher`), the protocol metadata
  registry with its schema fingerprints (`registry`, `schema`, `reflect`) and
  the configuration-table store (`config`). Helpers for text, byte order and
  sorting live in `text`, `wire` and `order`.
- `app/` is the unverified shell around it: the I/O thread that runs the
  WebSocket, the driver that owns the transport and performs the client's
  decisions, file loading, logging, JSON conversions and the Godot bridge
  classes.
- `tests/` exercises the library through its public API.
