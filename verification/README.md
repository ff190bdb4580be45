# socketio

The `engine.io` and `socket.io` protocols for clients and servers.

- `src/` is the library, verified with Verus. It reads and writes packets and payloads, keeps the
  states of connections, acknowledgements, rooms and clients, and decides what a request, a packet
  or a timer asks for. It does no I/O: what is to be sent, told or called comes back as a value.
- `app/` puts the library on the network: TCP, HTTP, websockets, timers and tasks.
- `tests/` runs the library.

Where the library relies on another crate (`base64`, `url`, `httparse`, `http`, `adler32`,
`dashmap`, `serde_json`), a small function makes the call and states what is relied upon.

The text form of `socket.io` packets is supplied by the user of `app/`, as a `PacketCodec`.
