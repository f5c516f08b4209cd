# hrpc

A small, bidirectional, binary RPC protocol, verified with Verus.

Each message travels as a frame `<len><header><method><id><body>`: `len`,
`header`, `method` and `id` are unsigned LEB128 varints, the header carries the
service id above the two bits of the message type (request, response, error),
and `len` counts the bytes of header, method, id and body (at most 4 MiB).

## Layout

- `src/` is the verified library:
  - `varint.rs`: the LEB128 model, and the contracts of the `varinteger`
    functions that encode, measure and decode varints.
  - `message.rs`: messages and their framing (`Message::encode` writes exactly
    the frame of the message).
  - `decode.rs`: the incremental parser. It is modelled byte by byte; the
    executable parser is proved to agree with the model on chunks of any size,
    and the model is proved to decode every frame back to its message.
  - `sessions.rs`: request ids, handed out from 1 and recycled in order.
  - `rpc.rs`: requests, responses, and the routing decisions of a connection.
  - `next.rs`, `messages.rs`, `schema.rs`: the typed API and its message types.
  - `generator.rs`: service ids and the ids declared in protobuf options.
- `app/` runs the library over async I/O: the stream decoder, connections,
  clients, Unix socket transport, and the protobuf code generator.
- `tests/` exercises the library on concrete values.
