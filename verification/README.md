# coap

A Constrained Application Protocol (CoAP, RFC 7252) library whose core is
verified with Verus.

## Layout

- `src/` is the verified library. Every function there carries a
  `requires`/`ensures` contract that Verus proves:
  - `message/`: headers and codes, packets and their binary encoding
    (`wire.rs` holds the option encoding shared by both packet types),
    option values (Block1/Block2, Content-Format, Observe), requests and
    responses;
  - `packet.rs`: the packet type whose header keeps the raw code byte;
  - `tcp.rs`: CoAP-over-TCP framing (RFC 8323);
  - `block.rs`, `block_transfer.rs`: block values and block-wise transfers;
  - `observer.rs`: the server-side observe state machine (RFC 7641);
  - `router/`: route patterns, path parameters, extractor rejections and
    responses;
  - `client.rs`, `server.rs`: the client and server decisions that do not
    depend on I/O (block-wise reassembly, URL handling, acknowledgements).
- `app/` is the asynchronous networking around the library (UDP, TCP,
  TLS and WebSocket transports, servers, clients, the router's handlers and
  the serde-based extractors). Verus does not read it.
- `tests/` runs the library on concrete values.

Calls into outside crates (`bincode`, `coap-lite`, `regex`, `url`,
`percent-encoding`) go through small trusted wrappers, each with a doc comment
that says what its contract assumes of the call.
