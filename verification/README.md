# quinn-wasm (Direct Sockets transport)

QUIC in the browser over the Direct Sockets API of an Isolated Web App.

- `src/address.rs`: IP and socket addresses as plain values and their
  canonical text (dotted decimal, RFC 5952), proved against a specification.
- `src/direct_sockets.rs`: the messages handed to the `UDPSocket`, the bind
  options, and the socket state whose send queue gets one message per datagram.
- `app/lib.rs`: wasm-bindgen bindings, the quinn `AsyncUdpSocket` impl and the
  endpoint constructor, which call the verified core.
