# dquic

The decision logic of a QUIC stack as a verified library: executable Rust whose behaviour is stated
in contracts and proved by Verus.

- `src/base` holds addresses, connection IDs, packet numbers, acknowledgements and tables.
- `src/interface` decides which ways a packet may take, and keeps what interfaces publish of their
  endpoints and locations.
- `src/protocol` plans what goes out of a UDP socket, and takes apart what comes in: QUIC, STUN and
  forwarded datagrams.
- `src/recovery` keeps journals of sent and received packets, and the buffers of the CRYPTO stream.
- `src/tls` drives a TLS handshake, examines certificates, and reads a ClientHello before a server is
  chosen.
- `src/transport` puts packets together, seals, sends, receives and opens them, updates keys, validates
  paths and routes packets to connections.
- `src/declaration.rs` reads the enum that declares transport parameters, `src/params.rs` checks what its
  variants say, and `src/resolve.rs` takes host names apart.

The library does no I/O and knows no clock, task or socket: instants are microseconds, tasks and
sockets are numbers that the caller gives, and what must be woken or sent is returned. `app` holds what
surrounds it: sockets, name lookup, TLS callbacks and the tasks that fan events out.

Calls into rustls, x509-parser, x509-cert, pkix-revocation, dashmap, bytes, rand and syn stand behind
small functions that say, above each, what is taken for granted of the call.

`tests` runs the library with those crates linked.
