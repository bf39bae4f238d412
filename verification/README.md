# peers

Peer maintenance for a node of a peer-to-peer network, verified with Verus.

`src/` holds the library. It decides; it does not do any I/O.

- `address`, `address_map`: socket addresses as plain values, and maps keyed by them.
- `clock`: timestamps and elapsed time.
- `peer_book`: the peers that a node knows, by status, and how they behave.
- `node`: a node and what it does for a single peer or for the whole book.
- `update`: the round in which a node seeks peers, lets go of excess ones and pings the rest, one
  step at a time.
- `handshake`, `noise`, `message`: how a connection is opened, the Noise sessions behind it, and what
  is sent.
- `error`: what can go wrong.
- `laws`: what holds across these.

`app/` runs a node over TCP with tokio.
