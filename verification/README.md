# mc_protocol

A Minecraft server-side protocol library (1.19.2 login and status, 1.18 packet sheets and
play-state data), written in Verus. Every function in `src/` carries a `requires`/`ensures`
contract that Verus checks against its body.

## Layout

- `src/codec.rs`: VarInts, big-endian integers, strings, byte vectors and UUIDs, with
  round-trip laws.
- `src/encoding.rs`: packet framing (with zlib compression past a threshold), protocol versions,
  and the traits through which packets encode themselves; `src/encryption.rs`: the AES/CFB-8
  stream of an authenticated connection.
- `src/registry.rs`: packet dispatch by (protocol version, packet id), and the registration
  tables; `src/protocol/mappings.rs` implements them for the packets.
- `src/protocol/`: handshake, status and login packets, the play packets of the earlier
  layout, and the packed bit storage.
- `src/common/`: bit sets, chat components, chunks and palettes, the command graph, play
  values and the game registries; `src/clientbound/`: clientbound play packets and the status
  list entry.
- `src/auth/`: the steps of the Mojang, BungeeCord and Velocity logins, each a function from
  the login's state and a packet to the answer; `src/status.rs` and `src/server_loop.rs` hold
  the decisions of the status exchange and of the accept loop.
- `src/crypto.rs`: the calls into the RSA, SHA, HMAC, big-integer and UUID crates, each with
  the contract the library relies on.
- `app/`: the program around the library: configuration and JSON, the game registries read
  from their JSON lists, the server key, the socket transport and the asynchronous connection
  drivers that run the library's steps.
- `tests/`: tests of the library on concrete values.
