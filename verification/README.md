# lima

Verified core of the LIMA physical-integrity monitoring system: the wire
formats of the event record (24 bytes) and frame (184 bytes), the gateway's
parsing of raw HCI extended advertising reports and its outer ECDSA-P256
signature check, the client's frame reconstruction and AES-256-GCM decryption,
and the state logic of both consoles. Every function in `src/` carries a
contract; Verus proves each of them except the contracts of the few
`external_body` wrappers around `hex`, `aes-gcm`, `p256` and `String::push`,
which are trusted and document what they claim of the call they make.

Layout:

- `src/wire.rs` — wire constants, the payload record and its serialization,
  event types.
- `src/crypto.rs` — client decryption pipeline (`decrypt_ler`).
- `src/frames.rs` — rows polled from the gateway database into frames.
- `src/display.rs` — client console state and key handling.
- `src/psk.rs` — pre-shared key parsing, database path.
- `src/adv.rs` — HCI advertising report and AD-structure parsing, scan commands.
- `src/gateway.rs` — outer signature check, audit records, console tallies,
  MQTT topics and payloads, publish/notify decisions.
- `src/hciconfig.rs` — adapter index lookup in `hciconfig -a` output.
- `src/text.rs` — hex and decimal rendering, hex decoding and encoding, trimming.
- `app/` — the two programs (`lima client`, `lima gateway`): terminal UI,
  SQLite, HCI sockets, MQTT and HTTP I/O around the library.

The sensor readings (`f32` on the wire) are carried in the library as their
bit patterns; `app/` turns them into floats for display and serde.
