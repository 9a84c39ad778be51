# dagon_lib

A small OpenPGP key server and its client, with the library verified by Verus.

Messages travel in a simple format: a three-character command, `\r\n`, then
key/value pairs written as `$` (bytes) or `#` (integer), the key's length,
`:`, the value's length, `:`, the key, the value; for example
`#2:1:id2$3:5:msghello`.

- `src/protocol.rs` encodes and decodes messages; the decoder's meaning is a
  spec function over bytes, and `src/protocol_laws.rs` proves that decoding
  gives back what encoding wrote, and that whatever decodes can be encoded.
  `decode_zero_padded` decodes a request whose stream reads as zero bytes
  once the client falls silent, as the server reads it.
- `src/value.rs` holds values and the key/value collection of a message.
- `src/commands.rs` decides how the server answers a registration or an
  authentication, step by step.
- `src/keys.rs` and `src/keyserver.rs` make, read and use OpenPGP keys through
  sequoia-openpgp, and judge the structure of a signed message.
- `src/logger.rs` formats the server's log lines.
- `app/` is the program around the library: the TCP server and client, the
  sled key store, sessions, key files, printing.
