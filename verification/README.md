# proto772

Encoding and decoding of the Minecraft protocol (version 772) packets of the handshaking,
status and login phases, verified with Verus.

- `src/wire.rs`: the byte formats of varints and big-endian integers as spec functions,
  with their read-back lemmas.
- `src/stream.rs`: the trusted calls into byteorder, varint_rs and std's I/O traits, on a
  `Vec<u8>` writer and a byte-slice reader.
- `src/encoding.rs`: the error type, the model of encoding (`Emitted`) and decoding
  (`Parsed`), the `Packet`, `Encode` and `Decode` traits and their implementations for
  strings, bytes, options and vectors.
- `src/util.rs`: lengths, booleans, strings, arrays and options, with their laws, and
  `varint_fits`, `option_decodable`, `prefixed_decodable`: tests of untrusted input for
  the decoders' one precondition (each packet and codec type has `decodable` too).
- `src/handshaking`, `src/status`, `src/login`: the packets, each with the law that its
  payload reads back as it was written (or the inputs on which it does not).
- `app/lib.rs`: the error's messages, and packets written to any `std::io::Write` and read
  from any `std::io::Read`.
