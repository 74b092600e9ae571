# rusty_embers

A library for the Lawo Ember+ control protocol, written in Verus: the code is
Rust, and its behaviour is stated in `requires`/`ensures` contracts that
Verus proves.

## Layout

- `src/s101.rs` — S101 framing: escaping, CRC-16-CCITT, frame encoding,
  single-frame decoding and the streaming `FrameDecoder`. The wire format is
  specified by spec functions (`escape`, `crc16`, `frame_bytes`,
  `decode_frame`, `decode_step`), and proof functions state its laws: a frame
  decodes back to its fields; the table-driven CRC is the bitwise CRC of the
  reflected polynomial 0x8408, leaves the residue 0xF0B8, and catches every
  single changed byte; the streaming decoder reports the frames of a stream,
  and the errors of invalid ones, in order whatever noise lies between them,
  and how the stream is split across `feed` calls changes nothing it reports.
- `src/buffer.rs` — the trusted contracts of the `bytes::BytesMut` methods
  that the framing code calls.
- `src/glow.rs` — the Glow value and command model.
- `src/tree.rs` — the provider's element tree, with a recursive model
  (`ElementView`), path lookup, in-place update, refresh and the cart tree
  builder.
- `src/provider.rs` — the provider and its per-connection session, which
  answers `GetDirectory`, `Subscribe`, `Unsubscribe`, `SetValue` and `Invoke`.
- `src/server.rs` — what a connection does with each decoded frame.
- `src/handler.rs` — the application's callback trait.
- `app/` — unverified runtime: the error type with `thiserror`, the Glow
  BER encoding and decoding through Lawo's `libember_slim` C library, and the
  Tokio TCP server.
- `tests/` — tests of the library.
