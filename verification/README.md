# meshcore-rs (verified parsing)

Verified decoders for the binary frames of the MeshCore companion-radio
protocol, written in Verus.

- `src/wire.rs` – little-endian integers and fixed-size byte arrays.
- `src/text.rs` – name fields (NUL-terminated, UTF-8, trimmed) and
  message bodies (lossy UTF-8), decimal rendering of error messages.
- `src/hex.rs` – hexadecimal encoding and decoding, with the round-trip
  lemma.
- `src/custom_vars.rs` – `key=value` lines into a map with distinct names.
- `src/parsing.rs` – the frame parsers; each contract states the frame
  layout it reads and every error with the inputs that cause it.
- `src/events.rs`, `src/packets.rs`, `src/error.rs` – the parsed values,
  packet header enums and the error type.
- `app/` – floating-point conversions (degrees, dB), which Verus does not
  verify.

Signal-to-noise ratios are kept as the signed quarter-dB bytes the
firmware sends (`snr_raw`); divide by four for dB.
