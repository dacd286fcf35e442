# pgpolymorph-ir

A bidirectional converter between PostgreSQL `COPY ... (FORMAT binary)` blobs and a typed
intermediate representation, verified with Verus.

- `decode(schema, blob)` reads a blob against a schema into a `PgBatch`; `encode(schema, batch)`
  writes one back. `Decoder` and `Encoder` do the same one row at a time.
- Every executable function in `src/` carries a contract over a byte-level model of the
  format (`spec_decode`, `spec_encode` and the functions they are built from), and Verus proves
  the code against it.
- `src/laws.rs` proves the properties that tie the two directions together: decoding what the
  encoder wrote gives the rows back, a decoded blob re-encodes and re-decodes to the same rows,
  and writing rows one at a time gives the bytes of a one-shot encode; the decoder's steps give
  the rows of a one-shot decode.
- `src/reencode.rs` proves that a blob in the form PostgreSQL and the encoder write (flags zero,
  no header extension, nothing after the footer, arrays whose NULL flag and length prefix match
  their content, full `numeric` headers) is re-encoded byte for byte.

Layout:

| Path | What it holds |
|------|---------------|
| `src/binary/` | big-endian integers, the read cursor, field envelopes, header, tuple reader and writer |
| `src/codec/` | field payloads: scalar and array decoding and encoding, OID lookup |
| `src/value/` | the IR value types and their mathematical views |
| `src/schema.rs` | column types and their OIDs (`varchar` has none, so `varchar` arrays are refused) |
| `src/laws.rs` | the round-trip properties |
| `src/reencode.rs` | re-encoding canonical blobs |
| `app/` | serde forms of the IR, the error type with messages, float views, a row iterator |
| `tests/` | blobs spelled out byte by byte, error cases, and the properties on concrete values |

Floating-point values are held in the library as their IEEE 754 bit patterns, exactly as the
wire carries them; `app/floats.rs` converts to and from `f32` and `f64`.
