# cody_c

A small codec library for framed data: codecs that turn bytes into frames and frames into
bytes, and framers that drive them over a reader or a writer through a fixed buffer.

## Layout

- `src/` is the library, verified with Verus.
  - `codec/`: the codecs (lines, string lines, bytes, length-prefixed, any delimiter, needle,
    bincode framing), each with the spec functions that say what it decodes and encodes, and
    the round-trip laws relating the two. The `stream` modules under `codec/lines`,
    `codec/length` and `codec/any` (and under `frame_size_aware` for the size-aware framer)
    prove that a framer reading a whole stream hands out its frames in order, however the
    reads split it.
  - `decode.rs`, `encode.rs`: the `Decoder`, `DecoderOwned` and `Encoder` traits.
  - `framed_read.rs`, `framed_write.rs`: the framers. A read step takes the outcome of the read
    the caller performed (when the state asks for one) and decides everything else: decoding,
    shifting the buffer, end of stream and errors. By default the buffer is shifted once it is
    full; `set_early_shift(true)` shifts it as soon as some bytes were consumed.
  - `decode/`, `encode/`: the size-aware framer, whose decoders may announce the size of the
    next frame, over a borrowed buffer; `frame_size_aware.rs` is a codec whose frames announce
    their size.
  - `buf.rs`: byte-slice helpers shared by the codecs.
  - `demo/`: a demo protocol framing JSON payloads behind a checksummed header.
  - `tokio.rs`, `futures_io.rs`, `embedded_io_async.rs`: compatibility wrappers.
- `app/` holds what runs around the library: the async read and write traits, the loops that
  perform the reads and writes the framers ask for, the wrappers' trait implementations, and
  the JSON and bincode encodings.
- `tests/` exercises the library on concrete values.
