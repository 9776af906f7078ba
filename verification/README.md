# byte_stream_split

Verified decoders for Parquet's `BYTE_STREAM_SPLIT` encoding.

- `src/byte_stream_split_decoder.rs`: the two decoders, for numbers and for fixed-length byte
  arrays.
- `src/decoder.rs`: the `Decoder` trait, whose contracts both meet.
- `src/page.rs`: `SplitPage`, the model of a page that the contracts speak of.
- `src/join.rs`: the loops that gather the bytes of values from the streams.
- `src/data_type.rs`, `src/byte_order.rs`: column types and their values.
- `src/errors.rs`: the error and its texts.
- `src/laws.rs`: properties that span calls, such as that decoding inverts the encoding.
- `src/buffer.rs`: what is taken on trust of `bytes::Bytes`. `src/byte_order.rs` adds one item of
  the standard library, `u16::from_ne_bytes`.
- `app/`: buffers of floating-point numbers.
