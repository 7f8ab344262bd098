# algebra_core (serialization)

Canonical little-endian serialization, verified with Verus.

- `src/serialize.rs`: the traits `CanonicalSerialize`, `CanonicalDeserialize`,
  `ConstantSerializedSize`, the laws every type obeys (`SerializationLaws`:
  round trip, canonical encodings, sizes), and `buffer_byte_size` /
  `buffer_bit_byte_size`.
- `src/io.rs`: the `Write` and `Read` traits the serializers work against, and
  the buffer types `SliceWriter` and `SliceReader`.
- `src/little_endian.rs`: the little-endian model of unsigned integers and its
  executable encoder and decoder.
- `src/uint.rs`, `src/boolean.rs`, `src/vec.rs`, `src/option.rs`,
  `src/tuple.rs`, `src/phantom.rs`, `src/cow.rs`: the formats of each type.
- `src/flags.rs`: flags packed into a value's last byte, the functions that pack
  and unpack them (`write_bytes_with_flags`, `read_bytes_with_flags`), and the traits of
  serializers that carry them.
- `src/error.rs`: `SerializationError`.

`tests/serialize.rs` runs the serializers on concrete values.
