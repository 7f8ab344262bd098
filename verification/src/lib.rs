//! Canonical little-endian serialization of integers, booleans, vectors,
//! options, tuples and a few wrapper types, with verified contracts.
pub mod error;
pub mod little_endian;
pub mod io;
pub mod serialize;
pub mod uint;
pub mod boolean;
pub mod phantom;
pub mod vec;
pub mod option;
pub mod tuple;
pub mod cow;
pub mod flags;

pub use error::{IoErrorKind, SerializationError};
pub use flags::{
    CanonicalDeserializeWithFlags, CanonicalSerializeWithFlags, EmptyFlags, Flags,
    read_bytes_with_flags, write_bytes_with_flags,
};
pub use io::{Read, SliceReader, SliceWriter, Write};
pub use serialize::{
    CanonicalDeserialize, CanonicalSerialize, Compress, ConstantSerializedSize,
    SerializationLaws, Validate, buffer_bit_byte_size, buffer_byte_size,
};
pub mod format;
