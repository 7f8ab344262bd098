//! Booleans, written as the byte 0 or 1.
use crate::error::{IoErrorKind, SerializationError};
use crate::io::{Read, Write};
use crate::little_endian::{
    le_bytes, lemma_le_bytes_len, lemma_le_bytes_of_value, lemma_pow256_values,
};
use crate::serialize::{
    CanonicalDeserialize, CanonicalSerialize, Compress, SerializationLaws, Validate,
    lemma_read_le_roundtrip, read_le, spec_read_le, write_le,
};
use vstd::prelude::*;

verus! {

/// The byte that stands for `b`.
pub open spec fn bool_byte(b: bool) -> nat {
    if b {
        1
    } else {
        0
    }
}

impl CanonicalSerialize for bool {
    open spec fn spec_serialize(&self, compress: Compress) -> Seq<u8> {
        le_bytes(bool_byte(*self), 1)
    }

    open spec fn spec_size(&self, compress: Compress) -> nat {
        1
    }

    fn serialize<W: Write>(&self, writer: &mut W) -> (r: Result<(), SerializationError>) {
        let byte: u64 = if *self {
            1
        } else {
            0
        };
        write_le(byte, 1, writer)
    }

    fn serialized_size(&self) -> (n: usize) {
        1
    }

    fn serialize_uncompressed<W: Write>(&self, writer: &mut W) -> (r: Result<
        (),
        SerializationError,
    >) {
        self.serialize(writer)
    }

    fn serialize_unchecked<W: Write>(&self, writer: &mut W) -> (r: Result<(), SerializationError>) {
        self.serialize_uncompressed(writer)
    }

    fn uncompressed_size(&self) -> (n: usize) {
        self.serialized_size()
    }
}

impl CanonicalDeserialize for bool {
    type Model = bool;

    open spec fn model(&self) -> bool {
        *self
    }

    /// The byte 0 is `false`, 1 is `true`, any other byte is refused.
    open spec fn spec_deserialize(bytes: Seq<u8>, compress: Compress, validate: Validate) -> Result<
        (bool, nat),
        SerializationError,
    > {
        match spec_read_le(bytes, 1) {
            Ok((v, n)) => if v == 0 {
                Ok((false, n))
            } else if v == 1 {
                Ok((true, n))
            } else {
                Err(SerializationError::IoError(IoErrorKind::InvalidData))
            },
            Err(e) => Err(e),
        }
    }

    fn deserialize<R: Read>(reader: &mut R) -> (r: Result<Self, SerializationError>) {
        match read_le(1, reader) {
            Ok(v) => if v == 0 {
                Ok(false)
            } else if v == 1 {
                Ok(true)
            } else {
                Err(SerializationError::IoError(IoErrorKind::InvalidData))
            },
            Err(e) => Err(e),
        }
    }

    fn deserialize_uncompressed<R: Read>(reader: &mut R) -> (r: Result<Self, SerializationError>) {
        Self::deserialize(reader)
    }

    fn deserialize_unchecked<R: Read>(reader: &mut R) -> (r: Result<Self, SerializationError>) {
        Self::deserialize_uncompressed(reader)
    }
}

impl SerializationLaws for bool {
    open spec fn spec_encode(m: bool, compress: Compress) -> Seq<u8> {
        le_bytes(bool_byte(m), 1)
    }

    proof fn lemma_encode_model(&self, compress: Compress) {
    }

    proof fn lemma_canonical(bytes: Seq<u8>, compress: Compress, validate: Validate) {
        if bytes.len() >= 1 {
            lemma_le_bytes_of_value(bytes.take(1));
        }
    }

    proof fn lemma_roundtrip(&self, compress: Compress, validate: Validate, rest: Seq<u8>) {
        lemma_pow256_values();
        lemma_le_bytes_len(bool_byte(*self), 1);
        lemma_read_le_roundtrip(bool_byte(*self), 1, rest);
    }

    proof fn lemma_size_suffices(&self, compress: Compress) {
        lemma_le_bytes_len(bool_byte(*self), 1);
    }

    proof fn lemma_uncompressed_is_compressed(&self) {
    }
}

} // verus!
