//! Unsigned integers, written as their little-endian bytes.
use crate::error::SerializationError;
use crate::io::{Read, Write};
use crate::little_endian::{
    le_bytes, lemma_le_bytes_len, lemma_le_bytes_of_value, lemma_le_value_bound,
    lemma_pow256_values,
};
use crate::serialize::{
    CanonicalDeserialize, CanonicalSerialize, Compress, ConstantSerializedSize,
    SerializationLaws, Validate, lemma_read_le_roundtrip, read_le, spec_read_le, write_le,
};
use vstd::prelude::*;

verus! {

impl CanonicalSerialize for u8 {
    open spec fn spec_serialize(&self, compress: Compress) -> Seq<u8> {
        le_bytes(*self as nat, 1)
    }

    open spec fn spec_size(&self, compress: Compress) -> nat {
        1
    }

    fn serialize<W: Write>(&self, writer: &mut W) -> (r: Result<(), SerializationError>) {
        write_le(*self as u64, 1, writer)
    }

    fn serialized_size(&self) -> (n: usize) {
        Self::SERIALIZED_SIZE
    }

    fn serialize_uncompressed<W: Write>(&self, writer: &mut W) -> (r: Result<
        (),
        SerializationError,
    >) {
        self.serialize(writer)
    }

    fn serialize_unchecked<W: Write>(&self, writer: &mut W) -> (r: Result<(), SerializationError>) {
        self.serialize_uncompressed(writer)
    }

    fn uncompressed_size(&self) -> (n: usize) {
        self.serialized_size()
    }
}

impl ConstantSerializedSize for u8 {
    const SERIALIZED_SIZE: usize = 1;

    const UNCOMPRESSED_SIZE: usize = 1;

    proof fn lemma_constant_size(v: &Self) {
    }
}

impl CanonicalDeserialize for u8 {
    type Model = u8;

    open spec fn model(&self) -> u8 {
        *self
    }

    open spec fn spec_deserialize(bytes: Seq<u8>, compress: Compress, validate: Validate) -> Result<
        (u8, nat),
        SerializationError,
    > {
        match spec_read_le(bytes, 1) {
            Ok((v, n)) => Ok((v as u8, n)),
            Err(e) => Err(e),
        }
    }

    fn deserialize<R: Read>(reader: &mut R) -> (r: Result<Self, SerializationError>) {
        proof {
            lemma_pow256_values();
        }
        match read_le(1, reader) {
            Ok(v) => Ok(v as u8),
            Err(e) => Err(e),
        }
    }

    fn deserialize_uncompressed<R: Read>(reader: &mut R) -> (r: Result<Self, SerializationError>) {
        Self::deserialize(reader)
    }

    fn deserialize_unchecked<R: Read>(reader: &mut R) -> (r: Result<Self, SerializationError>) {
        Self::deserialize_uncompressed(reader)
    }
}

impl SerializationLaws for u8 {
    open spec fn spec_encode(m: u8, compress: Compress) -> Seq<u8> {
        le_bytes(m as nat, 1)
    }

    proof fn lemma_encode_model(&self, compress: Compress) {
    }

    proof fn lemma_canonical(bytes: Seq<u8>, compress: Compress, validate: Validate) {
        if bytes.len() >= 1 {
            lemma_le_bytes_of_value(bytes.take(1));
            lemma_le_value_bound(bytes.take(1));
            lemma_pow256_values();
        }
    }

    proof fn lemma_roundtrip(&self, compress: Compress, validate: Validate, rest: Seq<u8>) {
        lemma_pow256_values();
        lemma_le_bytes_len(*self as nat, 1);
        lemma_read_le_roundtrip(*self as nat, 1, rest);
    }

    proof fn lemma_size_suffices(&self, compress: Compress) {
        lemma_le_bytes_len(*self as nat, 1);
    }

    proof fn lemma_uncompressed_is_compressed(&self) {
    }
}

impl CanonicalSerialize for u16 {
    open spec fn spec_serialize(&self, compress: Compress) -> Seq<u8> {
        le_bytes(*self as nat, 2)
    }

    open spec fn spec_size(&self, compress: Compress) -> nat {
        2
    }

    fn serialize<W: Write>(&self, writer: &mut W) -> (r: Result<(), SerializationError>) {
        write_le(*self as u64, 2, writer)
    }

    fn serialized_size(&self) -> (n: usize) {
        Self::SERIALIZED_SIZE
    }

    fn serialize_uncompressed<W: Write>(&self, writer: &mut W) -> (r: Result<
        (),
        SerializationError,
    >) {
        self.serialize(writer)
    }

    fn serialize_unchecked<W: Write>(&self, writer: &mut W) -> (r: Result<(), SerializationError>) {
        self.serialize_uncompressed(writer)
    }

    fn uncompressed_size(&self) -> (n: usize) {
        self.serialized_size()
    }
}

impl ConstantSerializedSize for u16 {
    const SERIALIZED_SIZE: usize = 2;

    const UNCOMPRESSED_SIZE: usize = 2;

    proof fn lemma_constant_size(v: &Self) {
    }
}

impl CanonicalDeserialize for u16 {
    type Model = u16;

    open spec fn model(&self) -> u16 {
        *self
    }

    open spec fn spec_deserialize(bytes: Seq<u8>, compress: Compress, validate: Validate) -> Result<
        (u16, nat),
        SerializationError,
    > {
        match spec_read_le(bytes, 2) {
            Ok((v, n)) => Ok((v as u16, n)),
            Err(e) => Err(e),
        }
    }

    fn deserialize<R: Read>(reader: &mut R) -> (r: Result<Self, SerializationError>) {
        proof {
            lemma_pow256_values();
        }
        match read_le(2, reader) {
            Ok(v) => Ok(v as u16),
            Err(e) => Err(e),
        }
    }

    fn deserialize_uncompressed<R: Read>(reader: &mut R) -> (r: Result<Self, SerializationError>) {
        Self::deserialize(reader)
    }

    fn deserialize_unchecked<R: Read>(reader: &mut R) -> (r: Result<Self, SerializationError>) {
        Self::deserialize_uncompressed(reader)
    }
}

impl SerializationLaws for u16 {
    open spec fn spec_encode(m: u16, compress: Compress) -> Seq<u8> {
        le_bytes(m as nat, 2)
    }

    proof fn lemma_encode_model(&self, compress: Compress) {
    }

    proof fn lemma_canonical(bytes: Seq<u8>, compress: Compress, validate: Validate) {
        if bytes.len() >= 2 {
            lemma_le_bytes_of_value(bytes.take(2));
            lemma_le_value_bound(bytes.take(2));
            lemma_pow256_values();
        }
    }

    proof fn lemma_roundtrip(&self, compress: Compress, validate: Validate, rest: Seq<u8>) {
        lemma_pow256_values();
        lemma_le_bytes_len(*self as nat, 2);
        lemma_read_le_roundtrip(*self as nat, 2, rest);
    }

    proof fn lemma_size_suffices(&self, compress: Compress) {
        lemma_le_bytes_len(*self as nat, 2);
    }

    proof fn lemma_uncompressed_is_compressed(&self) {
    }
}

impl CanonicalSerialize for u32 {
    open spec fn spec_serialize(&self, compress: Compress) -> Seq<u8> {
        le_bytes(*self as nat, 4)
    }

    open spec fn spec_size(&self, compress: Compress) -> nat {
        4
    }

    fn serialize<W: Write>(&self, writer: &mut W) -> (r: Result<(), SerializationError>) {
        write_le(*self as u64, 4, writer)
    }

    fn serialized_size(&self) -> (n: usize) {
        Self::SERIALIZED_SIZE
    }

    fn serialize_uncompressed<W: Write>(&self, writer: &mut W) -> (r: Result<
        (),
        SerializationError,
    >) {
        self.serialize(writer)
    }

    fn serialize_unchecked<W: Write>(&self, writer: &mut W) -> (r: Result<(), SerializationError>) {
        self.serialize_uncompressed(writer)
    }

    fn uncompressed_size(&self) -> (n: usize) {
        self.serialized_size()
    }
}

impl ConstantSerializedSize for u32 {
    const SERIALIZED_SIZE: usize = 4;

    const UNCOMPRESSED_SIZE: usize = 4;

    proof fn lemma_constant_size(v: &Self) {
    }
}

impl CanonicalDeserialize for u32 {
    type Model = u32;

    open spec fn model(&self) -> u32 {
        *self
    }

    open spec fn spec_deserialize(bytes: Seq<u8>, compress: Compress, validate: Validate) -> Result<
        (u32, nat),
        SerializationError,
    > {
        match spec_read_le(bytes, 4) {
            Ok((v, n)) => Ok((v as u32, n)),
            Err(e) => Err(e),
        }
    }

    fn deserialize<R: Read>(reader: &mut R) -> (r: Result<Self, SerializationError>) {
        proof {
            lemma_pow256_values();
        }
        match read_le(4, reader) {
            Ok(v) => Ok(v as u32),
            Err(e) => Err(e),
        }
    }

    fn deserialize_uncompressed<R: Read>(reader: &mut R) -> (r: Result<Self, SerializationError>) {
        Self::deserialize(reader)
    }

    fn deserialize_unchecked<R: Read>(reader: &mut R) -> (r: Result<Self, SerializationError>) {
        Self::deserialize_uncompressed(reader)
    }
}

impl SerializationLaws for u32 {
    open spec fn spec_encode(m: u32, compress: Compress) -> Seq<u8> {
        le_bytes(m as nat, 4)
    }

    proof fn lemma_encode_model(&self, compress: Compress) {
    }

    proof fn lemma_canonical(bytes: Seq<u8>, compress: Compress, validate: Validate) {
        if bytes.len() >= 4 {
            lemma_le_bytes_of_value(bytes.take(4));
            lemma_le_value_bound(bytes.take(4));
            lemma_pow256_values();
        }
    }

    proof fn lemma_roundtrip(&self, compress: Compress, validate: Validate, rest: Seq<u8>) {
        lemma_pow256_values();
        lemma_le_bytes_len(*self as nat, 4);
        lemma_read_le_roundtrip(*self as nat, 4, rest);
    }

    proof fn lemma_size_suffices(&self, compress: Compress) {
        lemma_le_bytes_len(*self as nat, 4);
    }

    proof fn lemma_uncompressed_is_compressed(&self) {
    }
}

impl CanonicalSerialize for u64 {
    open spec fn spec_serialize(&self, compress: Compress) -> Seq<u8> {
        le_bytes(*self as nat, 8)
    }

    open spec fn spec_size(&self, compress: Compress) -> nat {
        8
    }

    fn serialize<W: Write>(&self, writer: &mut W) -> (r: Result<(), SerializationError>) {
        write_le(*self, 8, writer)
    }

    fn serialized_size(&self) -> (n: usize) {
        Self::SERIALIZED_SIZE
    }

    fn serialize_uncompressed<W: Write>(&self, writer: &mut W) -> (r: Result<
        (),
        SerializationError,
    >) {
        self.serialize(writer)
    }

    fn serialize_unchecked<W: Write>(&self, writer: &mut W) -> (r: Result<(), SerializationError>) {
        self.serialize_uncompressed(writer)
    }

    fn uncompressed_size(&self) -> (n: usize) {
        self.serialized_size()
    }
}

impl ConstantSerializedSize for u64 {
    const SERIALIZED_SIZE: usize = 8;

    const UNCOMPRESSED_SIZE: usize = 8;

    proof fn lemma_constant_size(v: &Self) {
    }
}

impl CanonicalDeserialize for u64 {
    type Model = u64;

    open spec fn model(&self) -> u64 {
        *self
    }

    open spec fn spec_deserialize(bytes: Seq<u8>, compress: Compress, validate: Validate) -> Result<
        (u64, nat),
        SerializationError,
    > {
        match spec_read_le(bytes, 8) {
            Ok((v, n)) => Ok((v as u64, n)),
            Err(e) => Err(e),
        }
    }

    fn deserialize<R: Read>(reader: &mut R) -> (r: Result<Self, SerializationError>) {
        proof {
            lemma_pow256_values();
        }
        match read_le(8, reader) {
            Ok(v) => Ok(v as u64),
            Err(e) => Err(e),
        }
    }

    fn deserialize_uncompressed<R: Read>(reader: &mut R) -> (r: Result<Self, SerializationError>) {
        Self::deserialize(reader)
    }

    fn deserialize_unchecked<R: Read>(reader: &mut R) -> (r: Result<Self, SerializationError>) {
        Self::deserialize_uncompressed(reader)
    }
}

impl SerializationLaws for u64 {
    open spec fn spec_encode(m: u64, compress: Compress) -> Seq<u8> {
        le_bytes(m as nat, 8)
    }

    proof fn lemma_encode_model(&self, compress: Compress) {
    }

    proof fn lemma_canonical(bytes: Seq<u8>, compress: Compress, validate: Validate) {
        if bytes.len() >= 8 {
            lemma_le_bytes_of_value(bytes.take(8));
            lemma_le_value_bound(bytes.take(8));
            lemma_pow256_values();
        }
    }

    proof fn lemma_roundtrip(&self, compress: Compress, validate: Validate, rest: Seq<u8>) {
        lemma_pow256_values();
        lemma_le_bytes_len(*self as nat, 8);
        lemma_read_le_roundtrip(*self as nat, 8, rest);
    }

    proof fn lemma_size_suffices(&self, compress: Compress) {
        lemma_le_bytes_len(*self as nat, 8);
    }

    proof fn lemma_uncompressed_is_compressed(&self) {
    }
}

impl CanonicalSerialize for usize {
    open spec fn spec_serialize(&self, compress: Compress) -> Seq<u8> {
        le_bytes(*self as nat, 8)
    }

    open spec fn spec_size(&self, compress: Compress) -> nat {
        8
    }

    fn serialize<W: Write>(&self, writer: &mut W) -> (r: Result<(), SerializationError>) {
        write_le(*self as u64, 8, writer)
    }

    fn serialized_size(&self) -> (n: usize) {
        Self::SERIALIZED_SIZE
    }

    fn serialize_uncompressed<W: Write>(&self, writer: &mut W) -> (r: Result<
        (),
        SerializationError,
    >) {
        self.serialize(writer)
    }

    fn serialize_unchecked<W: Write>(&self, writer: &mut W) -> (r: Result<(), SerializationError>) {
        self.serialize_uncompressed(writer)
    }

    fn uncompressed_size(&self) -> (n: usize) {
        self.serialized_size()
    }
}

impl ConstantSerializedSize for usize {
    const SERIALIZED_SIZE: usize = 8;

    const UNCOMPRESSED_SIZE: usize = 8;

    proof fn lemma_constant_size(v: &Self) {
    }
}

impl CanonicalDeserialize for usize {
    type Model = usize;

    open spec fn model(&self) -> usize {
        *self
    }

    open spec fn spec_deserialize(bytes: Seq<u8>, compress: Compress, validate: Validate) -> Result<
        (usize, nat),
        SerializationError,
    > {
        match spec_read_le(bytes, 8) {
            Ok((v, n)) => if v <= usize::MAX {
                Ok((v as usize, n))
            } else {
                Err(SerializationError::InvalidData)
            },
            Err(e) => Err(e),
        }
    }

    /// Eight bytes are taken whenever there are eight, also when they stand for a
    /// number too large for a `usize`.
    fn deserialize<R: Read>(reader: &mut R) -> (r: Result<Self, SerializationError>)
        ensures
            old(reader).spec_unread().len() >= 8 ==> final(reader).spec_unread()
                == old(reader).spec_unread().skip(8),
    {
        proof {
            lemma_pow256_values();
        }
        match read_le(8, reader) {
            Ok(v) => if v <= usize::MAX as u64 {
                Ok(v as usize)
            } else {
                Err(SerializationError::InvalidData)
            },
            Err(e) => Err(e),
        }
    }

    /// Eight bytes are taken whenever there are eight, also when they stand for a
    /// number too large for a `usize`.
    fn deserialize_uncompressed<R: Read>(reader: &mut R) -> (r: Result<Self, SerializationError>)
        ensures
            old(reader).spec_unread().len() >= 8 ==> final(reader).spec_unread()
                == old(reader).spec_unread().skip(8),
    {
        Self::deserialize(reader)
    }

    /// Eight bytes are taken whenever there are eight, also when they stand for a
    /// number too large for a `usize`.
    fn deserialize_unchecked<R: Read>(reader: &mut R) -> (r: Result<Self, SerializationError>)
        ensures
            old(reader).spec_unread().len() >= 8 ==> final(reader).spec_unread()
                == old(reader).spec_unread().skip(8),
    {
        Self::deserialize_uncompressed(reader)
    }
}

impl SerializationLaws for usize {
    open spec fn spec_encode(m: usize, compress: Compress) -> Seq<u8> {
        le_bytes(m as nat, 8)
    }

    proof fn lemma_encode_model(&self, compress: Compress) {
    }

    proof fn lemma_canonical(bytes: Seq<u8>, compress: Compress, validate: Validate) {
        if bytes.len() >= 8 {
            lemma_le_bytes_of_value(bytes.take(8));
            lemma_le_value_bound(bytes.take(8));
            lemma_pow256_values();
        }
    }

    proof fn lemma_roundtrip(&self, compress: Compress, validate: Validate, rest: Seq<u8>) {
        lemma_pow256_values();
        lemma_le_bytes_len(*self as nat, 8);
        lemma_read_le_roundtrip(*self as nat, 8, rest);
    }

    proof fn lemma_size_suffices(&self, compress: Compress) {
        lemma_le_bytes_len(*self as nat, 8);
    }

    proof fn lemma_uncompressed_is_compressed(&self) {
    }
}

} // verus!
