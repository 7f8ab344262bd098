//! Clone-on-write values, written as the value they hold or point to.
use crate::error::SerializationError;
use crate::io::{Read, Write};
use crate::serialize::{
    CanonicalDeserialize, CanonicalSerialize, Compress, SerializationLaws, Validate,
};
use std::borrow::Cow;
use vstd::prelude::*;

verus! {

/// The value that `cow` holds or points to.
pub open spec fn cow_value<'a, T: Clone>(cow: Cow<'a, T>) -> T {
    match cow {
        Cow::Borrowed(b) => *b,
        Cow::Owned(o) => o,
    }
}

impl<'a, T: CanonicalSerialize + Clone> CanonicalSerialize for Cow<'a, T> {
    open spec fn spec_serialize(&self, compress: Compress) -> Seq<u8> {
        cow_value(*self).spec_serialize(compress)
    }

    /// The compressed size of the value, whatever form is asked for.
    open spec fn spec_size(&self, compress: Compress) -> nat {
        cow_value(*self).spec_size(Compress::Yes)
    }

    fn serialize<W: Write>(&self, writer: &mut W) -> (r: Result<(), SerializationError>) {
        match self {
            Cow::Borrowed(b) => b.serialize(writer),
            Cow::Owned(o) => o.serialize(writer),
        }
    }

    fn serialized_size(&self) -> (n: usize) {
        match self {
            Cow::Borrowed(b) => b.serialized_size(),
            Cow::Owned(o) => o.serialized_size(),
        }
    }

    fn serialize_uncompressed<W: Write>(&self, writer: &mut W) -> (r: Result<
        (),
        SerializationError,
    >) {
        match self {
            Cow::Borrowed(b) => b.serialize_uncompressed(writer),
            Cow::Owned(o) => o.serialize_uncompressed(writer),
        }
    }

    fn serialize_unchecked<W: Write>(&self, writer: &mut W) -> (r: Result<(), SerializationError>) {
        self.serialize_uncompressed(writer)
    }

    fn uncompressed_size(&self) -> (n: usize) {
        self.serialized_size()
    }
}

impl<'a, T: CanonicalDeserialize + Clone> CanonicalDeserialize for Cow<'a, T> {
    type Model = T::Model;

    open spec fn model(&self) -> T::Model {
        cow_value(*self).model()
    }

    /// An owned value, read and checked as a `T`.
    open spec fn spec_deserialize(bytes: Seq<u8>, compress: Compress, validate: Validate) -> Result<
        (T::Model, nat),
        SerializationError,
    > {
        T::spec_deserialize(bytes, compress, Validate::Yes)
    }

    /// A value read is always an owned one.
    fn deserialize<R: Read>(reader: &mut R) -> (r: Result<Self, SerializationError>)
        ensures
            r matches Ok(c) ==> c matches Cow::Owned(_),
    {
        match T::deserialize(reader) {
            Ok(v) => Ok(Cow::Owned(v)),
            Err(e) => Err(e),
        }
    }

    /// A value read is always an owned one.
    fn deserialize_uncompressed<R: Read>(reader: &mut R) -> (r: Result<Self, SerializationError>)
        ensures
            r matches Ok(c) ==> c matches Cow::Owned(_),
    {
        match T::deserialize_uncompressed(reader) {
            Ok(v) => Ok(Cow::Owned(v)),
            Err(e) => Err(e),
        }
    }

    /// A value read is always an owned one.
    fn deserialize_unchecked<R: Read>(reader: &mut R) -> (r: Result<Self, SerializationError>)
        ensures
            r matches Ok(c) ==> c matches Cow::Owned(_),
    {
        Self::deserialize_uncompressed(reader)
    }
}

impl<'a, T: SerializationLaws + Clone> SerializationLaws for Cow<'a, T> {
    open spec fn spec_encode(m: T::Model, compress: Compress) -> Seq<u8> {
        T::spec_encode(m, compress)
    }

    proof fn lemma_encode_model(&self, compress: Compress) {
        cow_value(*self).lemma_encode_model(compress);
    }

    proof fn lemma_canonical(bytes: Seq<u8>, compress: Compress, validate: Validate) {
        T::lemma_canonical(bytes, compress, Validate::Yes);
    }

    proof fn lemma_roundtrip(&self, compress: Compress, validate: Validate, rest: Seq<u8>) {
        cow_value(*self).lemma_roundtrip(compress, Validate::Yes, rest);
    }

    proof fn lemma_size_suffices(&self, compress: Compress) {
        cow_value(*self).lemma_uncompressed_is_compressed();
        cow_value(*self).lemma_size_suffices(Compress::Yes);
    }

    proof fn lemma_uncompressed_is_compressed(&self) {
        cow_value(*self).lemma_uncompressed_is_compressed();
    }
}

} // verus!
