//! `PhantomData`, which takes no bytes at all.
use crate::error::SerializationError;
use crate::io::{Read, Write, lemma_writes_nothing};
use crate::serialize::{
    CanonicalDeserialize, CanonicalSerialize, Compress, SerializationLaws, Validate,
};
use core::marker::PhantomData;
use vstd::prelude::*;

verus! {

impl<T> CanonicalSerialize for PhantomData<T> {
    open spec fn spec_serialize(&self, compress: Compress) -> Seq<u8> {
        Seq::empty()
    }

    open spec fn spec_size(&self, compress: Compress) -> nat {
        0
    }

    fn serialize<W: Write>(&self, writer: &mut W) -> (r: Result<(), SerializationError>)
        ensures
            *final(writer) == *old(writer),
    {
        proof {
            lemma_writes_nothing(*writer);
        }
        Ok(())
    }

    fn serialized_size(&self) -> (n: usize) {
        0
    }

    fn serialize_uncompressed<W: Write>(&self, writer: &mut W) -> (r: Result<
        (),
        SerializationError,
    >)
        ensures
            *final(writer) == *old(writer),
    {
        proof {
            lemma_writes_nothing(*writer);
        }
        Ok(())
    }

    fn serialize_unchecked<W: Write>(&self, writer: &mut W) -> (r: Result<(), SerializationError>)
        ensures
            *final(writer) == *old(writer),
    {
        self.serialize_uncompressed(writer)
    }

    fn uncompressed_size(&self) -> (n: usize) {
        self.serialized_size()
    }
}

impl<T> CanonicalDeserialize for PhantomData<T> {
    type Model = ();

    open spec fn model(&self) -> () {
        ()
    }

    open spec fn spec_deserialize(bytes: Seq<u8>, compress: Compress, validate: Validate) -> Result<
        ((), nat),
        SerializationError,
    > {
        Ok(((), 0))
    }

    fn deserialize<R: Read>(reader: &mut R) -> (r: Result<Self, SerializationError>) {
        assert(reader.spec_unread().skip(0) =~= reader.spec_unread());
        Ok(PhantomData)
    }

    fn deserialize_uncompressed<R: Read>(reader: &mut R) -> (r: Result<Self, SerializationError>) {
        assert(reader.spec_unread().skip(0) =~= reader.spec_unread());
        Ok(PhantomData)
    }

    fn deserialize_unchecked<R: Read>(reader: &mut R) -> (r: Result<Self, SerializationError>) {
        Self::deserialize_uncompressed(reader)
    }
}

impl<T> SerializationLaws for PhantomData<T> {
    open spec fn spec_encode(m: (), compress: Compress) -> Seq<u8> {
        Seq::empty()
    }

    proof fn lemma_encode_model(&self, compress: Compress) {
    }

    proof fn lemma_canonical(bytes: Seq<u8>, compress: Compress, validate: Validate) {
        assert(bytes.take(0) =~= Seq::<u8>::empty());
    }

    proof fn lemma_roundtrip(&self, compress: Compress, validate: Validate, rest: Seq<u8>) {
    }

    proof fn lemma_size_suffices(&self, compress: Compress) {
    }

    proof fn lemma_uncompressed_is_compressed(&self) {
    }
}

} // verus!
