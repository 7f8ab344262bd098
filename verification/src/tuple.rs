//! Tuples of two, three and four parts, written as their parts in order.
use crate::error::SerializationError;
use crate::io::{Read, Write, lemma_writes_failed_extend, lemma_writes_then, writes};
use crate::serialize::{
    CanonicalDeserialize, CanonicalSerialize, Compress, ReadMode, SerializationLaws, Validate,
    WriteMode, deserialize_with, lemma_suffix_after_skip, read_outcome, serialize_with,
};
use vstd::prelude::*;

verus! {

/// Writes the parts of a 2-tuple in order, with the method `mode` names.
fn serialize_tuple2<A: CanonicalSerialize, B: CanonicalSerialize, W: Write>(
    t: &(A, B),
    writer: &mut W,
    mode: WriteMode,
) -> (r: Result<(), SerializationError>)
    ensures
        writes(*old(writer), *final(writer), t.spec_serialize(mode.compress()), r),
{
    let ghost c = mode.compress();
    let ghost w0 = *writer;
    let ghost p0 = t.0.spec_serialize(c);
    let ghost p1 = t.1.spec_serialize(c);
    match serialize_with(&t.0, writer, mode) {
        Err(e) => {
            proof {
                lemma_writes_failed_extend(w0, *writer, p0, p1, Err(e));
                assert(p0 + (p1) =~= t.spec_serialize(c));
            }
            return Err(e);
        },
        Ok(()) => {},
    }
    let ghost mid1 = *writer;
    match serialize_with(&t.1, writer, mode) {
        Err(e) => {
            proof {
                lemma_writes_then(w0, mid1, *writer, p0, p1, Err(e));
            }
            return Err(e);
        },
        Ok(()) => {
            proof {
                lemma_writes_then(w0, mid1, *writer, p0, p1, Ok(()));
            }
        },
    }
    Ok(())
}

/// Reads the parts of a 2-tuple in order, with the method `mode` names.
fn deserialize_tuple2<A: CanonicalDeserialize, B: CanonicalDeserialize, R: Read>(
    reader: &mut R,
    mode: ReadMode,
) -> (r: Result<(A, B), SerializationError>)
    requires
        mode.validate() == Validate::Yes,
    ensures
        read_outcome(
            old(reader).spec_unread(),
            final(reader).spec_unread(),
            <(A, B)>::spec_deserialize(old(reader).spec_unread(), mode.compress(), mode.validate()),
            match r {
                Ok(v) => Ok(v.model()),
                Err(e) => Err(e),
            },
        ),
{
    let ghost c = mode.compress();
    let ghost u0 = reader.spec_unread();
    let x0 = match deserialize_with::<A, R>(reader, mode) {
        Ok(x) => x,
        Err(e) => return Err(e),
    };
    let ghost n0 = (A::spec_deserialize(u0, c, Validate::Yes)->Ok_0).1;
    let ghost u1 = reader.spec_unread();
    let x1 = match deserialize_with::<B, R>(reader, mode) {
        Ok(x) => x,
        Err(e) => {
            proof {
                lemma_suffix_after_skip(u0, (n0) as int, reader.spec_unread());
            }
            return Err(e);
        },
    };
    let ghost n1 = (B::spec_deserialize(u1, c, Validate::Yes)->Ok_0).1;
    assert(u0.skip((n0) as int).skip(n1 as int) =~= u0.skip((n0 + n1) as int));
    Ok((x0, x1))
}

impl<A: CanonicalSerialize, B: CanonicalSerialize> CanonicalSerialize for (A, B) {
    open spec fn spec_serialize(&self, compress: Compress) -> Seq<u8> {
        self.0.spec_serialize(compress) + self.1.spec_serialize(compress)
    }

    open spec fn spec_size(&self, compress: Compress) -> nat {
        self.0.spec_size(compress) + self.1.spec_size(compress)
    }

    fn serialize<W: Write>(&self, writer: &mut W) -> (r: Result<(), SerializationError>) {
        serialize_tuple2(self, writer, WriteMode::Compressed)
    }

    fn serialized_size(&self) -> (n: usize) {
        self.0.serialized_size() + self.1.serialized_size()
    }

    fn serialize_uncompressed<W: Write>(&self, writer: &mut W) -> (r: Result<
        (),
        SerializationError,
    >) {
        serialize_tuple2(self, writer, WriteMode::Uncompressed)
    }

    fn serialize_unchecked<W: Write>(&self, writer: &mut W) -> (r: Result<(), SerializationError>) {
        self.serialize_uncompressed(writer)
    }

    fn uncompressed_size(&self) -> (n: usize) {
        self.0.uncompressed_size() + self.1.uncompressed_size()
    }
}

impl<A: CanonicalDeserialize, B: CanonicalDeserialize> CanonicalDeserialize for (A, B) {
    type Model = (A::Model, B::Model);

    open spec fn model(&self) -> (A::Model, B::Model) {
        (self.0.model(), self.1.model())
    }

    /// The parts, read in order; every part is checked.
    open spec fn spec_deserialize(bytes: Seq<u8>, compress: Compress, validate: Validate) -> Result<
        ((A::Model, B::Model), nat),
        SerializationError,
    > {
        match A::spec_deserialize(bytes, compress, Validate::Yes) {
            Err(e) => Err(e),
            Ok((m0, n0)) => {
                match B::spec_deserialize(bytes.skip((n0) as int), compress, Validate::Yes) {
                    Err(e) => Err(e),
                    Ok((m1, n1)) => Ok(((m0, m1), n0 + n1)),
                }
            },
        }
    }

    fn deserialize<R: Read>(reader: &mut R) -> (r: Result<Self, SerializationError>) {
        deserialize_tuple2(reader, ReadMode::Checked)
    }

    fn deserialize_uncompressed<R: Read>(reader: &mut R) -> (r: Result<Self, SerializationError>) {
        deserialize_tuple2(reader, ReadMode::Uncompressed)
    }

    fn deserialize_unchecked<R: Read>(reader: &mut R) -> (r: Result<Self, SerializationError>) {
        Self::deserialize_uncompressed(reader)
    }
}

impl<A: SerializationLaws, B: SerializationLaws> SerializationLaws for (A, B) {
    proof fn lemma_roundtrip(&self, compress: Compress, validate: Validate, rest: Seq<u8>) {
        let p0 = self.0.spec_serialize(compress);
        let p1 = self.1.spec_serialize(compress);
        let bytes = p0 + p1 + rest;
        self.0.lemma_roundtrip(compress, Validate::Yes, p1 + rest);
        assert(bytes =~= p0 + (p1 + rest));
        self.1.lemma_roundtrip(compress, Validate::Yes, rest);
        assert(bytes.skip((p0.len()) as int) =~= p1 + (rest));
    }

    proof fn lemma_size_suffices(&self, compress: Compress) {
        self.0.lemma_size_suffices(compress);
        self.1.lemma_size_suffices(compress);
    }

    proof fn lemma_uncompressed_is_compressed(&self) {
        self.0.lemma_uncompressed_is_compressed();
        self.1.lemma_uncompressed_is_compressed();
    }

    open spec fn spec_encode(m: (A::Model, B::Model), compress: Compress) -> Seq<u8> {
        A::spec_encode(m.0, compress) + B::spec_encode(m.1, compress)
    }

    proof fn lemma_encode_model(&self, compress: Compress) {
        self.0.lemma_encode_model(compress);
        self.1.lemma_encode_model(compress);
    }

    proof fn lemma_canonical(bytes: Seq<u8>, compress: Compress, validate: Validate) {
        let b0 = bytes;
        A::lemma_canonical(b0, compress, Validate::Yes);
        match A::spec_deserialize(b0, compress, Validate::Yes) {
            Err(_) => {},
            Ok((m0, n0)) => {
                let b1 = bytes.skip((n0) as int);
                B::lemma_canonical(b1, compress, Validate::Yes);
                match B::spec_deserialize(b1, compress, Validate::Yes) {
                    Err(_) => {},
                    Ok((m1, n1)) => {
                        assert(bytes.take((n0 + n1) as int) =~= b0.take(n0 as int)
                            + b1.take(n1 as int));
                    },
                }
            },
        }
    }
}

/// Writes the parts of a 3-tuple in order, with the method `mode` names.
fn serialize_tuple3<
    A: CanonicalSerialize,
    B: CanonicalSerialize,
    C: CanonicalSerialize,
    W: Write,
>(
    t: &(A, B, C),
    writer: &mut W,
    mode: WriteMode,
) -> (r: Result<(), SerializationError>)
    ensures
        writes(*old(writer), *final(writer), t.spec_serialize(mode.compress()), r),
{
    let ghost c = mode.compress();
    let ghost w0 = *writer;
    let ghost p0 = t.0.spec_serialize(c);
    let ghost p1 = t.1.spec_serialize(c);
    let ghost p2 = t.2.spec_serialize(c);
    match serialize_with(&t.0, writer, mode) {
        Err(e) => {
            proof {
                lemma_writes_failed_extend(w0, *writer, p0, p1 + p2, Err(e));
                assert(p0 + (p1 + p2) =~= t.spec_serialize(c));
            }
            return Err(e);
        },
        Ok(()) => {},
    }
    let ghost mid1 = *writer;
    match serialize_with(&t.1, writer, mode) {
        Err(e) => {
            proof {
                lemma_writes_then(w0, mid1, *writer, p0, p1, Err(e));
                lemma_writes_failed_extend(w0, *writer, p0 + p1, p2, Err(e));
                assert(p0 + p1 + (p2) =~= t.spec_serialize(c));
            }
            return Err(e);
        },
        Ok(()) => {
            proof {
                lemma_writes_then(w0, mid1, *writer, p0, p1, Ok(()));
            }
        },
    }
    let ghost mid2 = *writer;
    match serialize_with(&t.2, writer, mode) {
        Err(e) => {
            proof {
                lemma_writes_then(w0, mid2, *writer, p0 + p1, p2, Err(e));
            }
            return Err(e);
        },
        Ok(()) => {
            proof {
                lemma_writes_then(w0, mid2, *writer, p0 + p1, p2, Ok(()));
            }
        },
    }
    Ok(())
}

/// Reads the parts of a 3-tuple in order, with the method `mode` names.
fn deserialize_tuple3<
    A: CanonicalDeserialize,
    B: CanonicalDeserialize,
    C: CanonicalDeserialize,
    R: Read,
>(
    reader: &mut R,
    mode: ReadMode,
) -> (r: Result<(A, B, C), SerializationError>)
    requires
        mode.validate() == Validate::Yes,
    ensures
        read_outcome(
            old(reader).spec_unread(),
            final(reader).spec_unread(),
            <(A, B, C)>::spec_deserialize(
                old(reader).spec_unread(),
                mode.compress(),
                mode.validate(),
            ),
            match r {
                Ok(v) => Ok(v.model()),
                Err(e) => Err(e),
            },
        ),
{
    let ghost c = mode.compress();
    let ghost u0 = reader.spec_unread();
    let x0 = match deserialize_with::<A, R>(reader, mode) {
        Ok(x) => x,
        Err(e) => return Err(e),
    };
    let ghost n0 = (A::spec_deserialize(u0, c, Validate::Yes)->Ok_0).1;
    let ghost u1 = reader.spec_unread();
    let x1 = match deserialize_with::<B, R>(reader, mode) {
        Ok(x) => x,
        Err(e) => {
            proof {
                lemma_suffix_after_skip(u0, (n0) as int, reader.spec_unread());
            }
            return Err(e);
        },
    };
    let ghost n1 = (B::spec_deserialize(u1, c, Validate::Yes)->Ok_0).1;
    assert(u0.skip((n0) as int).skip(n1 as int) =~= u0.skip((n0 + n1) as int));
    let ghost u2 = reader.spec_unread();
    let x2 = match deserialize_with::<C, R>(reader, mode) {
        Ok(x) => x,
        Err(e) => {
            proof {
                lemma_suffix_after_skip(u0, (n0 + n1) as int, reader.spec_unread());
            }
            return Err(e);
        },
    };
    let ghost n2 = (C::spec_deserialize(u2, c, Validate::Yes)->Ok_0).1;
    assert(u0.skip((n0 + n1) as int).skip(n2 as int) =~= u0.skip((n0 + n1 + n2) as int));
    Ok((x0, x1, x2))
}

impl<
    A: CanonicalSerialize,
    B: CanonicalSerialize,
    C: CanonicalSerialize,
> CanonicalSerialize for (A, B, C) {
    open spec fn spec_serialize(&self, compress: Compress) -> Seq<u8> {
        self.0.spec_serialize(compress) + self.1.spec_serialize(compress)
            + self.2.spec_serialize(compress)
    }

    open spec fn spec_size(&self, compress: Compress) -> nat {
        self.0.spec_size(compress) + self.1.spec_size(compress) + self.2.spec_size(compress)
    }

    fn serialize<W: Write>(&self, writer: &mut W) -> (r: Result<(), SerializationError>) {
        serialize_tuple3(self, writer, WriteMode::Compressed)
    }

    fn serialized_size(&self) -> (n: usize) {
        self.0.serialized_size() + self.1.serialized_size() + self.2.serialized_size()
    }

    fn serialize_uncompressed<W: Write>(&self, writer: &mut W) -> (r: Result<
        (),
        SerializationError,
    >) {
        serialize_tuple3(self, writer, WriteMode::Uncompressed)
    }

    fn serialize_unchecked<W: Write>(&self, writer: &mut W) -> (r: Result<(), SerializationError>) {
        self.serialize_uncompressed(writer)
    }

    fn uncompressed_size(&self) -> (n: usize) {
        self.0.uncompressed_size() + self.1.uncompressed_size() + self.2.uncompressed_size()
    }
}

impl<
    A: CanonicalDeserialize,
    B: CanonicalDeserialize,
    C: CanonicalDeserialize,
> CanonicalDeserialize for (A, B, C) {
    type Model = (A::Model, B::Model, C::Model);

    open spec fn model(&self) -> (A::Model, B::Model, C::Model) {
        (self.0.model(), self.1.model(), self.2.model())
    }

    /// The parts, read in order; every part is checked.
    open spec fn spec_deserialize(bytes: Seq<u8>, compress: Compress, validate: Validate) -> Result<
        ((A::Model, B::Model, C::Model), nat),
        SerializationError,
    > {
        match A::spec_deserialize(bytes, compress, Validate::Yes) {
            Err(e) => Err(e),
            Ok((m0, n0)) => {
                match B::spec_deserialize(bytes.skip((n0) as int), compress, Validate::Yes) {
                    Err(e) => Err(e),
                    Ok((m1, n1)) => {
                        match C::spec_deserialize(
                            bytes.skip((n0 + n1) as int),
                            compress,
                            Validate::Yes,
                        ) {
                            Err(e) => Err(e),
                            Ok((m2, n2)) => Ok(((m0, m1, m2), n0 + n1 + n2)),
                        }
                    },
                }
            },
        }
    }

    fn deserialize<R: Read>(reader: &mut R) -> (r: Result<Self, SerializationError>) {
        deserialize_tuple3(reader, ReadMode::Checked)
    }

    fn deserialize_uncompressed<R: Read>(reader: &mut R) -> (r: Result<Self, SerializationError>) {
        deserialize_tuple3(reader, ReadMode::Uncompressed)
    }

    fn deserialize_unchecked<R: Read>(reader: &mut R) -> (r: Result<Self, SerializationError>) {
        Self::deserialize_uncompressed(reader)
    }
}

impl<
    A: SerializationLaws,
    B: SerializationLaws,
    C: SerializationLaws,
> SerializationLaws for (A, B, C) {
    proof fn lemma_roundtrip(&self, compress: Compress, validate: Validate, rest: Seq<u8>) {
        let p0 = self.0.spec_serialize(compress);
        let p1 = self.1.spec_serialize(compress);
        let p2 = self.2.spec_serialize(compress);
        let bytes = p0 + p1 + p2 + rest;
        self.0.lemma_roundtrip(compress, Validate::Yes, p1 + p2 + rest);
        assert(bytes =~= p0 + (p1 + p2 + rest));
        self.1.lemma_roundtrip(compress, Validate::Yes, p2 + rest);
        assert(bytes.skip((p0.len()) as int) =~= p1 + (p2 + rest));
        self.2.lemma_roundtrip(compress, Validate::Yes, rest);
        assert(bytes.skip((p0.len() + p1.len()) as int) =~= p2 + (rest));
    }

    proof fn lemma_size_suffices(&self, compress: Compress) {
        self.0.lemma_size_suffices(compress);
        self.1.lemma_size_suffices(compress);
        self.2.lemma_size_suffices(compress);
    }

    proof fn lemma_uncompressed_is_compressed(&self) {
        self.0.lemma_uncompressed_is_compressed();
        self.1.lemma_uncompressed_is_compressed();
        self.2.lemma_uncompressed_is_compressed();
    }

    open spec fn spec_encode(m: (A::Model, B::Model, C::Model), compress: Compress) -> Seq<u8> {
        A::spec_encode(m.0, compress) + B::spec_encode(m.1, compress)
            + C::spec_encode(m.2, compress)
    }

    proof fn lemma_encode_model(&self, compress: Compress) {
        self.0.lemma_encode_model(compress);
        self.1.lemma_encode_model(compress);
        self.2.lemma_encode_model(compress);
    }

    proof fn lemma_canonical(bytes: Seq<u8>, compress: Compress, validate: Validate) {
        let b0 = bytes;
        A::lemma_canonical(b0, compress, Validate::Yes);
        match A::spec_deserialize(b0, compress, Validate::Yes) {
            Err(_) => {},
            Ok((m0, n0)) => {
                let b1 = bytes.skip((n0) as int);
                B::lemma_canonical(b1, compress, Validate::Yes);
                match B::spec_deserialize(b1, compress, Validate::Yes) {
                    Err(_) => {},
                    Ok((m1, n1)) => {
                        let b2 = bytes.skip((n0 + n1) as int);
                        C::lemma_canonical(b2, compress, Validate::Yes);
                        match C::spec_deserialize(b2, compress, Validate::Yes) {
                            Err(_) => {},
                            Ok((m2, n2)) => {
                                assert(bytes.take((n0 + n1 + n2) as int) =~= b0.take(n0 as int)
                                    + b1.take(n1 as int) + b2.take(n2 as int));
                            },
                        }
                    },
                }
            },
        }
    }
}

/// Writes the parts of a 4-tuple in order, with the method `mode` names.
fn serialize_tuple4<
    A: CanonicalSerialize,
    B: CanonicalSerialize,
    C: CanonicalSerialize,
    D: CanonicalSerialize,
    W: Write,
>(
    t: &(A, B, C, D),
    writer: &mut W,
    mode: WriteMode,
) -> (r: Result<(), SerializationError>)
    ensures
        writes(*old(writer), *final(writer), t.spec_serialize(mode.compress()), r),
{
    let ghost c = mode.compress();
    let ghost w0 = *writer;
    let ghost p0 = t.0.spec_serialize(c);
    let ghost p1 = t.1.spec_serialize(c);
    let ghost p2 = t.2.spec_serialize(c);
    let ghost p3 = t.3.spec_serialize(c);
    match serialize_with(&t.0, writer, mode) {
        Err(e) => {
            proof {
                lemma_writes_failed_extend(w0, *writer, p0, p1 + p2 + p3, Err(e));
                assert(p0 + (p1 + p2 + p3) =~= t.spec_serialize(c));
            }
            return Err(e);
        },
        Ok(()) => {},
    }
    let ghost mid1 = *writer;
    match serialize_with(&t.1, writer, mode) {
        Err(e) => {
            proof {
                lemma_writes_then(w0, mid1, *writer, p0, p1, Err(e));
                lemma_writes_failed_extend(w0, *writer, p0 + p1, p2 + p3, Err(e));
                assert(p0 + p1 + (p2 + p3) =~= t.spec_serialize(c));
            }
            return Err(e);
        },
        Ok(()) => {
            proof {
                lemma_writes_then(w0, mid1, *writer, p0, p1, Ok(()));
            }
        },
    }
    let ghost mid2 = *writer;
    match serialize_with(&t.2, writer, mode) {
        Err(e) => {
            proof {
                lemma_writes_then(w0, mid2, *writer, p0 + p1, p2, Err(e));
                lemma_writes_failed_extend(w0, *writer, p0 + p1 + p2, p3, Err(e));
                assert(p0 + p1 + p2 + (p3) =~= t.spec_serialize(c));
            }
            return Err(e);
        },
        Ok(()) => {
            proof {
                lemma_writes_then(w0, mid2, *writer, p0 + p1, p2, Ok(()));
            }
        },
    }
    let ghost mid3 = *writer;
    match serialize_with(&t.3, writer, mode) {
        Err(e) => {
            proof {
                lemma_writes_then(w0, mid3, *writer, p0 + p1 + p2, p3, Err(e));
            }
            return Err(e);
        },
        Ok(()) => {
            proof {
                lemma_writes_then(w0, mid3, *writer, p0 + p1 + p2, p3, Ok(()));
            }
        },
    }
    Ok(())
}

/// Reads the parts of a 4-tuple in order, with the method `mode` names.
fn deserialize_tuple4<
    A: CanonicalDeserialize,
    B: CanonicalDeserialize,
    C: CanonicalDeserialize,
    D: CanonicalDeserialize,
    R: Read,
>(
    reader: &mut R,
    mode: ReadMode,
) -> (r: Result<(A, B, C, D), SerializationError>)
    requires
        mode.validate() == Validate::Yes,
    ensures
        read_outcome(
            old(reader).spec_unread(),
            final(reader).spec_unread(),
            <(A, B, C, D)>::spec_deserialize(
                old(reader).spec_unread(),
                mode.compress(),
                mode.validate(),
            ),
            match r {
                Ok(v) => Ok(v.model()),
                Err(e) => Err(e),
            },
        ),
{
    let ghost c = mode.compress();
    let ghost u0 = reader.spec_unread();
    let x0 = match deserialize_with::<A, R>(reader, mode) {
        Ok(x) => x,
        Err(e) => return Err(e),
    };
    let ghost n0 = (A::spec_deserialize(u0, c, Validate::Yes)->Ok_0).1;
    let ghost u1 = reader.spec_unread();
    let x1 = match deserialize_with::<B, R>(reader, mode) {
        Ok(x) => x,
        Err(e) => {
            proof {
                lemma_suffix_after_skip(u0, (n0) as int, reader.spec_unread());
            }
            return Err(e);
        },
    };
    let ghost n1 = (B::spec_deserialize(u1, c, Validate::Yes)->Ok_0).1;
    assert(u0.skip((n0) as int).skip(n1 as int) =~= u0.skip((n0 + n1) as int));
    let ghost u2 = reader.spec_unread();
    let x2 = match deserialize_with::<C, R>(reader, mode) {
        Ok(x) => x,
        Err(e) => {
            proof {
                lemma_suffix_after_skip(u0, (n0 + n1) as int, reader.spec_unread());
            }
            return Err(e);
        },
    };
    let ghost n2 = (C::spec_deserialize(u2, c, Validate::Yes)->Ok_0).1;
    assert(u0.skip((n0 + n1) as int).skip(n2 as int) =~= u0.skip((n0 + n1 + n2) as int));
    let ghost u3 = reader.spec_unread();
    let x3 = match deserialize_with::<D, R>(reader, mode) {
        Ok(x) => x,
        Err(e) => {
            proof {
                lemma_suffix_after_skip(u0, (n0 + n1 + n2) as int, reader.spec_unread());
            }
            return Err(e);
        },
    };
    let ghost n3 = (D::spec_deserialize(u3, c, Validate::Yes)->Ok_0).1;
    assert(u0.skip((n0 + n1 + n2) as int).skip(n3 as int) =~= u0.skip((n0 + n1 + n2 + n3) as int));
    Ok((x0, x1, x2, x3))
}

impl<
    A: CanonicalSerialize,
    B: CanonicalSerialize,
    C: CanonicalSerialize,
    D: CanonicalSerialize,
> CanonicalSerialize for (A, B, C, D) {
    open spec fn spec_serialize(&self, compress: Compress) -> Seq<u8> {
        self.0.spec_serialize(compress) + self.1.spec_serialize(compress)
            + self.2.spec_serialize(compress) + self.3.spec_serialize(compress)
    }

    open spec fn spec_size(&self, compress: Compress) -> nat {
        self.0.spec_size(compress) + self.1.spec_size(compress) + self.2.spec_size(compress)
            + self.3.spec_size(compress)
    }

    fn serialize<W: Write>(&self, writer: &mut W) -> (r: Result<(), SerializationError>) {
        serialize_tuple4(self, writer, WriteMode::Compressed)
    }

    fn serialized_size(&self) -> (n: usize) {
        self.0.serialized_size() + self.1.serialized_size() + self.2.serialized_size()
            + self.3.serialized_size()
    }

    fn serialize_uncompressed<W: Write>(&self, writer: &mut W) -> (r: Result<
        (),
        SerializationError,
    >) {
        serialize_tuple4(self, writer, WriteMode::Uncompressed)
    }

    fn serialize_unchecked<W: Write>(&self, writer: &mut W) -> (r: Result<(), SerializationError>) {
        self.serialize_uncompressed(writer)
    }

    fn uncompressed_size(&self) -> (n: usize) {
        self.0.uncompressed_size() + self.1.uncompressed_size() + self.2.uncompressed_size()
            + self.3.uncompressed_size()
    }
}

impl<
    A: CanonicalDeserialize,
    B: CanonicalDeserialize,
    C: CanonicalDeserialize,
    D: CanonicalDeserialize,
> CanonicalDeserialize for (A, B, C, D) {
    type Model = (A::Model, B::Model, C::Model, D::Model);

    open spec fn model(&self) -> (A::Model, B::Model, C::Model, D::Model) {
        (self.0.model(), self.1.model(), self.2.model(), self.3.model())
    }

    /// The parts, read in order; every part is checked.
    open spec fn spec_deserialize(bytes: Seq<u8>, compress: Compress, validate: Validate) -> Result<
        ((A::Model, B::Model, C::Model, D::Model), nat),
        SerializationError,
    > {
        match A::spec_deserialize(bytes, compress, Validate::Yes) {
            Err(e) => Err(e),
            Ok((m0, n0)) => {
                match B::spec_deserialize(bytes.skip((n0) as int), compress, Validate::Yes) {
                    Err(e) => Err(e),
                    Ok((m1, n1)) => {
                        match C::spec_deserialize(
                            bytes.skip((n0 + n1) as int),
                            compress,
                            Validate::Yes,
                        ) {
                            Err(e) => Err(e),
                            Ok((m2, n2)) => {
                                match D::spec_deserialize(
                                    bytes.skip((n0 + n1 + n2) as int),
                                    compress,
                                    Validate::Yes,
                                ) {
                                    Err(e) => Err(e),
                                    Ok((m3, n3)) => Ok(((m0, m1, m2, m3), n0 + n1 + n2 + n3)),
                                }
                            },
                        }
                    },
                }
            },
        }
    }

    fn deserialize<R: Read>(reader: &mut R) -> (r: Result<Self, SerializationError>) {
        deserialize_tuple4(reader, ReadMode::Checked)
    }

    fn deserialize_uncompressed<R: Read>(reader: &mut R) -> (r: Result<Self, SerializationError>) {
        deserialize_tuple4(reader, ReadMode::Uncompressed)
    }

    fn deserialize_unchecked<R: Read>(reader: &mut R) -> (r: Result<Self, SerializationError>) {
        Self::deserialize_uncompressed(reader)
    }
}

impl<
    A: SerializationLaws,
    B: SerializationLaws,
    C: SerializationLaws,
    D: SerializationLaws,
> SerializationLaws for (A, B, C, D) {
    proof fn lemma_roundtrip(&self, compress: Compress, validate: Validate, rest: Seq<u8>) {
        let p0 = self.0.spec_serialize(compress);
        let p1 = self.1.spec_serialize(compress);
        let p2 = self.2.spec_serialize(compress);
        let p3 = self.3.spec_serialize(compress);
        let bytes = p0 + p1 + p2 + p3 + rest;
        self.0.lemma_roundtrip(compress, Validate::Yes, p1 + p2 + p3 + rest);
        assert(bytes =~= p0 + (p1 + p2 + p3 + rest));
        self.1.lemma_roundtrip(compress, Validate::Yes, p2 + p3 + rest);
        assert(bytes.skip((p0.len()) as int) =~= p1 + (p2 + p3 + rest));
        self.2.lemma_roundtrip(compress, Validate::Yes, p3 + rest);
        assert(bytes.skip((p0.len() + p1.len()) as int) =~= p2 + (p3 + rest));
        self.3.lemma_roundtrip(compress, Validate::Yes, rest);
        assert(bytes.skip((p0.len() + p1.len() + p2.len()) as int) =~= p3 + (rest));
    }

    proof fn lemma_size_suffices(&self, compress: Compress) {
        self.0.lemma_size_suffices(compress);
        self.1.lemma_size_suffices(compress);
        self.2.lemma_size_suffices(compress);
        self.3.lemma_size_suffices(compress);
    }

    proof fn lemma_uncompressed_is_compressed(&self) {
        self.0.lemma_uncompressed_is_compressed();
        self.1.lemma_uncompressed_is_compressed();
        self.2.lemma_uncompressed_is_compressed();
        self.3.lemma_uncompressed_is_compressed();
    }

    open spec fn spec_encode(
        m: (A::Model, B::Model, C::Model, D::Model),
        compress: Compress,
    ) -> Seq<u8> {
        A::spec_encode(m.0, compress) + B::spec_encode(m.1, compress)
            + C::spec_encode(m.2, compress) + D::spec_encode(m.3, compress)
    }

    proof fn lemma_encode_model(&self, compress: Compress) {
        self.0.lemma_encode_model(compress);
        self.1.lemma_encode_model(compress);
        self.2.lemma_encode_model(compress);
        self.3.lemma_encode_model(compress);
    }

    proof fn lemma_canonical(bytes: Seq<u8>, compress: Compress, validate: Validate) {
        let b0 = bytes;
        A::lemma_canonical(b0, compress, Validate::Yes);
        match A::spec_deserialize(b0, compress, Validate::Yes) {
            Err(_) => {},
            Ok((m0, n0)) => {
                let b1 = bytes.skip((n0) as int);
                B::lemma_canonical(b1, compress, Validate::Yes);
                match B::spec_deserialize(b1, compress, Validate::Yes) {
                    Err(_) => {},
                    Ok((m1, n1)) => {
                        let b2 = bytes.skip((n0 + n1) as int);
                        C::lemma_canonical(b2, compress, Validate::Yes);
                        match C::spec_deserialize(b2, compress, Validate::Yes) {
                            Err(_) => {},
                            Ok((m2, n2)) => {
                                let b3 = bytes.skip((n0 + n1 + n2) as int);
                                D::lemma_canonical(b3, compress, Validate::Yes);
                                match D::spec_deserialize(b3, compress, Validate::Yes) {
                                    Err(_) => {},
                                    Ok((m3, n3)) => {
                                        assert(bytes.take((n0 + n1 + n2
                                            + n3) as int) =~= b0.take(n0 as int)
                                            + b1.take(n1 as int) + b2.take(n2 as int)
                                            + b3.take(n3 as int));
                                    },
                                }
                            },
                        }
                    },
                }
            },
        }
    }
}

} // verus!
