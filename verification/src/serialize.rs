//! The serialization traits, their laws, and the helpers shared by the impls.
use crate::error::{IoErrorKind, SerializationError};
use crate::io::{Read, Write, writes};
use crate::little_endian::{
    decode_le, encode_le, le_bytes, le_value, lemma_le_bytes_len, lemma_le_value_bound,
    lemma_le_value_of_bytes, pow256,
};
use vstd::prelude::*;

verus! {

/// Whether a value is written, or read, in its compressed form.
#[derive(Debug, Clone, Copy, PartialEq, Eq, Structural)]
pub enum Compress {
    Yes,
    No,
}

/// Whether a value that is read is checked for validity.
#[derive(Debug, Clone, Copy, PartialEq, Eq, Structural)]
pub enum Validate {
    Yes,
    No,
}

/// Serializer in little endian format.
///
/// `spec_serialize(Compress::Yes)` is the canonical encoding of a value and
/// `spec_serialize(Compress::No)` its uncompressed encoding; `spec_size` is the
/// size that `serialized_size` and `uncompressed_size` report.
pub trait CanonicalSerialize {
    /// The bytes that represent `self`.
    spec fn spec_serialize(&self, compress: Compress) -> Seq<u8>;

    /// The size reported for `self`.
    spec fn spec_size(&self, compress: Compress) -> nat;

    /// Serializes `self` into `writer`.
    fn serialize<W: Write>(&self, writer: &mut W) -> (r: Result<(), SerializationError>)
        ensures
            writes(*old(writer), *final(writer), self.spec_serialize(Compress::Yes), r),
    ;

    fn serialized_size(&self) -> (n: usize)
        requires
            self.spec_size(Compress::Yes) <= usize::MAX,
        ensures
            n == self.spec_size(Compress::Yes),
    ;

    /// Serializes `self` into `writer` without compression.
    fn serialize_uncompressed<W: Write>(&self, writer: &mut W) -> (r: Result<
        (),
        SerializationError,
    >)
        ensures
            writes(*old(writer), *final(writer), self.spec_serialize(Compress::No), r),
    ;

    /// Serializes `self` into `writer` without compression, and without performing
    /// validity checks. Should be used *only* when there is no danger of
    /// adversarial manipulation of the output.
    fn serialize_unchecked<W: Write>(&self, writer: &mut W) -> (r: Result<
        (),
        SerializationError,
    >)
        ensures
            writes(*old(writer), *final(writer), self.spec_serialize(Compress::No), r),
    ;

    fn uncompressed_size(&self) -> (n: usize)
        requires
            self.spec_size(Compress::No) <= usize::MAX,
        ensures
            n == self.spec_size(Compress::No),
    ;
}

/// `a` is what is left of `b` once some bytes are taken from its front.
pub open spec fn is_suffix(a: Seq<u8>, b: Seq<u8>) -> bool {
    &&& a.len() <= b.len()
    &&& a == b.skip(b.len() - a.len())
}

/// What is left after a suffix of `u0.skip(k)` is taken is a suffix of `u0`.
pub proof fn lemma_suffix_after_skip(u0: Seq<u8>, k: int, after: Seq<u8>)
    requires
        0 <= k <= u0.len(),
        is_suffix(after, u0.skip(k)),
    ensures
        is_suffix(after, u0),
{
    assert(u0.skip(k).skip(u0.skip(k).len() - after.len()) =~= u0.skip(u0.len() - after.len()));
}

/// What a read from a source that held `unread0` and now holds `unread1` gave,
/// against what the format says of those bytes: on success, the model of the value
/// read and how many bytes it took, and exactly those bytes were consumed; on
/// failure, that very error, with some bytes taken from the front of the source.
pub open spec fn read_outcome<M>(
    unread0: Seq<u8>,
    unread1: Seq<u8>,
    expected: Result<(M, nat), SerializationError>,
    got: Result<M, SerializationError>,
) -> bool {
    match expected {
        Ok((m, n)) => {
            &&& got == Ok::<M, SerializationError>(m)
            &&& n <= unread0.len()
            &&& unread1 == unread0.skip(n as int)
        },
        Err(e) => {
            &&& got == Err::<M, SerializationError>(e)
            &&& is_suffix(unread1, unread0)
        },
    }
}

/// Deserializer in little endian format.
///
/// `spec_deserialize(bytes, compress, validate)` says what reading a value from
/// `bytes` gives: its model and the number of bytes it takes, or the error.
pub trait CanonicalDeserialize: Sized {
    /// What a value is, as far as its encoding goes.
    type Model;

    /// The model of `self`.
    spec fn model(&self) -> Self::Model;

    /// The outcome of reading a value from the front of `bytes`.
    spec fn spec_deserialize(bytes: Seq<u8>, compress: Compress, validate: Validate) -> Result<
        (Self::Model, nat),
        SerializationError,
    >;

    /// Reads `Self` from `reader`.
    fn deserialize<R: Read>(reader: &mut R) -> (r: Result<Self, SerializationError>)
        ensures
            read_outcome(
                old(reader).spec_unread(),
                final(reader).spec_unread(),
                Self::spec_deserialize(old(reader).spec_unread(), Compress::Yes, Validate::Yes),
                match r {
                    Ok(v) => Ok(v.model()),
                    Err(e) => Err(e),
                },
            ),
    ;

    /// Reads `Self` from `reader` without compression.
    fn deserialize_uncompressed<R: Read>(reader: &mut R) -> (r: Result<Self, SerializationError>)
        ensures
            read_outcome(
                old(reader).spec_unread(),
                final(reader).spec_unread(),
                Self::spec_deserialize(old(reader).spec_unread(), Compress::No, Validate::Yes),
                match r {
                    Ok(v) => Ok(v.model()),
                    Err(e) => Err(e),
                },
            ),
    ;

    /// Reads `self` from `reader` without compression, and without performing
    /// validity checks. Should be used *only* when the input is trusted.
    fn deserialize_unchecked<R: Read>(reader: &mut R) -> (r: Result<Self, SerializationError>)
        ensures
            read_outcome(
                old(reader).spec_unread(),
                final(reader).spec_unread(),
                Self::spec_deserialize(old(reader).spec_unread(), Compress::No, Validate::No),
                match r {
                    Ok(v) => Ok(v.model()),
                    Err(e) => Err(e),
                },
            ),
    ;
}

/// The laws that every serializable type of this crate obeys.
pub trait SerializationLaws: CanonicalSerialize + CanonicalDeserialize {
    /// Reading back what was written gives the model of the value written and
    /// consumes exactly the bytes written, whatever bytes follow them.
    proof fn lemma_roundtrip(&self, compress: Compress, validate: Validate, rest: Seq<u8>)
        ensures
            Self::spec_deserialize(self.spec_serialize(compress) + rest, compress, validate)
                == Ok::<(Self::Model, nat), SerializationError>(
                (self.model(), self.spec_serialize(compress).len()),
            ),
    ;

    /// The size reported for a value is room enough for its encoding.
    proof fn lemma_size_suffices(&self, compress: Compress)
        ensures
            self.spec_serialize(compress).len() <= self.spec_size(compress),
    ;

    /// For the types of this crate the compressed and the uncompressed forms are
    /// the same bytes, of the same reported size.
    proof fn lemma_uncompressed_is_compressed(&self)
        ensures
            self.spec_serialize(Compress::No) == self.spec_serialize(Compress::Yes),
            self.spec_size(Compress::No) == self.spec_size(Compress::Yes),
    ;

    /// The encoding of a value with model `m`.
    spec fn spec_encode(m: Self::Model, compress: Compress) -> Seq<u8>;

    /// What a value is written as depends on its model alone.
    proof fn lemma_encode_model(&self, compress: Compress)
        ensures
            self.spec_serialize(compress) == Self::spec_encode(self.model(), compress),
    ;

    /// Every input that is accepted starts with the encoding of what it is read
    /// as, and that encoding is what it consumes: no two inputs are read as the
    /// same value.
    proof fn lemma_canonical(bytes: Seq<u8>, compress: Compress, validate: Validate)
        ensures
            Self::spec_deserialize(bytes, compress, validate) matches Ok((m, n)) ==> {
                &&& n <= bytes.len()
                &&& bytes.take(n as int) == Self::spec_encode(m, compress)
            },
    ;
}

/// Two values with the same encoding have the same model: the encoding loses
/// nothing of what a value is.
pub proof fn lemma_encoding_injective<T: SerializationLaws>(x: &T, y: &T, compress: Compress)
    requires
        x.spec_serialize(compress) == y.spec_serialize(compress),
    ensures
        x.model() == y.model(),
{
    x.lemma_roundtrip(compress, Validate::Yes, Seq::empty());
    y.lemma_roundtrip(compress, Validate::Yes, Seq::empty());
}

/// No encoding is followed by more bytes inside another encoding of the same type:
/// when the encoding of `x` followed by `extra` is the encoding of `y`, `extra` is
/// empty, so encodings can be laid one after another and read back unambiguously.
pub proof fn lemma_encoding_prefix_free<T: SerializationLaws>(
    x: &T,
    y: &T,
    extra: Seq<u8>,
    compress: Compress,
)
    requires
        x.spec_serialize(compress) + extra == y.spec_serialize(compress),
    ensures
        extra.len() == 0,
        x.model() == y.model(),
{
    x.lemma_roundtrip(compress, Validate::Yes, extra);
    y.lemma_roundtrip(compress, Validate::Yes, Seq::empty());
    assert(y.spec_serialize(compress) + Seq::<u8>::empty() =~= y.spec_serialize(compress));
}

/// Two inputs that are both accepted and read as the same value consumed the same
/// bytes: a value cannot be smuggled in under two encodings.
pub proof fn lemma_deserialize_non_malleable<T: SerializationLaws>(
    b1: Seq<u8>,
    b2: Seq<u8>,
    compress: Compress,
    validate: Validate,
)
    ensures
        T::spec_deserialize(b1, compress, validate) matches Ok((m1, n1)) ==> T::spec_deserialize(
            b2,
            compress,
            validate,
        ) matches Ok((m2, n2)) ==> m1 == m2 ==> b1.take(n1 as int) == b2.take(n2 as int),
{
    T::lemma_canonical(b1, compress, validate);
    T::lemma_canonical(b2, compress, validate);
}

/// Serializer for types whose every value has the same size.
pub trait ConstantSerializedSize: CanonicalSerialize {
    const SERIALIZED_SIZE: usize;

    const UNCOMPRESSED_SIZE: usize;

    /// The sizes reported for any value are the constants.
    proof fn lemma_constant_size(v: &Self)
        ensures
            v.spec_size(Compress::Yes) == Self::SERIALIZED_SIZE,
            v.spec_size(Compress::No) == Self::UNCOMPRESSED_SIZE,
    ;
}

/// Which of the three serialization methods a container applies to its parts.
#[derive(Clone, Copy)]
pub enum WriteMode {
    /// `serialize`
    Compressed,
    /// `serialize_uncompressed`
    Uncompressed,
    /// `serialize_unchecked`
    Unchecked,
}

impl WriteMode {
    /// The form of the bytes that the method writes.
    pub open spec fn compress(self) -> Compress {
        match self {
            WriteMode::Compressed => Compress::Yes,
            _ => Compress::No,
        }
    }
}

/// Which of the three deserialization methods a container applies to its parts.
#[derive(Clone, Copy)]
pub enum ReadMode {
    /// `deserialize`
    Checked,
    /// `deserialize_uncompressed`
    Uncompressed,
    /// `deserialize_unchecked`
    Unchecked,
}

impl ReadMode {
    /// The form of the bytes that the method reads.
    pub open spec fn compress(self) -> Compress {
        match self {
            ReadMode::Checked => Compress::Yes,
            _ => Compress::No,
        }
    }

    /// Whether the method checks what it reads.
    pub open spec fn validate(self) -> Validate {
        match self {
            ReadMode::Unchecked => Validate::No,
            _ => Validate::Yes,
        }
    }
}

/// Serializes `x` with the method that `mode` names.
pub fn serialize_with<T: CanonicalSerialize, W: Write>(
    x: &T,
    writer: &mut W,
    mode: WriteMode,
) -> (r: Result<(), SerializationError>)
    ensures
        writes(*old(writer), *final(writer), x.spec_serialize(mode.compress()), r),
{
    match mode {
        WriteMode::Compressed => x.serialize(writer),
        WriteMode::Uncompressed => x.serialize_uncompressed(writer),
        WriteMode::Unchecked => x.serialize_unchecked(writer),
    }
}

/// Deserializes a `T` with the method that `mode` names.
pub fn deserialize_with<T: CanonicalDeserialize, R: Read>(reader: &mut R, mode: ReadMode) -> (r:
    Result<T, SerializationError>)
    ensures
        read_outcome(
            old(reader).spec_unread(),
            final(reader).spec_unread(),
            T::spec_deserialize(old(reader).spec_unread(), mode.compress(), mode.validate()),
            match r {
                Ok(v) => Ok(v.model()),
                Err(e) => Err(e),
            },
        ),
{
    match mode {
        ReadMode::Checked => T::deserialize(reader),
        ReadMode::Uncompressed => T::deserialize_uncompressed(reader),
        ReadMode::Unchecked => T::deserialize_unchecked(reader),
    }
}

/// The outcome of reading an `n`-byte little-endian number from `bytes`.
pub open spec fn spec_read_le(bytes: Seq<u8>, n: nat) -> Result<(nat, nat), SerializationError> {
    if bytes.len() < n {
        Err(SerializationError::IoError(IoErrorKind::UnexpectedEof))
    } else {
        Ok((le_value(bytes.take(n as int)), n))
    }
}

/// Writes the `n` low bytes of `v`, least significant first.
pub fn write_le<W: Write>(v: u64, n: usize, writer: &mut W) -> (r: Result<(), SerializationError>)
    ensures
        writes(*old(writer), *final(writer), le_bytes(v as nat, n as nat), r),
{
    let bytes = encode_le(v, n);
    writer.write_all(bytes.as_slice())
}

/// Reads an `n`-byte little-endian number.
pub fn read_le<R: Read>(n: usize, reader: &mut R) -> (r: Result<u64, SerializationError>)
    requires
        n <= 8,
    ensures
        read_outcome(
            old(reader).spec_unread(),
            final(reader).spec_unread(),
            spec_read_le(old(reader).spec_unread(), n as nat),
            match r {
                Ok(v) => Ok(v as nat),
                Err(e) => Err(e),
            },
        ),
        r matches Ok(v) ==> v < pow256(n as nat),
{
    match reader.read_exact(n) {
        Ok(bytes) => {
            let v = decode_le(&bytes);
            proof {
                lemma_le_value_bound(bytes@);
            }
            Ok(v)
        },
        Err(e) => {
            assert(old(reader).spec_unread().skip(old(reader).spec_unread().len() as int)
                =~= Seq::<u8>::empty());
            Err(e)
        },
    }
}

/// Reading an `n`-byte number back from its encoding gives the number, whatever
/// follows it.
pub proof fn lemma_read_le_roundtrip(v: nat, n: nat, rest: Seq<u8>)
    requires
        v < pow256(n),
    ensures
        spec_read_le(le_bytes(v, n) + rest, n) == Ok::<(nat, nat), SerializationError>((v, n)),
{
    lemma_le_bytes_len(v, n);
    assert((le_bytes(v, n) + rest).take(n as int) =~= le_bytes(v, n));
    lemma_le_value_of_bytes(v, n);
}

/// Returns the number of bytes needed to encode `modulus_bits` bits: the bits
/// rounded up to whole bytes.
pub fn buffer_byte_size(modulus_bits: usize) -> (n: usize)
    requires
        modulus_bits + 7 <= usize::MAX,
    ensures
        n == (modulus_bits + 7) / 8,
        n * 8 >= modulus_bits,
        n * 8 < modulus_bits + 8,
{
    (modulus_bits + 7) / 8
}

/// Returns the bits and the bytes of the buffer needed to encode `modulus_bits`
/// bits.
pub fn buffer_bit_byte_size(modulus_bits: usize) -> (r: (usize, usize))
    requires
        modulus_bits + 7 <= usize::MAX,
    ensures
        r.1 == (modulus_bits + 7) / 8,
        r.0 == r.1 * 8,
        r.0 >= modulus_bits,
        r.0 < modulus_bits + 8,
{
    let byte_size = buffer_byte_size(modulus_bits);
    ((byte_size * 8), byte_size)
}

} // verus!
