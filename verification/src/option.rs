//! Options, written as a presence flag followed by the value, if any.
use crate::error::SerializationError;
use crate::io::{Read, Write, lemma_writes_failed_extend, lemma_writes_then, writes};
use crate::little_endian::{le_bytes, lemma_le_bytes_len};
use crate::serialize::{
    CanonicalDeserialize, CanonicalSerialize, Compress, ReadMode, SerializationLaws, Validate,
    WriteMode, deserialize_with, lemma_suffix_after_skip, read_outcome, serialize_with,
};
use crate::boolean::bool_byte;
use vstd::prelude::*;

verus! {

/// The encoding of the value inside `opt`, or nothing.
pub open spec fn inner_encoding<T: CanonicalSerialize>(opt: Option<T>, compress: Compress) -> Seq<
    u8,
> {
    match opt {
        Some(x) => x.spec_serialize(compress),
        None => Seq::empty(),
    }
}

/// Writes the presence flag and then the value, if any, with the method `mode`
/// names.
fn serialize_option<T: CanonicalSerialize, W: Write>(
    opt: &Option<T>,
    writer: &mut W,
    mode: WriteMode,
) -> (r: Result<(), SerializationError>)
    ensures
        writes(*old(writer), *final(writer), opt.spec_serialize(mode.compress()), r),
{
    let ghost c = mode.compress();
    let ghost w0 = *writer;
    let tag = opt.is_some();
    let ghost head = tag.spec_serialize(c);
    let ghost tail = inner_encoding(*opt, c);
    match serialize_with(&tag, writer, mode) {
        Err(e) => {
            proof {
                lemma_writes_failed_extend(w0, *writer, head, tail, Err(e));
            }
            return Err(e);
        },
        Ok(()) => {},
    }
    let ghost mid = *writer;
    match opt {
        Some(x) => {
            let r = serialize_with(x, writer, mode);
            proof {
                lemma_writes_then(w0, mid, *writer, head, tail, r);
            }
            r
        },
        None => {
            assert(head + tail =~= head);
            Ok(())
        },
    }
}

/// Reads the presence flag and then the value, if any, with the method `mode`
/// names.
fn deserialize_option<T: CanonicalDeserialize, R: Read>(reader: &mut R, mode: ReadMode) -> (r:
    Result<Option<T>, SerializationError>)
    requires
        mode.validate() == Validate::Yes,
    ensures
        read_outcome(
            old(reader).spec_unread(),
            final(reader).spec_unread(),
            Option::<T>::spec_deserialize(
                old(reader).spec_unread(),
                mode.compress(),
                mode.validate(),
            ),
            match r {
                Ok(v) => Ok(v.model()),
                Err(e) => Err(e),
            },
        ),
{
    let ghost unread0 = reader.spec_unread();
    let is_some = match bool::deserialize(reader) {
        Ok(b) => b,
        Err(e) => return Err(e),
    };
    if is_some {
        let ghost mid = reader.spec_unread();
        match deserialize_with::<T, R>(reader, mode) {
            Ok(x) => {
                proof {
                    let n = (bool::spec_deserialize(unread0, Compress::Yes, Validate::Yes)->Ok_0).1;
                    let k = (T::spec_deserialize(mid, mode.compress(), mode.validate())->Ok_0).1;
                    assert(unread0.skip(n as int).skip(k as int) =~= unread0.skip((n + k) as int));
                }
                Ok(Some(x))
            },
            Err(e) => {
                proof {
                    let n = (bool::spec_deserialize(unread0, Compress::Yes, Validate::Yes)->Ok_0).1;
                    lemma_suffix_after_skip(unread0, n as int, reader.spec_unread());
                }
                Err(e)
            },
        }
    } else {
        Ok(None)
    }
}

/// An option whose value, if any, reads back (checked) from its encoding whatever
/// follows it, reads back from its own encoding, whatever follows it, as its
/// model, taking exactly its encoding.
pub proof fn lemma_option_roundtrip<T: CanonicalSerialize + CanonicalDeserialize>(
    x: &Option<T>,
    compress: Compress,
    validate: Validate,
    rest: Seq<u8>,
)
    requires
        x matches Some(y) ==> forall|r: Seq<u8>|
            #[trigger] T::spec_deserialize(y.spec_serialize(compress) + r, compress, Validate::Yes)
                == Ok::<(T::Model, nat), SerializationError>(
                (y.model(), y.spec_serialize(compress).len()),
            ),
    ensures
        Option::<T>::spec_deserialize(x.spec_serialize(compress) + rest, compress, validate)
            == Ok::<(Option<T::Model>, nat), SerializationError>(
            (x.model(), x.spec_serialize(compress).len()),
        ),
{
    let flag = x is Some;
    let head = le_bytes(bool_byte(flag), 1);
    let tail = inner_encoding(*x, compress);
    assert(head + tail + rest =~= head + (tail + rest));
    flag.lemma_roundtrip(Compress::Yes, Validate::Yes, tail + rest);
    lemma_le_bytes_len(bool_byte(flag), 1);
    assert((head + (tail + rest)).skip(1) =~= tail + rest);
    match x {
        Some(y) => {
            assert(T::spec_deserialize(tail + rest, compress, Validate::Yes) == Ok::<
                (T::Model, nat),
                SerializationError,
            >((y.model(), y.spec_serialize(compress).len())));
        },
        None => {
            assert(tail + rest =~= rest);
        },
    }
}

impl<T: CanonicalSerialize> CanonicalSerialize for Option<T> {
    open spec fn spec_serialize(&self, compress: Compress) -> Seq<u8> {
        le_bytes(bool_byte(self is Some), 1) + inner_encoding(*self, compress)
    }

    /// Eight bytes are counted for the flag, and the compressed size of the value.
    open spec fn spec_size(&self, compress: Compress) -> nat {
        8 + match self {
            Some(x) => x.spec_size(Compress::Yes),
            None => 0,
        }
    }

    fn serialize<W: Write>(&self, writer: &mut W) -> (r: Result<(), SerializationError>) {
        serialize_option(self, writer, WriteMode::Compressed)
    }

    fn serialized_size(&self) -> (n: usize) {
        8 + match self {
            Some(item) => item.serialized_size(),
            None => 0,
        }
    }

    fn serialize_uncompressed<W: Write>(&self, writer: &mut W) -> (r: Result<
        (),
        SerializationError,
    >) {
        serialize_option(self, writer, WriteMode::Uncompressed)
    }

    fn serialize_unchecked<W: Write>(&self, writer: &mut W) -> (r: Result<(), SerializationError>) {
        self.serialize_uncompressed(writer)
    }

    fn uncompressed_size(&self) -> (n: usize) {
        self.serialized_size()
    }
}

impl<T: CanonicalDeserialize> CanonicalDeserialize for Option<T> {
    type Model = Option<T::Model>;

    open spec fn model(&self) -> Option<T::Model> {
        match self {
            Some(x) => Some(x.model()),
            None => None,
        }
    }

    /// A flag, read as a `bool`, then the value if the flag is set; the value is
    /// always checked.
    open spec fn spec_deserialize(bytes: Seq<u8>, compress: Compress, validate: Validate) -> Result<
        (Option<T::Model>, nat),
        SerializationError,
    > {
        match bool::spec_deserialize(bytes, Compress::Yes, Validate::Yes) {
            Err(e) => Err(e),
            Ok((false, n)) => Ok((None, n)),
            Ok((true, n)) => match T::spec_deserialize(
                bytes.skip(n as int),
                compress,
                Validate::Yes,
            ) {
                Err(e) => Err(e),
                Ok((m, k)) => Ok((Some(m), n + k)),
            },
        }
    }

    fn deserialize<R: Read>(reader: &mut R) -> (r: Result<Self, SerializationError>) {
        deserialize_option(reader, ReadMode::Checked)
    }

    fn deserialize_uncompressed<R: Read>(reader: &mut R) -> (r: Result<Self, SerializationError>) {
        deserialize_option(reader, ReadMode::Uncompressed)
    }

    fn deserialize_unchecked<R: Read>(reader: &mut R) -> (r: Result<Self, SerializationError>) {
        Self::deserialize_uncompressed(reader)
    }
}

impl<T: SerializationLaws> SerializationLaws for Option<T> {
    open spec fn spec_encode(m: Option<T::Model>, compress: Compress) -> Seq<u8> {
        le_bytes(bool_byte(m is Some), 1) + match m {
            Some(x) => T::spec_encode(x, compress),
            None => Seq::empty(),
        }
    }

    proof fn lemma_encode_model(&self, compress: Compress) {
        match self {
            Some(x) => x.lemma_encode_model(compress),
            None => {},
        }
    }

    proof fn lemma_canonical(bytes: Seq<u8>, compress: Compress, validate: Validate) {
        bool::lemma_canonical(bytes, Compress::Yes, Validate::Yes);
        match bool::spec_deserialize(bytes, Compress::Yes, Validate::Yes) {
            Ok((flag, n)) => {
                if flag {
                    let tail = bytes.skip(n as int);
                    T::lemma_canonical(tail, compress, Validate::Yes);
                    match T::spec_deserialize(tail, compress, Validate::Yes) {
                        Ok((m, k)) => {
                            assert(bytes.take((n + k) as int) =~= bytes.take(n as int) + tail.take(
                                k as int,
                            ));
                        },
                        Err(_) => {},
                    }
                } else {
                    assert(bytes.take(n as int) + Seq::<u8>::empty() =~= bytes.take(n as int));
                }
            },
            Err(_) => {},
        }
    }

    proof fn lemma_roundtrip(&self, compress: Compress, validate: Validate, rest: Seq<u8>) {
        match self {
            Some(x) => {
                assert forall|r: Seq<u8>| #[trigger] T::spec_deserialize(
                    x.spec_serialize(compress) + r,
                    compress,
                    Validate::Yes,
                ) == Ok::<(T::Model, nat), SerializationError>(
                    (x.model(), x.spec_serialize(compress).len()),
                ) by {
                    x.lemma_roundtrip(compress, Validate::Yes, r);
                }
            },
            None => {},
        }
        lemma_option_roundtrip(self, compress, validate, rest);
    }

    proof fn lemma_size_suffices(&self, compress: Compress) {
        lemma_le_bytes_len(bool_byte(self is Some), 1);
        match self {
            Some(x) => {
                x.lemma_uncompressed_is_compressed();
                x.lemma_size_suffices(Compress::Yes);
            },
            None => {},
        }
    }

    proof fn lemma_uncompressed_is_compressed(&self) {
        match self {
            Some(x) => {
                x.lemma_uncompressed_is_compressed();
            },
            None => {},
        }
    }
}

} // verus!
