//! Vectors, written as their length (eight bytes) followed by their items.
use crate::error::SerializationError;
use crate::io::{Read, Write, lemma_writes_failed_extend, lemma_writes_then, writes};
use crate::little_endian::{
    le_bytes, le_value, lemma_le_bytes_len, lemma_le_bytes_of_value, lemma_le_value_bound,
    lemma_pow256_values,
};
use crate::serialize::{
    CanonicalDeserialize, CanonicalSerialize, Compress, ReadMode, SerializationLaws, Validate,
    WriteMode, deserialize_with, lemma_read_le_roundtrip, lemma_suffix_after_skip, read_outcome,
    serialize_with,
    spec_read_le,
};
use vstd::prelude::*;

verus! {

/// The encodings of the items of `s`, one after the other.
pub open spec fn concat_encodings<T: CanonicalSerialize>(s: Seq<T>, compress: Compress) -> Seq<u8>
    decreases s.len(),
{
    if s.len() == 0 {
        Seq::empty()
    } else {
        concat_encodings(s.drop_last(), compress) + s.last().spec_serialize(compress)
    }
}

/// The sum of the sizes reported for the items of `s`.
pub open spec fn sum_sizes<T: CanonicalSerialize>(s: Seq<T>, compress: Compress) -> nat
    decreases s.len(),
{
    if s.len() == 0 {
        0
    } else {
        sum_sizes(s.drop_last(), compress) + s.last().spec_size(compress)
    }
}

/// The outcome of reading `count` values of `T` one after the other from the front
/// of `bytes`: their models and the bytes they take, or the first error.
pub open spec fn spec_deserialize_items<T: CanonicalDeserialize>(
    bytes: Seq<u8>,
    count: nat,
    compress: Compress,
    validate: Validate,
) -> Result<(Seq<T::Model>, nat), SerializationError>
    decreases count,
{
    if count == 0 {
        Ok((Seq::empty(), 0))
    } else {
        match spec_deserialize_items::<T>(bytes, (count - 1) as nat, compress, validate) {
            Err(e) => Err(e),
            Ok((items, n)) => match T::spec_deserialize(bytes.skip(n as int), compress, validate) {
                Err(e) => Err(e),
                Ok((m, k)) => Ok((items.push(m), n + k)),
            },
        }
    }
}

/// The models of the items of `s`.
pub open spec fn models<T: CanonicalDeserialize>(s: Seq<T>) -> Seq<T::Model> {
    s.map_values(|x: T| x.model())
}

/// The encodings of two runs of items, one after the other, are the encoding of
/// the joined run.
pub proof fn lemma_concat_encodings_append<T: CanonicalSerialize>(
    a: Seq<T>,
    b: Seq<T>,
    compress: Compress,
)
    ensures
        concat_encodings(a + b, compress) == concat_encodings(a, compress) + concat_encodings(
            b,
            compress,
        ),
        sum_sizes(a + b, compress) == sum_sizes(a, compress) + sum_sizes(b, compress),
    decreases b.len(),
{
    if b.len() == 0 {
        assert(a + b =~= a);
        assert(concat_encodings(a, compress) + Seq::<u8>::empty() =~= concat_encodings(
            a,
            compress,
        ));
    } else {
        lemma_concat_encodings_append(a, b.drop_last(), compress);
        assert((a + b).drop_last() =~= a + b.drop_last());
        assert((a + b).last() == b.last());
        assert(concat_encodings(a, compress) + concat_encodings(b.drop_last(), compress)
            + b.last().spec_serialize(compress) =~= concat_encodings(a, compress) + (
        concat_encodings(b.drop_last(), compress) + b.last().spec_serialize(compress)));
    }
}

/// Splits a run of items at `i`, around the item at `i`.
pub proof fn lemma_concat_encodings_split<T: CanonicalSerialize>(
    s: Seq<T>,
    i: int,
    compress: Compress,
)
    requires
        0 <= i < s.len(),
    ensures
        concat_encodings(s, compress) == concat_encodings(s.take(i), compress) + (
        s[i].spec_serialize(compress) + concat_encodings(s.skip(i + 1), compress)),
        sum_sizes(s, compress) == sum_sizes(s.take(i + 1), compress) + sum_sizes(
            s.skip(i + 1),
            compress,
        ),
        sum_sizes(s.take(i + 1), compress) == sum_sizes(s.take(i), compress) + s[i].spec_size(
            compress,
        ),
{
    assert(s =~= s.take(i + 1) + s.skip(i + 1));
    lemma_concat_encodings_append(s.take(i + 1), s.skip(i + 1), compress);
    assert(s.take(i + 1).drop_last() =~= s.take(i));
    assert(concat_encodings(s.take(i), compress) + s[i].spec_serialize(compress)
        + concat_encodings(s.skip(i + 1), compress) =~= concat_encodings(s.take(i), compress) + (
    s[i].spec_serialize(compress) + concat_encodings(s.skip(i + 1), compress)));
}

/// Every item of `s` is read back from its encoding, whatever follows it, as its
/// model, taking exactly its encoding.
pub open spec fn items_roundtrip<T: CanonicalSerialize + CanonicalDeserialize>(
    s: Seq<T>,
    compress: Compress,
    validate: Validate,
) -> bool {
    forall|i: int, rest: Seq<u8>|
        0 <= i < s.len() ==> #[trigger] T::spec_deserialize(
            s[i].spec_serialize(compress) + rest,
            compress,
            validate,
        ) == Ok::<(T::Model, nat), SerializationError>(
            (s[i].model(), s[i].spec_serialize(compress).len()),
        )
}

/// Reading `k` items from the encodings of a run of at least `k` items, each of
/// which reads back, whatever follows, gives the models of the first `k` items
/// and takes their encodings.
pub proof fn lemma_deserialize_items_prefix<T: CanonicalSerialize + CanonicalDeserialize>(
    s: Seq<T>,
    k: nat,
    compress: Compress,
    validate: Validate,
    rest: Seq<u8>,
)
    requires
        k <= s.len(),
        items_roundtrip(s, compress, validate),
    ensures
        spec_deserialize_items::<T>(concat_encodings(s, compress) + rest, k, compress, validate)
            == Ok::<(Seq<T::Model>, nat), SerializationError>(
            (models(s.take(k as int)), concat_encodings(s.take(k as int), compress).len()),
        ),
    decreases k,
{
    let bytes = concat_encodings(s, compress) + rest;
    if k == 0 {
        assert(models(s.take(0)) =~= Seq::<T::Model>::empty());
        assert(s.take(0) =~= Seq::<T>::empty());
    } else {
        let i = (k - 1) as int;
        lemma_deserialize_items_prefix(s, (k - 1) as nat, compress, validate, rest);
        lemma_concat_encodings_split(s, i, compress);
        let pre = concat_encodings(s.take(i), compress);
        let item = s[i].spec_serialize(compress);
        let post = concat_encodings(s.skip(i + 1), compress) + rest;
        assert(bytes =~= pre + (item + post));
        assert(bytes.skip(pre.len() as int) =~= item + post);
        assert(T::spec_deserialize(item + post, compress, validate) == Ok::<
            (T::Model, nat),
            SerializationError,
        >((s[i].model(), item.len())));
        assert(models(s.take(k as int)) =~= models(s.take(i)).push(s[i].model()));
        assert(s.take(k as int).drop_last() =~= s.take(i));
    }
}

/// A vector whose items each read back from their encodings, whatever follows
/// them, reads back from its own encoding, whatever follows it, as the models of
/// its items, taking exactly its encoding.
pub proof fn lemma_vec_roundtrip<T: CanonicalSerialize + CanonicalDeserialize>(
    v: &Vec<T>,
    compress: Compress,
    validate: Validate,
    rest: Seq<u8>,
)
    requires
        items_roundtrip(v@, compress, validate),
    ensures
        Vec::<T>::spec_deserialize(v.spec_serialize(compress) + rest, compress, validate) == Ok::<
            (Seq<T::Model>, nat),
            SerializationError,
        >((v.model(), v.spec_serialize(compress).len())),
{
    let s = v@;
    assert(v.len() == s.len());
    let head = le_bytes(s.len(), 8);
    let body = concat_encodings(s, compress);
    lemma_pow256_values();
    lemma_le_bytes_len(s.len(), 8);
    lemma_read_le_roundtrip(s.len(), 8, body + rest);
    assert(head + body + rest =~= head + (body + rest));
    assert((head + (body + rest)).skip(8) =~= body + rest);
    lemma_deserialize_items_prefix(s, s.len(), compress, validate, rest);
    assert(s.take(s.len() as int) =~= s);
}

/// Once reading a run of items fails, reading a longer run fails the same way.
pub proof fn lemma_deserialize_items_err<T: CanonicalDeserialize>(
    bytes: Seq<u8>,
    i: nat,
    j: nat,
    compress: Compress,
    validate: Validate,
)
    requires
        i <= j,
        spec_deserialize_items::<T>(bytes, i, compress, validate) is Err,
    ensures
        spec_deserialize_items::<T>(bytes, j, compress, validate) == spec_deserialize_items::<T>(
            bytes,
            i,
            compress,
            validate,
        ),
    decreases j,
{
    if i < j {
        lemma_deserialize_items_err::<T>(bytes, i, (j - 1) as nat, compress, validate);
    }
}

/// Each item's encoding fits in the size reported for it, so the run's does too.
pub proof fn lemma_concat_encodings_size<T: SerializationLaws>(s: Seq<T>, compress: Compress)
    ensures
        concat_encodings(s, compress).len() <= sum_sizes(s, compress),
    decreases s.len(),
{
    if s.len() > 0 {
        lemma_concat_encodings_size(s.drop_last(), compress);
        s.last().lemma_size_suffices(compress);
    }
}

/// Items whose two forms coincide make runs whose two forms coincide.
pub proof fn lemma_concat_encodings_uniform<T: SerializationLaws>(s: Seq<T>)
    ensures
        concat_encodings(s, Compress::No) == concat_encodings(s, Compress::Yes),
        sum_sizes(s, Compress::No) == sum_sizes(s, Compress::Yes),
    decreases s.len(),
{
    if s.len() > 0 {
        lemma_concat_encodings_uniform(s.drop_last());
        s.last().lemma_uncompressed_is_compressed();
    }
}

/// The encodings of values with the models in `ms`, one after the other.
pub open spec fn concat_model_encodings<T: SerializationLaws>(
    ms: Seq<T::Model>,
    compress: Compress,
) -> Seq<u8>
    decreases ms.len(),
{
    if ms.len() == 0 {
        Seq::empty()
    } else {
        concat_model_encodings::<T>(ms.drop_last(), compress) + T::spec_encode(ms.last(), compress)
    }
}

/// The encodings of a run of items are the encodings of their models.
pub proof fn lemma_concat_encodings_models<T: SerializationLaws>(s: Seq<T>, compress: Compress)
    ensures
        concat_encodings(s, compress) == concat_model_encodings::<T>(models(s), compress),
    decreases s.len(),
{
    if s.len() > 0 {
        lemma_concat_encodings_models(s.drop_last(), compress);
        s.last().lemma_encode_model(compress);
        assert(models(s).drop_last() =~= models(s.drop_last()));
    }
}

/// A run of `count` items that is accepted starts with the encodings of the
/// models read, and that is what it consumes.
pub proof fn lemma_deserialize_items_canonical<T: SerializationLaws>(
    bytes: Seq<u8>,
    count: nat,
    compress: Compress,
    validate: Validate,
)
    ensures
        spec_deserialize_items::<T>(bytes, count, compress, validate) matches Ok((ms, n)) ==> {
            &&& ms.len() == count
            &&& n <= bytes.len()
            &&& bytes.take(n as int) == concat_model_encodings::<T>(ms, compress)
        },
    decreases count,
{
    if count == 0 {
        assert(bytes.take(0) =~= Seq::<u8>::empty());
    } else {
        lemma_deserialize_items_canonical::<T>(bytes, (count - 1) as nat, compress, validate);
        match spec_deserialize_items::<T>(bytes, (count - 1) as nat, compress, validate) {
            Err(_) => {},
            Ok((ms, n)) => {
                let tail = bytes.skip(n as int);
                T::lemma_canonical(tail, compress, validate);
                match T::spec_deserialize(tail, compress, validate) {
                    Err(_) => {},
                    Ok((m, k)) => {
                        assert(ms.push(m).drop_last() =~= ms);
                        assert(bytes.take((n + k) as int) =~= bytes.take(n as int) + tail.take(
                            k as int,
                        ));
                    },
                }
            },
        }
    }
}

/// Writes the length and then every item, with the method `mode` names.
fn serialize_vec<T: CanonicalSerialize, W: Write>(
    v: &Vec<T>,
    writer: &mut W,
    mode: WriteMode,
) -> (r: Result<(), SerializationError>)
    ensures
        writes(*old(writer), *final(writer), v.spec_serialize(mode.compress()), r),
{
    let ghost c = mode.compress();
    let ghost w0 = *writer;
    let len = v.len() as u64;
    match len.serialize(writer) {
        Err(e) => {
            proof {
                lemma_writes_failed_extend(
                    w0,
                    *writer,
                    le_bytes(v@.len(), 8),
                    concat_encodings(v@, c),
                    Err(e),
                );
            }
            return Err(e);
        },
        Ok(()) => {},
    }
    let ghost head = le_bytes(v@.len(), 8);
    assert(v@.take(0) =~= Seq::<T>::empty());
    assert(head + concat_encodings(v@.take(0), c) =~= head);
    let mut i: usize = 0;
    while i < v.len()
        invariant
            i <= v@.len(),
            c == mode.compress(),
            w0 == *old(writer),
            writes(w0, *writer, head + concat_encodings(v@.take(i as int), c), Ok(())),
            v.spec_serialize(c) == head + concat_encodings(v@, c),
        decreases v@.len() - i,
    {
        let ghost mid = *writer;
        let ghost done = head + concat_encodings(v@.take(i as int), c);
        proof {
            lemma_concat_encodings_split(v@, i as int, c);
            assert(v@.take(i + 1).drop_last() =~= v@.take(i as int));
        }
        match serialize_with(&v[i], writer, mode) {
            Err(e) => {
                proof {
                    let item = v@[i as int].spec_serialize(c);
                    lemma_writes_then(w0, mid, *writer, done, item, Err(e));
                    lemma_writes_failed_extend(
                        w0,
                        *writer,
                        done + v@[i as int].spec_serialize(c),
                        concat_encodings(v@.skip(i + 1), c),
                        Err(e),
                    );
                    assert(done + v@[i as int].spec_serialize(c) + concat_encodings(
                        v@.skip(i + 1),
                        c,
                    ) =~= head + concat_encodings(v@, c));
                }
                return Err(e);
            },
            Ok(()) => {
                proof {
                    let item = v@[i as int].spec_serialize(c);
                    lemma_writes_then(w0, mid, *writer, done, item, Ok(()));
                    assert(done + v@[i as int].spec_serialize(c) =~= head + concat_encodings(
                        v@.take(i + 1),
                        c,
                    ));
                }
            },
        }
        i = i + 1;
    }
    assert(v@.take(v@.len() as int) =~= v@);
    Ok(())
}

/// Adds up the sizes reported for the items, and the eight bytes of the length.
fn size_of_vec<T: CanonicalSerialize>(v: &Vec<T>, compress: bool) -> (n: usize)
    requires
        8 + sum_sizes(v@, if compress {
            Compress::Yes
        } else {
            Compress::No
        }) <= usize::MAX,
    ensures
        n == 8 + sum_sizes(v@, if compress {
            Compress::Yes
        } else {
            Compress::No
        }),
{
    let ghost c = if compress {
        Compress::Yes
    } else {
        Compress::No
    };
    let mut sum: usize = 0;
    let mut i: usize = 0;
    assert(v@.take(0) =~= Seq::<T>::empty());
    while i < v.len()
        invariant
            i <= v@.len(),
            c == (if compress {
                Compress::Yes
            } else {
                Compress::No
            }),
            8 + sum_sizes(v@, c) <= usize::MAX,
            sum == sum_sizes(v@.take(i as int), c),
        decreases v@.len() - i,
    {
        proof {
            lemma_concat_encodings_split(v@, i as int, c);
        }
        let item_size = if compress {
            v[i].serialized_size()
        } else {
            v[i].uncompressed_size()
        };
        sum = sum + item_size;
        i = i + 1;
    }
    assert(v@.take(v@.len() as int) =~= v@);
    8 + sum
}

/// Reads the length and then that many items, with the method `mode` names.
fn deserialize_vec<T: CanonicalDeserialize, R: Read>(reader: &mut R, mode: ReadMode) -> (r: Result<
    Vec<T>,
    SerializationError,
>)
    ensures
        read_outcome(
            old(reader).spec_unread(),
            final(reader).spec_unread(),
            Vec::<T>::spec_deserialize(old(reader).spec_unread(), mode.compress(), mode.validate()),
            match r {
                Ok(v) => Ok(v.model()),
                Err(e) => Err(e),
            },
        ),
{
    let ghost c = mode.compress();
    let ghost val = mode.validate();
    let ghost unread0 = reader.spec_unread();
    let len = match u64::deserialize(reader) {
        Ok(len) => len,
        Err(e) => return Err(e),
    };
    proof {
        lemma_pow256_values();
        lemma_le_value_bound(unread0.take(8));
    }
    let ghost body = unread0.skip(8);
    assert(reader.spec_unread() == body);
    let mut values: Vec<T> = Vec::new();
    let ghost mut consumed: nat = 0;
    let mut i: u64 = 0;
    assert(models(values@) =~= Seq::<T::Model>::empty());
    assert(body.skip(0) =~= body);
    while i < len
        invariant
            i <= len,
            c == mode.compress(),
            unread0 == old(reader).spec_unread(),
            val == mode.validate(),
            unread0.len() >= 8,
            spec_read_le(unread0, 8) == Ok::<(nat, nat), SerializationError>((len as nat, 8)),
            body == unread0.skip(8),
            spec_deserialize_items::<T>(body, i as nat, c, val) == Ok::<
                (Seq<T::Model>, nat),
                SerializationError,
            >((models(values@), consumed)),
            consumed <= body.len(),
            reader.spec_unread() == body.skip(consumed as int),
        decreases len - i,
    {
        let ghost before = reader.spec_unread();
        match deserialize_with::<T, R>(reader, mode) {
            Err(e) => {
                proof {
                    lemma_deserialize_items_err::<T>(body, (i + 1) as nat, len as nat, c, val);
                    assert(body.skip(consumed as int) =~= unread0.skip((8 + consumed) as int));
                    lemma_suffix_after_skip(unread0, (8 + consumed) as int, reader.spec_unread());
                }
                return Err(e);
            },
            Ok(x) => {
                let ghost k = (T::spec_deserialize(before, c, val)->Ok_0).1;
                let ghost prev = values@;
                values.push(x);
                proof {
                    assert(models(values@) =~= models(prev).push(x.model()));
                    assert(body.skip(consumed as int).skip(k as int) =~= body.skip(
                        (consumed + k) as int,
                    ));
                    consumed = consumed + k;
                }
            },
        }
        i = i + 1;
    }
    assert(unread0.skip(8).skip(consumed as int) =~= unread0.skip((8 + consumed) as int));
    Ok(values)
}

impl<T: CanonicalSerialize> CanonicalSerialize for Vec<T> {
    open spec fn spec_serialize(&self, compress: Compress) -> Seq<u8> {
        le_bytes(self@.len(), 8) + concat_encodings(self@, compress)
    }

    open spec fn spec_size(&self, compress: Compress) -> nat {
        8 + sum_sizes(self@, compress)
    }

    fn serialize<W: Write>(&self, writer: &mut W) -> (r: Result<(), SerializationError>) {
        serialize_vec(self, writer, WriteMode::Compressed)
    }

    fn serialized_size(&self) -> (n: usize) {
        size_of_vec(self, true)
    }

    fn serialize_uncompressed<W: Write>(&self, writer: &mut W) -> (r: Result<
        (),
        SerializationError,
    >) {
        serialize_vec(self, writer, WriteMode::Uncompressed)
    }

    fn serialize_unchecked<W: Write>(&self, writer: &mut W) -> (r: Result<(), SerializationError>) {
        serialize_vec(self, writer, WriteMode::Unchecked)
    }

    fn uncompressed_size(&self) -> (n: usize) {
        size_of_vec(self, false)
    }
}

impl<T: CanonicalDeserialize> CanonicalDeserialize for Vec<T> {
    type Model = Seq<T::Model>;

    open spec fn model(&self) -> Seq<T::Model> {
        models(self@)
    }

    /// The length, then that many items read one after the other.
    open spec fn spec_deserialize(bytes: Seq<u8>, compress: Compress, validate: Validate) -> Result<
        (Seq<T::Model>, nat),
        SerializationError,
    > {
        match spec_read_le(bytes, 8) {
            Err(e) => Err(e),
            Ok((len, n)) => match spec_deserialize_items::<T>(
                bytes.skip(8),
                len,
                compress,
                validate,
            ) {
                Err(e) => Err(e),
                Ok((items, k)) => Ok((items, 8 + k)),
            },
        }
    }

    fn deserialize<R: Read>(reader: &mut R) -> (r: Result<Self, SerializationError>) {
        deserialize_vec(reader, ReadMode::Checked)
    }

    fn deserialize_uncompressed<R: Read>(reader: &mut R) -> (r: Result<Self, SerializationError>) {
        deserialize_vec(reader, ReadMode::Uncompressed)
    }

    fn deserialize_unchecked<R: Read>(reader: &mut R) -> (r: Result<Self, SerializationError>) {
        deserialize_vec(reader, ReadMode::Unchecked)
    }
}

impl<T: SerializationLaws> SerializationLaws for Vec<T> {
    open spec fn spec_encode(m: Seq<T::Model>, compress: Compress) -> Seq<u8> {
        le_bytes(m.len(), 8) + concat_model_encodings::<T>(m, compress)
    }

    proof fn lemma_encode_model(&self, compress: Compress) {
        lemma_concat_encodings_models(self@, compress);
    }

    proof fn lemma_canonical(bytes: Seq<u8>, compress: Compress, validate: Validate) {
        if bytes.len() >= 8 {
            let body = bytes.skip(8);
            let len = le_value(bytes.take(8));
            lemma_le_bytes_of_value(bytes.take(8));
            lemma_deserialize_items_canonical::<T>(body, len, compress, validate);
            match spec_deserialize_items::<T>(body, len, compress, validate) {
                Err(_) => {},
                Ok((ms, k)) => {
                    assert(bytes.take((8 + k) as int) =~= bytes.take(8) + body.take(k as int));
                },
            }
        }
    }

    proof fn lemma_roundtrip(&self, compress: Compress, validate: Validate, rest: Seq<u8>) {
        assert forall|i: int, r: Seq<u8>| 0 <= i < self@.len() implies #[trigger] T::spec_deserialize(
            self@[i].spec_serialize(compress) + r,
            compress,
            validate,
        ) == Ok::<(T::Model, nat), SerializationError>(
            (self@[i].model(), self@[i].spec_serialize(compress).len()),
        ) by {
            self@[i].lemma_roundtrip(compress, validate, r);
        }
        lemma_vec_roundtrip(self, compress, validate, rest);
    }

    proof fn lemma_size_suffices(&self, compress: Compress) {
        lemma_le_bytes_len(self@.len(), 8);
        lemma_concat_encodings_size(self@, compress);
    }

    proof fn lemma_uncompressed_is_compressed(&self) {
        lemma_concat_encodings_uniform(self@);
    }
}

} // verus!
