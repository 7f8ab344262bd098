//! The byte format of each type, stated from first principles: which bytes a
//! value is written as, in what order, what reading gives back, and what size is
//! reported.
use crate::error::{IoErrorKind, SerializationError};
use crate::little_endian::{
    le_bytes, le_value, lemma_le_bytes_index, lemma_le_bytes_len, lemma_le_value_bound,
    lemma_le_value_index, lemma_pow256_values, pow256,
};
use crate::flags::{Flags, with_flag_bits, without_flag_bits};
use crate::vec::{concat_encodings, lemma_deserialize_items_canonical};
use core::marker::PhantomData;
use std::borrow::Cow;
use crate::serialize::{
    CanonicalDeserialize, CanonicalSerialize, Compress, SerializationLaws, Validate,
};
use vstd::prelude::*;

verus! {

/// A `u8` is written as its 1 little-endian byte(s), whatever its value: byte
/// `i` is `(v / 256^i) % 256`. 1 byte(s) are reported as its size.
pub proof fn lemma_u8_format(v: u8, compress: Compress)
    ensures
        v.spec_serialize(compress).len() == 1,
        forall|i: int|
            0 <= i < 1 ==> #[trigger] v.spec_serialize(compress)[i] as nat == (v as nat / pow256(
                i as nat,
            )) % 256,
        <u8 as SerializationLaws>::spec_encode(v, compress) == v.spec_serialize(compress),
        v.spec_size(compress) == 1,
{
    assert forall|i: int| 0 <= i < 1 implies #[trigger] v.spec_serialize(compress)[i] as nat == (
    v as nat / pow256(i as nat)) % 256 by {
        lemma_le_bytes_index(v as nat, 1, i);
    }
    lemma_le_bytes_index(v as nat, 1, 0);
}

/// Reading a `u8` takes 1 byte(s) and gives the number whose little-endian
/// bytes they are; with fewer bytes it fails with `UnexpectedEof`.
pub proof fn lemma_u8_read(bytes: Seq<u8>, compress: Compress, validate: Validate)
    ensures
        bytes.len() < 1 ==> u8::spec_deserialize(bytes, compress, validate) == Err::<
            (u8, nat),
            SerializationError,
        >(SerializationError::IoError(IoErrorKind::UnexpectedEof)),
        bytes.len() >= 1 ==> (u8::spec_deserialize(bytes, compress, validate) matches Ok((x, n))
            && n == 1 && forall|i: int|
            0 <= i < 1 ==> #[trigger] bytes[i] as nat == (x as nat / pow256(i as nat)) % 256),
{
    if bytes.len() >= 1 {
        let head = bytes.take(1);
        lemma_le_value_bound(head);
        lemma_pow256_values();
        assert forall|i: int| 0 <= i < 1 implies #[trigger] bytes[i] as nat == (le_value(head)
            / pow256(i as nat)) % 256 by {
            lemma_le_value_index(head, i);
        }
    }
}

/// A `u16` is written as its 2 little-endian byte(s), whatever its value: byte
/// `i` is `(v / 256^i) % 256`. 2 byte(s) are reported as its size.
pub proof fn lemma_u16_format(v: u16, compress: Compress)
    ensures
        v.spec_serialize(compress).len() == 2,
        forall|i: int|
            0 <= i < 2 ==> #[trigger] v.spec_serialize(compress)[i] as nat == (v as nat / pow256(
                i as nat,
            )) % 256,
        <u16 as SerializationLaws>::spec_encode(v, compress) == v.spec_serialize(compress),
        v.spec_size(compress) == 2,
{
    assert forall|i: int| 0 <= i < 2 implies #[trigger] v.spec_serialize(compress)[i] as nat == (
    v as nat / pow256(i as nat)) % 256 by {
        lemma_le_bytes_index(v as nat, 2, i);
    }
    lemma_le_bytes_index(v as nat, 2, 0);
}

/// Reading a `u16` takes 2 byte(s) and gives the number whose little-endian
/// bytes they are; with fewer bytes it fails with `UnexpectedEof`.
pub proof fn lemma_u16_read(bytes: Seq<u8>, compress: Compress, validate: Validate)
    ensures
        bytes.len() < 2 ==> u16::spec_deserialize(bytes, compress, validate) == Err::<
            (u16, nat),
            SerializationError,
        >(SerializationError::IoError(IoErrorKind::UnexpectedEof)),
        bytes.len() >= 2 ==> (u16::spec_deserialize(bytes, compress, validate) matches Ok((x, n))
            && n == 2 && forall|i: int|
            0 <= i < 2 ==> #[trigger] bytes[i] as nat == (x as nat / pow256(i as nat)) % 256),
{
    if bytes.len() >= 2 {
        let head = bytes.take(2);
        lemma_le_value_bound(head);
        lemma_pow256_values();
        assert forall|i: int| 0 <= i < 2 implies #[trigger] bytes[i] as nat == (le_value(head)
            / pow256(i as nat)) % 256 by {
            lemma_le_value_index(head, i);
        }
    }
}

/// A `u32` is written as its 4 little-endian byte(s), whatever its value: byte
/// `i` is `(v / 256^i) % 256`. 4 byte(s) are reported as its size.
pub proof fn lemma_u32_format(v: u32, compress: Compress)
    ensures
        v.spec_serialize(compress).len() == 4,
        forall|i: int|
            0 <= i < 4 ==> #[trigger] v.spec_serialize(compress)[i] as nat == (v as nat / pow256(
                i as nat,
            )) % 256,
        <u32 as SerializationLaws>::spec_encode(v, compress) == v.spec_serialize(compress),
        v.spec_size(compress) == 4,
{
    assert forall|i: int| 0 <= i < 4 implies #[trigger] v.spec_serialize(compress)[i] as nat == (
    v as nat / pow256(i as nat)) % 256 by {
        lemma_le_bytes_index(v as nat, 4, i);
    }
    lemma_le_bytes_index(v as nat, 4, 0);
}

/// Reading a `u32` takes 4 byte(s) and gives the number whose little-endian
/// bytes they are; with fewer bytes it fails with `UnexpectedEof`.
pub proof fn lemma_u32_read(bytes: Seq<u8>, compress: Compress, validate: Validate)
    ensures
        bytes.len() < 4 ==> u32::spec_deserialize(bytes, compress, validate) == Err::<
            (u32, nat),
            SerializationError,
        >(SerializationError::IoError(IoErrorKind::UnexpectedEof)),
        bytes.len() >= 4 ==> (u32::spec_deserialize(bytes, compress, validate) matches Ok((x, n))
            && n == 4 && forall|i: int|
            0 <= i < 4 ==> #[trigger] bytes[i] as nat == (x as nat / pow256(i as nat)) % 256),
{
    if bytes.len() >= 4 {
        let head = bytes.take(4);
        lemma_le_value_bound(head);
        lemma_pow256_values();
        assert forall|i: int| 0 <= i < 4 implies #[trigger] bytes[i] as nat == (le_value(head)
            / pow256(i as nat)) % 256 by {
            lemma_le_value_index(head, i);
        }
    }
}

/// A `u64` is written as its 8 little-endian byte(s), whatever its value: byte
/// `i` is `(v / 256^i) % 256`. 8 byte(s) are reported as its size.
pub proof fn lemma_u64_format(v: u64, compress: Compress)
    ensures
        v.spec_serialize(compress).len() == 8,
        forall|i: int|
            0 <= i < 8 ==> #[trigger] v.spec_serialize(compress)[i] as nat == (v as nat / pow256(
                i as nat,
            )) % 256,
        <u64 as SerializationLaws>::spec_encode(v, compress) == v.spec_serialize(compress),
        v.spec_size(compress) == 8,
{
    assert forall|i: int| 0 <= i < 8 implies #[trigger] v.spec_serialize(compress)[i] as nat == (
    v as nat / pow256(i as nat)) % 256 by {
        lemma_le_bytes_index(v as nat, 8, i);
    }
    lemma_le_bytes_index(v as nat, 8, 0);
}

/// Reading a `u64` takes 8 byte(s) and gives the number whose little-endian
/// bytes they are; with fewer bytes it fails with `UnexpectedEof`.
pub proof fn lemma_u64_read(bytes: Seq<u8>, compress: Compress, validate: Validate)
    ensures
        bytes.len() < 8 ==> u64::spec_deserialize(bytes, compress, validate) == Err::<
            (u64, nat),
            SerializationError,
        >(SerializationError::IoError(IoErrorKind::UnexpectedEof)),
        bytes.len() >= 8 ==> (u64::spec_deserialize(bytes, compress, validate) matches Ok((x, n))
            && n == 8 && forall|i: int|
            0 <= i < 8 ==> #[trigger] bytes[i] as nat == (x as nat / pow256(i as nat)) % 256),
{
    if bytes.len() >= 8 {
        let head = bytes.take(8);
        lemma_le_value_bound(head);
        lemma_pow256_values();
        assert forall|i: int| 0 <= i < 8 implies #[trigger] bytes[i] as nat == (le_value(head)
            / pow256(i as nat)) % 256 by {
            lemma_le_value_index(head, i);
        }
    }
}

/// A `usize` is written as its 8 little-endian byte(s), whatever its value: byte
/// `i` is `(v / 256^i) % 256`. 8 byte(s) are reported as its size.
pub proof fn lemma_usize_format(v: usize, compress: Compress)
    ensures
        v.spec_serialize(compress).len() == 8,
        forall|i: int|
            0 <= i < 8 ==> #[trigger] v.spec_serialize(compress)[i] as nat == (v as nat / pow256(
                i as nat,
            )) % 256,
        <usize as SerializationLaws>::spec_encode(v, compress) == v.spec_serialize(compress),
        v.spec_size(compress) == 8,
{
    assert forall|i: int| 0 <= i < 8 implies #[trigger] v.spec_serialize(compress)[i] as nat == (
    v as nat / pow256(i as nat)) % 256 by {
        lemma_le_bytes_index(v as nat, 8, i);
    }
    lemma_le_bytes_index(v as nat, 8, 0);
}

/// Reading a `usize` takes 8 bytes and gives the number whose little-endian bytes
/// they are, or `InvalidData` when that number does not fit in a `usize`; with
/// fewer bytes it fails with `UnexpectedEof`.
pub proof fn lemma_usize_read(bytes: Seq<u8>, compress: Compress, validate: Validate)
    ensures
        bytes.len() < 8 ==> usize::spec_deserialize(bytes, compress, validate) == Err::<
            (usize, nat),
            SerializationError,
        >(SerializationError::IoError(IoErrorKind::UnexpectedEof)),
        bytes.len() >= 8 && le_value(bytes.take(8)) > usize::MAX ==> usize::spec_deserialize(
            bytes,
            compress,
            validate,
        ) == Err::<(usize, nat), SerializationError>(SerializationError::InvalidData),
        bytes.len() >= 8 && le_value(bytes.take(8)) <= usize::MAX ==> (usize::spec_deserialize(
            bytes,
            compress,
            validate,
        ) matches Ok((x, n)) && n == 8 && forall|i: int|
            0 <= i < 8 ==> #[trigger] bytes[i] as nat == (x as nat / pow256(i as nat)) % 256),
{
    if bytes.len() >= 8 {
        let head = bytes.take(8);
        assert forall|i: int| 0 <= i < 8 implies #[trigger] bytes[i] as nat == (le_value(head)
            / pow256(i as nat)) % 256 by {
            lemma_le_value_index(head, i);
        }
    }
}

/// A `bool` is written as the byte 1 for `true` and 0 for `false`; one byte is
/// reported as its size.
pub proof fn lemma_bool_format(b: bool, compress: Compress)
    ensures
        b.spec_serialize(compress) == seq![if b { 1u8 } else { 0u8 }],
        <bool as SerializationLaws>::spec_encode(b, compress) == b.spec_serialize(compress),
        b.spec_size(compress) == 1,
{
    lemma_le_bytes_index(if b { 1 } else { 0 }, 1, 0);
    assert(b.spec_serialize(compress) =~= seq![if b { 1u8 } else { 0u8 }]);
}

/// Reading a `bool` takes one byte: 0 is `false`, 1 is `true`, any other byte is
/// refused; with no byte it fails with `UnexpectedEof`.
pub proof fn lemma_bool_read(bytes: Seq<u8>, compress: Compress, validate: Validate)
    ensures
        bytes.len() == 0 ==> bool::spec_deserialize(bytes, compress, validate) == Err::<
            (bool, nat),
            SerializationError,
        >(SerializationError::IoError(IoErrorKind::UnexpectedEof)),
        bytes.len() > 0 && bytes[0] == 0 ==> bool::spec_deserialize(bytes, compress, validate)
            == Ok::<(bool, nat), SerializationError>((false, 1)),
        bytes.len() > 0 && bytes[0] == 1 ==> bool::spec_deserialize(bytes, compress, validate)
            == Ok::<(bool, nat), SerializationError>((true, 1)),
        bytes.len() > 0 && bytes[0] > 1 ==> bool::spec_deserialize(bytes, compress, validate)
            == Err::<(bool, nat), SerializationError>(
            SerializationError::IoError(IoErrorKind::InvalidData),
        ),
{
    if bytes.len() > 0 {
        lemma_le_value_index(bytes.take(1), 0);
        lemma_le_value_bound(bytes.take(1));
        lemma_pow256_values();
    }
}

/// A tuple of 2 parts is written as its parts in index order (first, second);
/// the size reported is the sum of the sizes reported for the parts.
pub proof fn lemma_pair_format<
    A: CanonicalSerialize,
    B: CanonicalSerialize,
>(t: (A, B), compress: Compress)
    ensures
        t.spec_serialize(compress) == (
            t.0.spec_serialize(compress) + t.1.spec_serialize(compress)
        ),
        t.spec_size(compress) == (
            t.0.spec_size(compress) + t.1.spec_size(compress)
        ),
{
}

/// Written from their models, the parts of a tuple of 2 parts also follow one
/// another in index order.
pub proof fn lemma_pair_encode<
    A: SerializationLaws,
    B: SerializationLaws,
>(m: (A::Model, B::Model), compress: Compress)
    ensures
        <(A, B) as SerializationLaws>::spec_encode(m, compress) == (
            A::spec_encode(m.0, compress) + B::spec_encode(m.1, compress)
        ),
{
}

/// Reading a tuple of 2 parts from the encodings of values laid one after another
/// gives their models in that order and takes exactly those encodings.
pub proof fn lemma_pair_read<
    A: SerializationLaws,
    B: SerializationLaws,
>(
    a: A,
    b: B,
    compress: Compress,
    validate: Validate,
    rest: Seq<u8>,
)
    ensures
        <(A, B)>::spec_deserialize(
            a.spec_serialize(compress) + b.spec_serialize(compress) + rest,
            compress,
            validate,
        ) == Ok::<((A::Model, B::Model), nat), SerializationError>(
            (
                (a.model(), b.model()),
                a.spec_serialize(compress).len() + b.spec_serialize(compress).len(),
            ),
        ),
{
    let t = (a, b);
    t.lemma_roundtrip(compress, validate, rest);
    lemma_pair_format(t, compress);
}

/// A tuple of 3 parts is written as its parts in index order (first, second, third);
/// the size reported is the sum of the sizes reported for the parts.
pub proof fn lemma_triple_format<
    A: CanonicalSerialize,
    B: CanonicalSerialize,
    C: CanonicalSerialize,
>(t: (A, B, C), compress: Compress)
    ensures
        t.spec_serialize(compress) == (
            t.0.spec_serialize(compress) + t.1.spec_serialize(compress)
                + t.2.spec_serialize(compress)
        ),
        t.spec_size(compress) == (
            t.0.spec_size(compress) + t.1.spec_size(compress) + t.2.spec_size(compress)
        ),
{
}

/// Written from their models, the parts of a tuple of 3 parts also follow one
/// another in index order.
pub proof fn lemma_triple_encode<
    A: SerializationLaws,
    B: SerializationLaws,
    C: SerializationLaws,
>(m: (A::Model, B::Model, C::Model), compress: Compress)
    ensures
        <(A, B, C) as SerializationLaws>::spec_encode(m, compress) == (
            A::spec_encode(m.0, compress) + B::spec_encode(m.1, compress)
                + C::spec_encode(m.2, compress)
        ),
{
}

/// Reading a tuple of 3 parts from the encodings of values laid one after another
/// gives their models in that order and takes exactly those encodings.
pub proof fn lemma_triple_read<
    A: SerializationLaws,
    B: SerializationLaws,
    C: SerializationLaws,
>(
    a: A,
    b: B,
    c3: C,
    compress: Compress,
    validate: Validate,
    rest: Seq<u8>,
)
    ensures
        <(A, B, C)>::spec_deserialize(
            a.spec_serialize(compress) + b.spec_serialize(compress) + c3.spec_serialize(compress)
                + rest,
            compress,
            validate,
        ) == Ok::<((A::Model, B::Model, C::Model), nat), SerializationError>(
            (
                (a.model(), b.model(), c3.model()),
                a.spec_serialize(compress).len() + b.spec_serialize(compress).len()
                    + c3.spec_serialize(compress).len(),
            ),
        ),
{
    let t = (a, b, c3);
    t.lemma_roundtrip(compress, validate, rest);
    lemma_triple_format(t, compress);
}

/// A tuple of 4 parts is written as its parts in index order (first, second, third, fourth);
/// the size reported is the sum of the sizes reported for the parts.
pub proof fn lemma_quadruple_format<
    A: CanonicalSerialize,
    B: CanonicalSerialize,
    C: CanonicalSerialize,
    D: CanonicalSerialize,
>(t: (A, B, C, D), compress: Compress)
    ensures
        t.spec_serialize(compress) == (
            t.0.spec_serialize(compress) + t.1.spec_serialize(compress)
                + t.2.spec_serialize(compress) + t.3.spec_serialize(compress)
        ),
        t.spec_size(compress) == (
            t.0.spec_size(compress) + t.1.spec_size(compress) + t.2.spec_size(compress)
                + t.3.spec_size(compress)
        ),
{
}

/// Written from their models, the parts of a tuple of 4 parts also follow one
/// another in index order.
pub proof fn lemma_quadruple_encode<
    A: SerializationLaws,
    B: SerializationLaws,
    C: SerializationLaws,
    D: SerializationLaws,
>(m: (A::Model, B::Model, C::Model, D::Model), compress: Compress)
    ensures
        <(A, B, C, D) as SerializationLaws>::spec_encode(m, compress) == (
            A::spec_encode(m.0, compress) + B::spec_encode(m.1, compress)
                + C::spec_encode(m.2, compress) + D::spec_encode(m.3, compress)
        ),
{
}

/// Reading a tuple of 4 parts from the encodings of values laid one after another
/// gives their models in that order and takes exactly those encodings.
pub proof fn lemma_quadruple_read<
    A: SerializationLaws,
    B: SerializationLaws,
    C: SerializationLaws,
    D: SerializationLaws,
>(
    a: A,
    b: B,
    c3: C,
    d: D,
    compress: Compress,
    validate: Validate,
    rest: Seq<u8>,
)
    ensures
        <(A, B, C, D)>::spec_deserialize(
            a.spec_serialize(compress) + b.spec_serialize(compress) + c3.spec_serialize(compress)
                + d.spec_serialize(compress) + rest,
            compress,
            validate,
        ) == Ok::<((A::Model, B::Model, C::Model, D::Model), nat), SerializationError>(
            (
                (a.model(), b.model(), c3.model(), d.model()),
                a.spec_serialize(compress).len() + b.spec_serialize(compress).len()
                    + c3.spec_serialize(compress).len() + d.spec_serialize(compress).len(),
            ),
        ),
{
    let t = (a, b, c3, d);
    t.lemma_roundtrip(compress, validate, rest);
    lemma_quadruple_format(t, compress);
}

/// The first eight bytes of a vector's encoding are its length, little-endian:
/// byte `i` is `(len / 256^i) % 256`.
pub proof fn lemma_vec_format_length<T: CanonicalSerialize>(v: Vec<T>, compress: Compress)
    ensures
        v.spec_serialize(compress).len() >= 8,
        forall|i: int|
            0 <= i < 8 ==> #[trigger] v.spec_serialize(compress)[i] as nat == (v@.len() / pow256(
                i as nat,
            )) % 256,
{
    lemma_le_bytes_len(v@.len(), 8);
    assert forall|i: int| 0 <= i < 8 implies #[trigger] v.spec_serialize(compress)[i] as nat == (
    v@.len() / pow256(i as nat)) % 256 by {
        lemma_le_bytes_index(v@.len(), 8, i);
    }
}

/// An empty vector is written as eight zero bytes, and eight bytes are reported.
pub proof fn lemma_vec_format_empty<T: CanonicalSerialize>(v: Vec<T>, compress: Compress)
    requires
        v@.len() == 0,
    ensures
        v.spec_serialize(compress) == Seq::new(8, |i: int| 0u8),
        v.spec_size(compress) == 8,
{
    lemma_vec_format_length(v, compress);
    assert forall|i: int| 0 <= i < 8 implies #[trigger] v.spec_serialize(compress)[i] == 0u8 by {
        lemma_pow256_values();
        crate::little_endian::lemma_pow256_positive(i as nat);
    }
    lemma_le_bytes_len(0, 8);
    assert(v.spec_serialize(compress) =~= Seq::new(8, |i: int| 0u8));
}

/// Pushing an item onto a vector appends the item's encoding after the items'
/// encodings, and adds the item's size to the size reported.
pub proof fn lemma_vec_format_push<T: CanonicalSerialize>(
    v: Vec<T>,
    w: Vec<T>,
    x: T,
    compress: Compress,
)
    requires
        w@ == v@.push(x),
    ensures
        w.spec_serialize(compress).skip(8) == v.spec_serialize(compress).skip(8)
            + x.spec_serialize(compress),
        w.spec_size(compress) == v.spec_size(compress) + x.spec_size(compress),
{
    lemma_le_bytes_len(v@.len(), 8);
    lemma_le_bytes_len(w@.len(), 8);
    assert(w@.drop_last() =~= v@);
    assert(w.spec_serialize(compress).skip(8) =~= concat_encodings(w@, compress));
    assert(v.spec_serialize(compress).skip(8) =~= concat_encodings(v@, compress));
}

/// An option is written as the byte 0 when empty, and as the byte 1 followed by the
/// value's encoding otherwise; eight bytes are counted for the flag, plus the
/// value's compressed size.
pub proof fn lemma_option_format<T: CanonicalSerialize>(o: Option<T>, compress: Compress)
    ensures
        o is None ==> o.spec_serialize(compress) == seq![0u8] && o.spec_size(compress) == 8,
        o matches Some(x) ==> o.spec_serialize(compress) == seq![1u8] + x.spec_serialize(compress)
            && o.spec_size(compress) == 8 + x.spec_size(Compress::Yes),
{
    lemma_le_bytes_index(if o is Some { 1 } else { 0 }, 1, 0);
    lemma_le_bytes_len(if o is Some { 1 } else { 0 }, 1);
    let head = le_bytes(if o is Some { 1 } else { 0 }, 1);
    match o {
        Some(x) => {
            assert(head =~= seq![1u8]);
        },
        None => {
            assert(o.spec_serialize(compress) =~= seq![0u8]);
        },
    }
}

/// A clone-on-write value is written as the value it holds or points to, and its
/// compressed size is reported.
pub proof fn lemma_cow_format<'a, T: CanonicalSerialize + Clone>(w: Cow<'a, T>, compress: Compress)
    ensures
        w matches Cow::Borrowed(b) ==> w.spec_serialize(compress) == b.spec_serialize(compress)
            && w.spec_size(compress) == b.spec_size(Compress::Yes),
        w matches Cow::Owned(o) ==> w.spec_serialize(compress) == o.spec_serialize(compress)
            && w.spec_size(compress) == o.spec_size(Compress::Yes),
{
}

/// `PhantomData` is written as no bytes, reports size 0, and is read from any input
/// without taking a byte.
pub proof fn lemma_phantom_format<T>(
    p: PhantomData<T>,
    bytes: Seq<u8>,
    compress: Compress,
    validate: Validate,
)
    ensures
        p.spec_serialize(compress) == Seq::<u8>::empty(),
        p.spec_size(compress) == 0,
        PhantomData::<T>::spec_deserialize(bytes, compress, validate) == Ok::<
            ((), nat),
            SerializationError,
        >(((), 0)),
{
}

/// Reading a vector needs eight bytes of length first, and gives as many items as
/// that length says.
pub proof fn lemma_vec_read<T: SerializationLaws>(
    bytes: Seq<u8>,
    compress: Compress,
    validate: Validate,
)
    ensures
        bytes.len() < 8 ==> Vec::<T>::spec_deserialize(bytes, compress, validate) == Err::<
            (Seq<T::Model>, nat),
            SerializationError,
        >(SerializationError::IoError(IoErrorKind::UnexpectedEof)),
        Vec::<T>::spec_deserialize(bytes, compress, validate) matches Ok((ms, n)) ==> {
            &&& bytes.len() >= 8
            &&& ms.len() == le_value(bytes.take(8))
            &&& 8 <= n <= bytes.len()
        },
{
    if bytes.len() >= 8 {
        lemma_deserialize_items_canonical::<T>(
            bytes.skip(8),
            le_value(bytes.take(8)),
            compress,
            validate,
        );
    }
}

/// Reading an option takes a flag byte: 0 gives `None`, 1 is followed by the value
/// (always checked), any other byte is refused; with no byte it fails with
/// `UnexpectedEof`.
pub proof fn lemma_option_read<T: CanonicalDeserialize>(
    bytes: Seq<u8>,
    compress: Compress,
    validate: Validate,
)
    ensures
        bytes.len() == 0 ==> Option::<T>::spec_deserialize(bytes, compress, validate) == Err::<
            (Option<T::Model>, nat),
            SerializationError,
        >(SerializationError::IoError(IoErrorKind::UnexpectedEof)),
        bytes.len() > 0 && bytes[0] == 0 ==> Option::<T>::spec_deserialize(
            bytes,
            compress,
            validate,
        ) == Ok::<(Option<T::Model>, nat), SerializationError>((None, 1)),
        bytes.len() > 0 && bytes[0] == 1 ==> Option::<T>::spec_deserialize(
            bytes,
            compress,
            validate,
        ) == match T::spec_deserialize(bytes.skip(1), compress, Validate::Yes) {
            Ok((m, k)) => Ok::<(Option<T::Model>, nat), SerializationError>((Some(m), 1 + k)),
            Err(e) => Err(e),
        },
        bytes.len() > 0 && bytes[0] > 1 ==> Option::<T>::spec_deserialize(
            bytes,
            compress,
            validate,
        ) == Err::<(Option<T::Model>, nat), SerializationError>(
            SerializationError::IoError(IoErrorKind::InvalidData),
        ),
{
    lemma_bool_read(bytes, Compress::Yes, Validate::Yes);
}

/// Reading a clone-on-write value reads, and checks, the value it holds.
pub proof fn lemma_cow_read<'a, T: CanonicalDeserialize + Clone>(
    bytes: Seq<u8>,
    compress: Compress,
    validate: Validate,
)
    ensures
        Cow::<'a, T>::spec_deserialize(bytes, compress, validate) == T::spec_deserialize(
            bytes,
            compress,
            Validate::Yes,
        ),
{
}

/// Packing flags keeps every byte but the last, and sets the mask's bits in the
/// last one; unpacking clears the flags' bits in the last byte and keeps the rest.
pub proof fn lemma_flag_bits<F: Flags>(bytes: Seq<u8>, mask: u8)
    requires
        bytes.len() > 0,
    ensures
        with_flag_bits(bytes, mask).len() == bytes.len(),
        without_flag_bits::<F>(bytes).len() == bytes.len(),
        forall|i: int|
            0 <= i < bytes.len() - 1 ==> #[trigger] with_flag_bits(bytes, mask)[i] == bytes[i]
                && without_flag_bits::<F>(bytes)[i] == bytes[i],
        with_flag_bits(bytes, mask)[bytes.len() - 1] == bytes[bytes.len() - 1] | mask,
        without_flag_bits::<F>(bytes)[bytes.len() - 1] == F::spec_remove_flags(
            bytes[bytes.len() - 1],
        ),
{
}

} // verus!
