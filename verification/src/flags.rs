//! Flags that share the last byte of a serialized value, and the serializers that
//! pack them in.
use crate::error::{IoErrorKind, SerializationError};
use crate::io::{Read, Write, writes};
use crate::serialize::{CanonicalSerialize, buffer_bit_byte_size, read_outcome};
use vstd::prelude::*;

verus! {

/// A small set of flag bits carried in the high bits of a value's last byte.
pub trait Flags: Sized {
    /// The byte with the flags' bits set and every other bit clear.
    spec fn spec_bitmask(&self) -> u8;

    /// The flags that a byte carries.
    spec fn spec_from_u8(value: u8) -> Self;

    /// The byte with the flags' bits cleared.
    spec fn spec_remove_flags(value: u8) -> u8;

    /// How many bits the flags take.
    spec fn spec_len() -> nat;

    fn u8_bitmask(&self) -> (mask: u8)
        ensures
            mask == self.spec_bitmask(),
    ;

    fn from_u8(value: u8) -> (flags: Self)
        ensures
            flags == Self::spec_from_u8(value),
    ;

    /// Reads the flags out of `value` and clears their bits there.
    fn from_u8_remove_flags(value: &mut u8) -> (flags: Self)
        ensures
            flags == Self::spec_from_u8(*old(value)),
            *final(value) == Self::spec_remove_flags(*old(value)),
    ;

    fn len() -> (n: usize)
        ensures
            n == Self::spec_len(),
    ;
}

/// Flags that take no bits.
#[derive(Debug, Clone, Copy, PartialEq, Eq, Structural)]
pub struct EmptyFlags;

impl Flags for EmptyFlags {
    open spec fn spec_bitmask(&self) -> u8 {
        0
    }

    open spec fn spec_from_u8(value: u8) -> Self {
        EmptyFlags
    }

    open spec fn spec_remove_flags(value: u8) -> u8 {
        value
    }

    open spec fn spec_len() -> nat {
        0
    }

    fn u8_bitmask(&self) -> (mask: u8) {
        0
    }

    fn from_u8(value: u8) -> (flags: Self) {
        EmptyFlags
    }

    fn from_u8_remove_flags(value: &mut u8) -> (flags: Self) {
        EmptyFlags
    }

    fn len() -> (n: usize) {
        0
    }
}

/// How many whole bytes hold `bits` bits.
pub open spec fn byte_count(bits: nat) -> nat {
    (bits + 7) / 8
}

/// Flags of type `F` fit in the bits left over at the top of the last byte when
/// `modulus_bits` bits are stored in whole bytes.
pub open spec fn flags_fit<F: Flags>(modulus_bits: nat) -> bool {
    F::spec_len() <= byte_count(modulus_bits) * 8 - modulus_bits
}

/// `bytes` with the bits of `mask` set in its last byte.
pub open spec fn with_flag_bits(bytes: Seq<u8>, mask: u8) -> Seq<u8> {
    bytes.update(bytes.len() - 1, bytes.last() | mask)
}

/// `bytes` with the bits of flags of type `F` cleared in its last byte.
pub open spec fn without_flag_bits<F: Flags>(bytes: Seq<u8>) -> Seq<u8> {
    bytes.update(bytes.len() - 1, F::spec_remove_flags(bytes.last()))
}

/// Writes the bytes that hold a `modulus_bits`-bit value, taken from the front of
/// `bytes`, with `flags` packed into the spare high bits of the last of them.
/// When the flags do not fit in the spare bits, nothing is written and
/// `NotEnoughSpace` is returned.
pub fn write_bytes_with_flags<W: Write, F: Flags>(
    bytes: &Vec<u8>,
    modulus_bits: usize,
    flags: F,
    writer: &mut W,
) -> (r: Result<(), SerializationError>)
    requires
        0 < modulus_bits,
        modulus_bits + 7 <= usize::MAX,
        byte_count(modulus_bits as nat) <= bytes@.len(),
    ensures
        !flags_fit::<F>(modulus_bits as nat) ==> {
            &&& r == Err::<(), SerializationError>(SerializationError::NotEnoughSpace)
            &&& *final(writer) == *old(writer)
        },
        flags_fit::<F>(modulus_bits as nat) ==> writes(
            *old(writer),
            *final(writer),
            with_flag_bits(
                bytes@.take(byte_count(modulus_bits as nat) as int),
                flags.spec_bitmask(),
            ),
            r,
        ),
{
    let (output_bit_size, output_byte_size) = buffer_bit_byte_size(modulus_bits);
    if F::len() > output_bit_size - modulus_bits {
        return Err(SerializationError::NotEnoughSpace);
    }
    let mut out: Vec<u8> = Vec::new();
    let mut i: usize = 0;
    while i < output_byte_size
        invariant
            i <= output_byte_size <= bytes@.len(),
            out@ == bytes@.take(i as int),
        decreases output_byte_size - i,
    {
        out.push(bytes[i]);
        i = i + 1;
        assert(out@ =~= bytes@.take(i as int));
    }
    let last = out[output_byte_size - 1] | flags.u8_bitmask();
    out.set(output_byte_size - 1, last);
    writer.write_all(out.as_slice())
}

/// Reads the bytes that hold a `modulus_bits`-bit value with flags packed into the
/// spare high bits of the last of them; returns the bytes with the flag bits
/// cleared, and the flags. When the flags cannot fit in the spare bits, nothing is
/// read and `NotEnoughSpace` is returned.
pub fn read_bytes_with_flags<R: Read, F: Flags>(modulus_bits: usize, reader: &mut R) -> (r: Result<
    (Vec<u8>, F),
    SerializationError,
>)
    requires
        0 < modulus_bits,
        modulus_bits + 7 <= usize::MAX,
    ensures
        !flags_fit::<F>(modulus_bits as nat) ==> {
            &&& r matches Err(e) && e == SerializationError::NotEnoughSpace
            &&& *final(reader) == *old(reader)
        },
        flags_fit::<F>(modulus_bits as nat) && old(reader).spec_unread().len() < byte_count(
            modulus_bits as nat,
        ) ==> {
            &&& r matches Err(e) && e == SerializationError::IoError(IoErrorKind::UnexpectedEof)
            &&& final(reader).spec_unread() == Seq::<u8>::empty()
        },
        flags_fit::<F>(modulus_bits as nat) && old(reader).spec_unread().len() >= byte_count(
            modulus_bits as nat,
        ) ==> {
            let taken = old(reader).spec_unread().take(byte_count(modulus_bits as nat) as int);
            &&& r matches Ok((b, f)) && b@ == without_flag_bits::<F>(taken) && f
                == F::spec_from_u8(taken.last())
            &&& final(reader).spec_unread() == old(reader).spec_unread().skip(
                byte_count(modulus_bits as nat) as int,
            )
        },
{
    let (output_bit_size, output_byte_size) = buffer_bit_byte_size(modulus_bits);
    if F::len() > output_bit_size - modulus_bits {
        return Err(SerializationError::NotEnoughSpace);
    }
    let mut masked_bytes = match reader.read_exact(output_byte_size) {
        Ok(bytes) => bytes,
        Err(e) => return Err(e),
    };
    let mut last = masked_bytes[output_byte_size - 1];
    let flags = F::from_u8_remove_flags(&mut last);
    masked_bytes.set(output_byte_size - 1, last);
    Ok((masked_bytes, flags))
}

/// Serializer in little endian format allowing to encode flags.
pub trait CanonicalSerializeWithFlags: CanonicalSerialize {
    /// The bytes of `self` with `flags` packed in, or the error when they do not fit.
    spec fn spec_serialize_with_flags<F: Flags>(&self, flags: F) -> Result<
        Seq<u8>,
        SerializationError,
    >;

    /// Serializes `self` and `flags` into `writer`. When the flags do not fit,
    /// nothing is written.
    fn serialize_with_flags<W: Write, F: Flags>(&self, writer: &mut W, flags: F) -> (r: Result<
        (),
        SerializationError,
    >)
        ensures
            match self.spec_serialize_with_flags(flags) {
                Ok(bytes) => writes(*old(writer), *final(writer), bytes, r),
                Err(e) => r == Err::<(), SerializationError>(e) && *final(writer) == *old(writer),
            },
    ;
}

/// Deserializer in little endian format allowing flags to be encoded.
pub trait CanonicalDeserializeWithFlags: Sized {
    /// The outcome of reading a value and its flags from the front of `bytes`.
    spec fn spec_deserialize_with_flags<F: Flags>(bytes: Seq<u8>) -> Result<
        ((Self, F), nat),
        SerializationError,
    >;

    /// Reads `Self` and `Flags` from `reader`.
    fn deserialize_with_flags<R: Read, F: Flags>(reader: &mut R) -> (r: Result<
        (Self, F),
        SerializationError,
    >)
        ensures
            read_outcome(
                old(reader).spec_unread(),
                final(reader).spec_unread(),
                Self::spec_deserialize_with_flags::<F>(old(reader).spec_unread()),
                r,
            ),
    ;
}

} // verus!
