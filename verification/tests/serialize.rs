use algebra_core::{
    buffer_bit_byte_size, buffer_byte_size, CanonicalDeserialize, CanonicalSerialize,
    ConstantSerializedSize, EmptyFlags, Flags, IoErrorKind, SerializationError, SliceReader,
    SliceWriter, Write, read_bytes_with_flags, write_bytes_with_flags,
};
use std::borrow::Cow;
use std::marker::PhantomData;

fn test_serialize<T: PartialEq + core::fmt::Debug + CanonicalSerialize + CanonicalDeserialize>(
    data: T,
) {
    let mut serialized = SliceWriter::new(vec![0; data.serialized_size()]);
    data.serialize(&mut serialized).unwrap();
    let de = T::deserialize(&mut SliceReader::new(serialized.into_inner())).unwrap();
    assert_eq!(data, de);

    let mut serialized = SliceWriter::new(vec![0; data.uncompressed_size()]);
    data.serialize_uncompressed(&mut serialized).unwrap();
    let de = T::deserialize_uncompressed(&mut SliceReader::new(serialized.into_inner())).unwrap();
    assert_eq!(data, de);

    let mut serialized = SliceWriter::new(vec![0; data.uncompressed_size()]);
    data.serialize_unchecked(&mut serialized).unwrap();
    let de = T::deserialize_unchecked(&mut SliceReader::new(serialized.into_inner())).unwrap();
    assert_eq!(data, de);
}

fn serialized_bytes<T: CanonicalSerialize>(data: &T, room: usize) -> Vec<u8> {
    let mut writer = SliceWriter::new(vec![0; room]);
    data.serialize(&mut writer).unwrap();
    writer.into_inner()
}

#[test]
fn test_vec() {
    test_serialize(vec![1u64, 2, 3, 4, 5]);
    test_serialize(Vec::<u64>::new());
}

#[test]
fn test_uint() {
    test_serialize(192830918usize);
    test_serialize(192830918u64);
    test_serialize(192830918u32);
    test_serialize(22313u16);
    test_serialize(123u8);
}

#[test]
fn test_tuple() {
    test_serialize((123u64, 234u32, 999u16));
}

#[test]
fn test_tuple_vec() {
    test_serialize(vec![
        (123u64, 234u32, 999u16),
        (123u64, 234u32, 999u16),
        (123u64, 234u32, 999u16),
    ]);
}

#[test]
fn test_option() {
    test_serialize(Some(3u32));
    test_serialize(None::<u32>);
}

#[test]
fn test_bool() {
    test_serialize(true);
    test_serialize(false);
}

#[test]
fn test_phantomdata() {
    test_serialize(core::marker::PhantomData::<u64>);
}

#[test]
fn uints_are_little_endian() {
    assert_eq!(serialized_bytes(&22313u16, 2), vec![0x29, 0x57]);
    assert_eq!(serialized_bytes(&0x01020304u32, 4), vec![4, 3, 2, 1]);
    assert_eq!(
        serialized_bytes(&0x0102030405060708u64, 8),
        vec![8, 7, 6, 5, 4, 3, 2, 1]
    );
    assert_eq!(serialized_bytes(&123u8, 1), vec![123]);
    assert_eq!(serialized_bytes(&258usize, 8), vec![2, 1, 0, 0, 0, 0, 0, 0]);
}

#[test]
fn uints_read_little_endian() {
    let mut reader = SliceReader::new(vec![0x29, 0x57, 0xff]);
    assert_eq!(u16::deserialize(&mut reader).unwrap(), 22313);
    assert_eq!(u8::deserialize(&mut reader).unwrap(), 0xff);
    assert_eq!(
        u8::deserialize(&mut reader),
        Err(SerializationError::IoError(IoErrorKind::UnexpectedEof))
    );
}

#[test]
fn sizes_of_uints_are_constant() {
    assert_eq!(<u8 as ConstantSerializedSize>::SERIALIZED_SIZE, 1);
    assert_eq!(<u16 as ConstantSerializedSize>::SERIALIZED_SIZE, 2);
    assert_eq!(<u32 as ConstantSerializedSize>::SERIALIZED_SIZE, 4);
    assert_eq!(<u64 as ConstantSerializedSize>::UNCOMPRESSED_SIZE, 8);
    assert_eq!(<usize as ConstantSerializedSize>::SERIALIZED_SIZE, 8);
    assert_eq!(7u16.serialized_size(), 2);
    assert_eq!(7usize.uncompressed_size(), 8);
}

#[test]
fn bools_are_one_byte() {
    assert_eq!(serialized_bytes(&true, 1), vec![1]);
    assert_eq!(serialized_bytes(&false, 1), vec![0]);
    assert_eq!(true.serialized_size(), 1);
}

#[test]
fn bool_refuses_other_bytes() {
    let mut reader = SliceReader::new(vec![2]);
    assert_eq!(
        bool::deserialize(&mut reader),
        Err(SerializationError::IoError(IoErrorKind::InvalidData))
    );
}

#[test]
fn vec_is_length_then_items() {
    assert_eq!(
        serialized_bytes(&vec![1u16, 2], 12),
        vec![2, 0, 0, 0, 0, 0, 0, 0, 1, 0, 2, 0]
    );
    assert_eq!(vec![1u16, 2].serialized_size(), 12);
    assert_eq!(Vec::<u32>::new().serialized_size(), 8);
}

#[test]
fn vec_length_beyond_input_fails() {
    let mut reader = SliceReader::new(vec![3, 0, 0, 0, 0, 0, 0, 0, 1, 0]);
    assert_eq!(
        Vec::<u16>::deserialize(&mut reader),
        Err(SerializationError::IoError(IoErrorKind::UnexpectedEof))
    );
}

#[test]
fn vec_with_bad_item_fails() {
    let mut reader = SliceReader::new(vec![2, 0, 0, 0, 0, 0, 0, 0, 1, 5]);
    assert_eq!(
        Vec::<bool>::deserialize(&mut reader),
        Err(SerializationError::IoError(IoErrorKind::InvalidData))
    );
}

#[test]
fn option_is_flag_then_value() {
    assert_eq!(serialized_bytes(&Some(7u16), 3), vec![1, 7, 0]);
    assert_eq!(serialized_bytes(&None::<u16>, 1), vec![0]);
    // Eight bytes are counted for the flag, though it takes one.
    assert_eq!(Some(7u16).serialized_size(), 10);
    assert_eq!(None::<u16>.serialized_size(), 8);
    assert_eq!(Some(7u16).uncompressed_size(), 10);
}

#[test]
fn tuple_is_parts_in_order() {
    assert_eq!(serialized_bytes(&(1u8, 2u16), 3), vec![1, 2, 0]);
    assert_eq!((1u8, 2u16, 3u32, 4u64).serialized_size(), 15);
    test_serialize((1u8, true));
    test_serialize((1u8, true, Some(9u64), vec![3u16]));
}

#[test]
fn phantomdata_takes_no_bytes() {
    assert_eq!(PhantomData::<u32>.serialized_size(), 0);
    let mut writer = SliceWriter::new(vec![]);
    assert_eq!(PhantomData::<u32>.serialize(&mut writer), Ok(()));
    let mut reader = SliceReader::new(vec![]);
    assert_eq!(PhantomData::<u32>::deserialize(&mut reader), Ok(PhantomData));
}

#[test]
fn cow_is_its_value() {
    let borrowed: Cow<u32> = Cow::Borrowed(&0x0a0b0c0d);
    assert_eq!(serialized_bytes(&borrowed, 4), vec![0x0d, 0x0c, 0x0b, 0x0a]);
    assert_eq!(borrowed.serialized_size(), 4);
    let mut reader = SliceReader::new(vec![0x0d, 0x0c, 0x0b, 0x0a]);
    let read: Cow<u32> = Cow::deserialize(&mut reader).unwrap();
    assert_eq!(read, borrowed);
    test_serialize(Cow::<u16>::Owned(513));
}

#[test]
fn short_buffer_gets_the_prefix_and_write_zero() {
    let mut writer = SliceWriter::new(vec![0; 3]);
    assert_eq!(
        0x04030201u32.serialize(&mut writer),
        Err(SerializationError::IoError(IoErrorKind::WriteZero))
    );
    assert_eq!(writer.into_inner(), vec![1, 2, 3]);
}

#[test]
fn writer_reports_write_zero_when_full() {
    let mut writer = SliceWriter::new(vec![9; 2]);
    assert_eq!(writer.write_all(&[1]), Ok(()));
    assert_eq!(
        writer.write_all(&[2, 3]),
        Err(SerializationError::IoError(IoErrorKind::WriteZero))
    );
    assert_eq!(writer.into_inner(), vec![1, 2]);
}

#[test]
fn values_read_back_in_sequence() {
    let mut writer = SliceWriter::new(vec![0; 13]);
    5u32.serialize(&mut writer).unwrap();
    vec![true].serialize(&mut writer).unwrap();
    let mut reader = SliceReader::new(writer.into_inner());
    assert_eq!(u32::deserialize(&mut reader).unwrap(), 5);
    assert_eq!(Vec::<bool>::deserialize(&mut reader).unwrap(), vec![true]);
}

#[test]
fn buffer_sizes_round_up_to_bytes() {
    assert_eq!(buffer_byte_size(0), 0);
    assert_eq!(buffer_byte_size(1), 1);
    assert_eq!(buffer_byte_size(8), 1);
    assert_eq!(buffer_byte_size(255), 32);
    assert_eq!(buffer_byte_size(381), 48);
    assert_eq!(buffer_bit_byte_size(381), (384, 48));
    assert_eq!(buffer_bit_byte_size(256), (256, 32));
}

#[test]
fn empty_flags_take_no_bits() {
    assert_eq!(<EmptyFlags as Flags>::len(), 0);
    assert_eq!(EmptyFlags.u8_bitmask(), 0);
    let mut byte = 0xc3u8;
    let _flags: EmptyFlags = Flags::from_u8_remove_flags(&mut byte);
    assert_eq!(byte, 0xc3);
    assert_eq!(<EmptyFlags as Flags>::from_u8(0xff), EmptyFlags);
}

#[test]
fn flag_bytes_take_whole_bytes_of_the_modulus() {
    let bytes: Vec<u8> = (1..=33).collect();
    let mut writer = SliceWriter::new(vec![0; 32]);
    assert_eq!(write_bytes_with_flags(&bytes, 255, EmptyFlags, &mut writer), Ok(()));
    assert_eq!(writer.into_inner(), bytes[..32].to_vec());

    let mut input = bytes.clone();
    input.push(0xaa);
    let mut reader = SliceReader::new(input);
    let (read, _flags): (Vec<u8>, EmptyFlags) = read_bytes_with_flags(255, &mut reader).unwrap();
    assert_eq!(read, bytes[..32].to_vec());
    assert_eq!(u8::deserialize(&mut reader).unwrap(), 33);
}

#[test]
fn flag_bytes_short_input_fails() {
    let mut reader = SliceReader::new(vec![1, 2, 3]);
    let r: Result<(Vec<u8>, EmptyFlags), SerializationError> =
        read_bytes_with_flags(32, &mut reader);
    assert_eq!(
        r.map(|(b, _)| b),
        Err(SerializationError::IoError(IoErrorKind::UnexpectedEof))
    );
    let mut writer = SliceWriter::new(vec![0; 2]);
    assert_eq!(
        write_bytes_with_flags(&vec![7, 8, 9], 17, EmptyFlags, &mut writer),
        Err(SerializationError::IoError(IoErrorKind::WriteZero))
    );
}

#[test]
fn usize_takes_eight_bytes() {
    let mut reader = SliceReader::new(vec![5, 0, 0, 0, 0, 0, 0, 0, 9]);
    assert_eq!(usize::deserialize(&mut reader).unwrap(), 5);
    assert_eq!(u8::deserialize(&mut reader).unwrap(), 9);
}

#[test]
fn cow_read_is_owned() {
    let mut reader = SliceReader::new(vec![1, 0]);
    let read: Cow<u16> = Cow::deserialize(&mut reader).unwrap();
    assert!(matches!(read, Cow::Owned(1)));
    let mut reader = SliceReader::new(vec![2, 0]);
    let read: Cow<u16> = Cow::deserialize_uncompressed(&mut reader).unwrap();
    assert!(matches!(read, Cow::Owned(2)));
}

#[test]
fn writer_leaves_the_rest_of_the_buffer() {
    let mut writer = SliceWriter::new(vec![9, 9, 9]);
    assert_eq!(writer.write_all(&[1]), Ok(()));
    assert_eq!(writer.into_inner(), vec![1, 9, 9]);
}

#[test]
fn nested_options_and_vectors_read_back() {
    test_serialize(Some(vec![Some(1u16), None]));
    test_serialize(vec![Some(true), None, Some(false)]);
}
