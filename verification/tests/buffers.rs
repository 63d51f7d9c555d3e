use wincode::config::{deserialize, serialize_into, Configuration, DefaultConfig, ZeroCopy};
use wincode::encode::encode_into;
use wincode::io::{LimitReader, ReadError, Reader, ReaderMut, SliceWriter, Writer};
use wincode::len::{BincodeLen, FixIntLen, SeqLen};
use wincode::{ReadError as SchemaReadError, WriteError};

#[test]
fn encode_into_leaves_the_rest_of_the_buffer() {
    let mut buf = [0xAAu8; 12];
    let mut writer = SliceWriter::new(&mut buf[..]);
    encode_into(&mut writer, &0x0102_0304_0506_0708u64).unwrap();
    let back = writer.into_inner();
    assert_eq!(&back[..8], &0x0102_0304_0506_0708u64.to_le_bytes());
    assert_eq!(&back[8..], &[0xAA; 4]);
    assert_eq!(&buf[8..], &[0xAA; 4]);
    assert_eq!(&buf[..8], &0x0102_0304_0506_0708u64.to_le_bytes());
}

#[test]
fn serialize_into_leaves_the_rest_of_the_buffer() {
    let mut buf = [7u8; 16];
    let v: Vec<u8> = vec![1, 2, 3];
    let mut writer = SliceWriter::new(&mut buf[..]);
    serialize_into(&mut writer, &v, DefaultConfig::default()).unwrap();
    let back = writer.into_inner();
    assert_eq!(&back[..11], &[3, 0, 0, 0, 0, 0, 0, 0, 1, 2, 3]);
    assert_eq!(&back[11..], &[7; 5]);
}

#[test]
fn slice_writer_hands_back_written_and_unwritten_bytes() {
    let mut buf = [9u8, 9, 9, 9];
    let mut writer = SliceWriter::new(&mut buf[..]);
    writer.write(&[1, 2]).unwrap();
    assert!(writer.write(&[3, 4, 5]).is_err());
    writer.finish().unwrap();
    assert_eq!(writer.into_inner(), &[1, 2, 9, 9]);
}

#[test]
fn refused_request_leaves_the_inner_reader() {
    let bytes = [1u8, 2, 3];
    let mut reader = LimitReader::new(bytes.as_slice(), 2);
    assert!(matches!(reader.take_array::<3>(), Err(ReadError::ReadSizeLimit(3))));
    assert!(matches!(reader.take_borrowed(5), Err(ReadError::ReadSizeLimit(5))));
    assert_eq!(reader.remaining(), 2);
    assert_eq!(reader.into_inner(), &[1, 2, 3]);
}

#[test]
fn overflowing_window_leaves_the_inner_reader() {
    let bytes = [1u8, 2, 3];
    let mut reader = LimitReader::new(bytes.as_slice(), 3);
    assert!(matches!(
        reader.as_trusted_for_seq(usize::MAX, 2),
        Err(SchemaReadError::LengthEncodingOverflow("usize::MAX"))
    ));
    assert_eq!(reader.remaining(), 3);
    assert_eq!(reader.into_inner(), &[1, 2, 3]);
}

#[test]
fn refused_slice_requests_leave_the_slice() {
    let mut slice: &[u8] = &[1, 2];
    assert!(slice.take_borrowed(3).is_err());
    assert!(slice.take_array::<4>().is_err());
    assert_eq!(slice, &[1, 2]);

    let mut data = [5u8, 6];
    let mut slice_mut: &mut [u8] = &mut data[..];
    assert!(slice_mut.take_borrowed_mut(3).is_err());
    assert_eq!(slice_mut, &[5, 6]);
}

#[test]
fn refused_zero_copy_leaves_the_bytes() {
    let mut bytes = [42u8];
    let limited = Configuration::default().with_deserialization_size_limit::<0>();
    assert!(<u8 as ZeroCopy<_>>::from_bytes_mut(&mut bytes, limited).is_err());
    assert_eq!(bytes, [42u8]);

    let mut empty: [u8; 0] = [];
    assert!(<u8 as ZeroCopy<_>>::from_bytes_mut(&mut empty, DefaultConfig::default()).is_err());
}

#[test]
fn raising_the_limit_keeps_a_successful_deserialization() {
    let mut bytes = vec![2u8, 0, 0, 0, 0, 0, 0, 0, 10, 20];
    bytes.extend_from_slice(&[99; 6]);
    let low = Configuration::default().with_deserialization_size_limit::<10>();
    let high = Configuration::default().with_deserialization_size_limit::<16>();
    let none = low.disable_deserialization_size_limit();
    let expected: Vec<u8> = vec![10, 20];
    assert_eq!(deserialize::<Vec<u8>, _>(&bytes, low).unwrap(), expected);
    assert_eq!(deserialize::<Vec<u8>, _>(&bytes, high).unwrap(), expected);
    assert_eq!(deserialize::<Vec<u8>, _>(&bytes, none).unwrap(), expected);

    let too_low = Configuration::default().with_deserialization_size_limit::<9>();
    assert!(deserialize::<Vec<u8>, _>(&bytes, too_low).is_err());
}

#[test]
fn overflowing_length_names_its_carrier() {
    let too_long: usize = (u32::MAX as usize) + 1;
    assert_eq!(
        <FixIntLen<u32> as SeqLen>::size_of_len(too_long),
        Err(WriteError::LengthEncodingOverflow("u32::MAX"))
    );
    let mut out: Vec<u8> = Vec::new();
    assert_eq!(
        <FixIntLen<u32> as SeqLen>::write_len(&mut out, too_long),
        Err(WriteError::LengthEncodingOverflow("u32::MAX"))
    );
    let mut bytes: &[u8] = &u64::MAX.to_le_bytes();
    if usize::BITS < 64 {
        assert_eq!(
            <BincodeLen as SeqLen>::read_len(&mut bytes),
            Err(SchemaReadError::LengthEncodingOverflow("usize::MAX"))
        );
    } else {
        assert_eq!(<BincodeLen as SeqLen>::read_len(&mut bytes), Ok(usize::MAX));
    }
}
