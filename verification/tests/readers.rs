use std::mem::MaybeUninit;
use wincode::io::{LimitReader, ReadError, Reader, ReaderMut};
use wincode::ReadError as SchemaReadError;

#[test]
fn slice_reader_serves_and_advances() {
    let bytes = [1u8, 2, 3, 4, 5];
    let mut r: &[u8] = &bytes;
    assert_eq!(r.take_borrowed(2).unwrap(), &[1, 2]);
    assert_eq!(r.take_scoped(1).unwrap(), &[3]);
    let mut dst = [0u8; 2];
    r.copy_into_slice(&mut dst).unwrap();
    assert_eq!(dst, [4, 5]);
    assert!(r.is_empty());
    assert!(matches!(r.take_byte(), Err(ReadError::ReadSizeLimit(1))));
}

#[test]
fn failed_copy_leaves_destination() {
    let bytes = [1u8];
    let mut r: &[u8] = &bytes;
    let mut dst = [9u8; 3];
    assert!(matches!(r.copy_into_slice(&mut dst), Err(ReadError::ReadSizeLimit(3))));
    assert_eq!(dst, [9, 9, 9]);
    assert_eq!(r, &[1]);
}

#[test]
fn mutable_slice_reader_lends_mutably() {
    let mut bytes = [1u8, 2, 3];
    {
        let mut r: &mut [u8] = &mut bytes[..];
        let head = r.take_borrowed_mut(2).unwrap();
        head[0] = 10;
        assert_eq!(r.take_byte().unwrap(), 3);
    }
    assert_eq!(bytes, [10, 2, 3]);
}

#[test]
fn window_for_a_sequence_checks_the_product() {
    let bytes = [0u8; 4];
    let mut r: &[u8] = &bytes;
    assert!(matches!(
        r.as_trusted_for_seq(usize::MAX, 2),
        Err(SchemaReadError::LengthEncodingOverflow("usize::MAX"))
    ));
    assert_eq!(r.as_trusted_for_seq(2, 2).unwrap(), &[0, 0, 0, 0]);
}

#[test]
fn reservation_is_kept_when_the_inner_reader_fails() {
    let bytes = [1u8, 2];
    let mut reader = LimitReader::new(bytes.as_slice(), 10);
    assert!(matches!(reader.take_array::<4>(), Err(ReadError::ReadSizeLimit(4))));
    assert_eq!(reader.remaining(), 6);
    assert_eq!(reader.take_byte().unwrap(), 1);
    assert_eq!(reader.remaining(), 5);
}

#[test]
fn refused_reservation_keeps_the_limit() {
    let bytes = [1u8, 2, 3];
    let mut reader = LimitReader::new(bytes.as_slice(), 2);
    assert!(matches!(reader.take_borrowed(3), Err(ReadError::ReadSizeLimit(3))));
    assert_eq!(reader.remaining(), 2);
    assert_eq!(reader.take_borrowed(2).unwrap(), &[1, 2]);
    let inner = reader.into_inner();
    assert_eq!(inner, &[3]);
}

#[test]
fn limited_mutable_reader() {
    let mut bytes = [5u8, 6, 7];
    let mut reader = LimitReader::new(&mut bytes[..], 2);
    assert!(matches!(reader.take_borrowed_mut(3), Err(ReadError::ReadSizeLimit(3))));
    let head = reader.take_borrowed_mut(2).unwrap();
    assert_eq!(head, &[5, 6]);
}

#[test]
fn uninit_copy_reserves_and_advances() {
    let bytes = [1u8, 2, 3];
    let mut reader = LimitReader::new(bytes.as_slice(), 2);
    let mut big = [MaybeUninit::<u8>::uninit(); 3];
    assert!(matches!(reader.copy_into_uninit_slice(&mut big), Err(ReadError::ReadSizeLimit(3))));
    let mut dst = [MaybeUninit::<u8>::uninit(); 2];
    reader.copy_into_uninit_slice(&mut dst).unwrap();
    assert_eq!(reader.remaining(), 0);
    assert_eq!(reader.into_inner(), &[3]);
}
