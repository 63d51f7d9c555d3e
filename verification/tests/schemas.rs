use wincode::config::{
    self, deserialize, deserialize_mut, deserialize_with_context, serialized_size, Configuration,
    DefaultConfig, ZeroCopy,
};
use wincode::decode::{decode, decode_exact, decode_exact_via, decode_into};
use wincode::encode::{encode, encode_into, encode_via, encoded_size, encoded_size_via};
use wincode::io::{ReadError as IoReadError, SliceWriter, WriteError as IoWriteError};
use wincode::len::{BincodeLen, FixIntLen};
use wincode::schema::containers::VecOf;
use wincode::{ReadError, WriteError};

#[test]
fn integers_are_little_endian() {
    assert_eq!(encode(&0x1234u16).unwrap(), vec![0x34, 0x12]);
    assert_eq!(encode(&0x0102_0304u32).unwrap(), vec![4, 3, 2, 1]);
    assert_eq!(encode(&1u64).unwrap(), vec![1, 0, 0, 0, 0, 0, 0, 0]);
    assert_eq!(encode(&7u8).unwrap(), vec![7]);
}

#[test]
fn primitives_roundtrip() {
    assert_eq!(decode_exact::<u16>(&encode(&0xBEEFu16).unwrap()).unwrap(), 0xBEEF);
    assert_eq!(decode_exact::<u32>(&encode(&u32::MAX).unwrap()).unwrap(), u32::MAX);
    assert_eq!(decode_exact::<u64>(&encode(&u64::MAX).unwrap()).unwrap(), u64::MAX);
    assert_eq!(decode_exact::<bool>(&encode(&true).unwrap()).unwrap(), true);
    assert_eq!(decode_exact::<bool>(&encode(&false).unwrap()).unwrap(), false);
}

#[test]
fn bool_rejects_other_bytes() {
    assert_eq!(encode(&true).unwrap(), vec![1]);
    assert!(matches!(decode::<bool>(&[2u8][..]), Err(ReadError::InvalidValue)));
}

#[test]
fn short_input_names_the_requested_size() {
    assert!(matches!(
        decode::<u32>(&[1u8, 2][..]),
        Err(ReadError::Io(IoReadError::ReadSizeLimit(4)))
    ));
    assert!(matches!(
        decode::<u8>(&[][..]),
        Err(ReadError::Io(IoReadError::ReadSizeLimit(1)))
    ));
}

#[test]
fn vec_is_length_then_items() {
    let v: Vec<u8> = vec![1, 2, 3];
    assert_eq!(encode(&v).unwrap(), vec![3, 0, 0, 0, 0, 0, 0, 0, 1, 2, 3]);
    assert_eq!(encoded_size(&v).unwrap(), 11);
    let words: Vec<u16> = vec![0x0102, 0x0304];
    assert_eq!(encode(&words).unwrap(), vec![2, 0, 0, 0, 0, 0, 0, 0, 2, 1, 4, 3]);
}

#[test]
fn nested_vectors_roundtrip() {
    let v: Vec<Vec<u8>> = vec![vec![], vec![9], vec![1, 2]];
    let bytes = encode(&v).unwrap();
    assert_eq!(bytes.len(), 8 + 8 + 9 + 10);
    assert_eq!(decode_exact::<Vec<Vec<u8>>>(&bytes).unwrap(), v);
}

#[test]
fn static_items_are_read_from_one_window() {
    // Two u64 items announced, only one present: the whole window of 16 bytes is refused.
    let mut bytes = encode(&vec![5u64]).unwrap();
    bytes[0] = 2;
    assert!(matches!(
        decode::<Vec<u64>>(&bytes[..]),
        Err(ReadError::Io(IoReadError::ReadSizeLimit(16)))
    ));
}

#[test]
fn dynamic_items_are_read_one_by_one() {
    // Two inner vectors announced, only one present: the next length prefix is refused.
    let mut bytes = encode(&vec![vec![1u8]]).unwrap();
    bytes[0] = 2;
    assert!(matches!(
        decode::<Vec<Vec<u8>>>(&bytes[..]),
        Err(ReadError::Io(IoReadError::ReadSizeLimit(8)))
    ));
}

#[test]
fn preallocation_limit_is_enforced() {
    type Small = Configuration<true, 2, BincodeLen>;
    let bytes = encode(&vec![1u8, 2, 3]).unwrap();
    assert!(matches!(
        config::decode::decode::<Vec<u8>, Small>(&bytes[..]),
        Err(ReadError::PreallocationSizeLimit { needed: 3, limit: 2 })
    ));
    let words = encode(&vec![1u16]).unwrap();
    assert!(matches!(
        config::decode::decode::<Vec<u16>, Small>(&words[..]),
        Ok(ref w) if w == &vec![1u16]
    ));
}

#[test]
fn container_schema_chooses_its_length_encoding() {
    let v: Vec<u16> = vec![7, 8];
    let bytes = encode_via::<VecOf<u16, FixIntLen<u32>>>(&v).unwrap();
    assert_eq!(bytes, vec![2, 0, 0, 0, 7, 0, 8, 0]);
    assert_eq!(encoded_size_via::<VecOf<u16, FixIntLen<u32>>>(&v).unwrap(), 8);
    assert_eq!(decode_exact_via::<VecOf<u16, FixIntLen<u32>>>(&bytes).unwrap(), v);
    assert!(decode_exact_via::<VecOf<u16, BincodeLen>>(&bytes).is_err());
}

#[test]
fn write_into_too_small_buffer_fails_with_a_prefix_written() {
    let mut buf = [0xAAu8; 9];
    let v: Vec<u8> = vec![1, 2, 3];
    let r = encode_into(&mut SliceWriter::new(&mut buf[..]), &v);
    assert!(matches!(r, Err(WriteError::Io(IoWriteError::WriteSizeLimit(1)))));
    assert_eq!(buf, [3, 0, 0, 0, 0, 0, 0, 0, 1]);

    let mut small = [0u8; 4];
    let r = encode_into(&mut SliceWriter::new(&mut small[..]), &5u64);
    assert!(matches!(r, Err(WriteError::Io(IoWriteError::WriteSizeLimit(8)))));
    assert_eq!(small, [0, 0, 0, 0]);
}

#[test]
fn write_into_vec_appends() {
    let mut out: Vec<u8> = vec![0xFF];
    encode_into(&mut out, &0x0201u16).unwrap();
    assert_eq!(out, vec![0xFF, 1, 2]);
}

#[test]
fn serialized_size_matches_serialization() {
    let config = DefaultConfig::default();
    let v: Vec<u32> = vec![1, 2, 3, 4];
    let bytes = config::serialize(&v, config).unwrap();
    assert_eq!(serialized_size(&v, config).unwrap(), bytes.len() as u64);
    assert_eq!(serialized_size(&v, config).unwrap(), 24);
    assert_eq!(deserialize::<Vec<u32>, _>(&bytes, config).unwrap(), v);
}

#[test]
fn serialize_into_writer() {
    let config = Configuration::default().with_length_encoding::<FixIntLen<u32>>();
    let mut buf = [0u8; 7];
    config::serialize_into(&mut SliceWriter::new(&mut buf[..]), &vec![1u8, 2, 3], config).unwrap();
    assert_eq!(buf, [3, 0, 0, 0, 1, 2, 3]);
    assert_eq!(deserialize::<Vec<u8>, _>(&buf, config).unwrap(), vec![1, 2, 3]);
}

#[test]
fn context_supplies_the_item_count() {
    let config = DefaultConfig::default();
    let bytes = [7u8, 8, 9];
    let v: Vec<u8> = deserialize_with_context(2usize, &bytes, config).unwrap();
    assert_eq!(v, vec![7, 8]);
    assert!(matches!(
        deserialize_with_context::<usize, Vec<u8>, _>(4usize, &bytes, config),
        Err(ReadError::Io(IoReadError::ReadSizeLimit(4)))
    ));
}

#[test]
fn deserialize_from_mutable_slice() {
    let config = DefaultConfig::default();
    let mut bytes = encode(&0x55u32).unwrap();
    let value: u32 = deserialize_mut(&mut bytes[..], config).unwrap();
    assert_eq!(value, 0x55);
}

#[test]
fn zero_copy_reads_in_place() {
    let config = DefaultConfig::default();
    let bytes = [42u8, 7];
    assert_eq!(*<u8 as ZeroCopy<_>>::from_bytes(&bytes, config).unwrap(), 42);
    let mut bytes = [42u8];
    {
        let b = <u8 as ZeroCopy<_>>::from_bytes_mut(&mut bytes, config).unwrap();
        *b = 9;
    }
    assert_eq!(bytes, [9]);
}

#[test]
fn failed_decode_into_leaves_destination() {
    let mut dst = 77u64;
    assert!(decode_into(&[1u8, 2][..], &mut dst).is_err());
    assert_eq!(dst, 77);
}

#[test]
fn exact_decode_reports_trailing_bytes() {
    let mut bytes = encode(&vec![1u8]).unwrap();
    bytes.push(0);
    assert!(matches!(decode_exact::<Vec<u8>>(&bytes), Err(ReadError::TrailingBytes)));
    assert_eq!(decode::<Vec<u8>>(&bytes[..]).unwrap(), vec![1]);
}
