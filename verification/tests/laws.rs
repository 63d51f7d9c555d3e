use wincode::config::{self, serialize_into, serialized_size, Configuration, DefaultConfig};
use wincode::decode::{decode, decode_exact};
use wincode::encode::{encode, encoded_size};
use wincode::io::{LimitReader, Reader, SliceWriter};
use wincode::ReadError;

#[test]
fn roundtrip_with_trailing_bytes() {
    let v: Vec<u32> = vec![1, 2, 3];
    let mut bytes = encode(&v).unwrap();
    let n = bytes.len();
    bytes.extend_from_slice(&[9, 9]);
    assert_eq!(decode::<Vec<u32>>(&bytes[..]).unwrap(), v);
    assert_eq!(decode_exact::<Vec<u32>>(&bytes[..n]).unwrap(), v);
    assert!(matches!(decode_exact::<Vec<u32>>(&bytes), Err(ReadError::TrailingBytes)));
}

#[test]
fn size_is_encoding_length() {
    let v: Vec<Vec<u8>> = vec![vec![1, 2], vec![]];
    assert_eq!(encoded_size(&v).unwrap(), encode(&v).unwrap().len());
}

#[test]
fn size_check_suffices_for_writing() {
    let config = DefaultConfig::default();
    let v: Vec<u16> = vec![4, 5, 6];
    let n = serialized_size(&v, config).unwrap() as usize;
    let mut buf = vec![0u8; n];
    serialize_into(&mut SliceWriter::new(&mut buf[..]), &v, config).unwrap();
    assert_eq!(buf, encode(&v).unwrap());
}

#[test]
fn limit_at_least_the_encoding_changes_nothing() {
    let v: Vec<u8> = vec![7, 8, 9];
    let bytes = encode(&v).unwrap();
    let covering = Configuration::default().with_deserialization_size_limit::<11>();
    assert_eq!(config::deserialize::<Vec<u8>, _>(&bytes, covering).unwrap(), v);
    let short = Configuration::default().with_deserialization_size_limit::<10>();
    assert!(matches!(
        config::deserialize::<Vec<u8>, _>(&bytes, short),
        Err(ReadError::Io(wincode::io::ReadError::ReadSizeLimit(3)))
    ));
}

#[test]
fn limited_reader_never_passes_its_limit() {
    let bytes = [0u8; 16];
    let mut reader = LimitReader::new(bytes.as_slice(), 5);
    let mut taken = 0;
    for n in [2usize, 4, 1, 2, 1] {
        if reader.take_borrowed(n).is_ok() {
            taken += n;
        }
    }
    assert_eq!(taken, 5);
    assert_eq!(reader.remaining(), 0);
}
