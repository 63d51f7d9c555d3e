use wincode::config::decode as cdecode;
use wincode::config::encode::{encode, encode_into, encoded_size};
use wincode::config::{self, Configuration};
use wincode::io::SliceWriter;
use wincode::len::FixIntLen;

type FixLenConfig =
    Configuration<true, { config::DEFAULT_PREALLOCATION_SIZE_LIMIT }, FixIntLen<u32>>;

#[test]
fn encode_infers_type() {
    let bytes = encode::<u64, FixLenConfig>(&42u64).unwrap();
    assert_eq!(bytes.len(), 8);
}

#[test]
fn encode_with_explicit_config() {
    let vec: Vec<u8> = vec![1, 2, 3];
    let bytes = encode::<Vec<u8>, FixLenConfig>(&vec).unwrap();
    assert_eq!(bytes.len(), 7);
    let len = u32::from_le_bytes(bytes[..4].try_into().unwrap());
    assert_eq!(len as usize, vec.len());
}

#[test]
fn encode_into_buffer() {
    let mut buf = [0u8; 8];
    encode_into::<u64, FixLenConfig, _>(&mut SliceWriter::new(&mut buf[..]), &0xCAFEu64).unwrap();
    let value: u64 = cdecode::decode::<u64, FixLenConfig>(&buf[..]).unwrap();
    assert_eq!(value, 0xCAFEu64);
}

#[test]
fn encoded_size_with_config() {
    let vec: Vec<u8> = vec![1, 2, 3];
    assert_eq!(encoded_size::<Vec<u8>, FixLenConfig>(&vec).unwrap(), 7);
}
