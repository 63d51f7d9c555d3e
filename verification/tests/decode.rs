use wincode::decode::{decode, decode_exact, decode_into, decode_via};
use wincode::encode;
use wincode::len::BincodeLen;
use wincode::schema::containers::VecOf;

#[test]
fn decode_infers_type() {
    let bytes = encode::encode(&42u32).unwrap();
    let value: u32 = decode(&bytes[..]).unwrap();
    assert_eq!(value, 42);
}

#[test]
fn decode_via_explicit_container_schema() {
    let value: Vec<u8> = vec![10, 20, 30];
    let bytes = encode::encode(&value).unwrap();
    let decoded: Vec<u8> = decode_via::<VecOf<u8, BincodeLen>>(&bytes[..]).unwrap();
    assert_eq!(decoded, value);
}

#[test]
fn decode_into_maybe_uninit() {
    let bytes = encode::encode(&0xDEAD_BEEF_u64).unwrap();
    let mut dst = 0u64;
    decode_into(&bytes[..], &mut dst).unwrap();
    assert_eq!(dst, 0xDEAD_BEEF_u64);
}

#[test]
fn decode_exact_rejects_trailing_bytes() {
    let bytes = encode::encode(&42u32).unwrap();
    assert_eq!(decode_exact::<u32>(&bytes).unwrap(), 42u32);
    let mut extra = bytes.clone();
    extra.push(0xFF);
    assert!(decode_exact::<u32>(&extra).is_err());
}
