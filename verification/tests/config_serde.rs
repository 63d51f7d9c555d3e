use wincode::config::{deserialize, deserialize_exact, deserialize_from, Configuration, ZeroCopy};
use wincode::io::ReadError as IoReadError;
use wincode::ReadError;

#[test]
fn configured_deserialization_limit_is_enforced() {
    let bytes = 42u64.to_le_bytes();
    let limited = Configuration::default().with_deserialization_size_limit::<4>();

    assert!(matches!(
        deserialize::<u64, _>(&bytes, limited),
        Err(ReadError::Io(IoReadError::ReadSizeLimit(8)))
    ));
    assert!(matches!(
        deserialize_from::<u64, _>(bytes.as_slice(), limited),
        Err(ReadError::Io(IoReadError::ReadSizeLimit(8)))
    ));

    let exact = Configuration::default().with_deserialization_size_limit::<8>();
    assert_eq!(deserialize::<u64, _>(&bytes, exact).unwrap(), 42);

    let disabled = limited.disable_deserialization_size_limit();
    assert_eq!(deserialize::<u64, _>(&bytes, disabled).unwrap(), 42);
}

#[test]
fn exact_deserialization_sees_trailing_bytes_under_limit() {
    let mut bytes = [0u8; 12];
    bytes[..8].copy_from_slice(&42u64.to_le_bytes());
    let limited = Configuration::default().with_deserialization_size_limit::<12>();

    assert!(matches!(
        deserialize_exact::<u64, _>(&bytes, limited),
        Err(ReadError::TrailingBytes)
    ));
    assert_eq!(
        deserialize_exact::<u64, _>(&bytes[..8], limited).unwrap(),
        42
    );
}

#[test]
fn zero_copy_deserialization_honors_limit() {
    let bytes = [42u8];
    let limited = Configuration::default().with_deserialization_size_limit::<0>();

    assert!(matches!(
        <u8 as ZeroCopy<_>>::from_bytes(&bytes, limited),
        Err(ReadError::Io(IoReadError::ReadSizeLimit(1)))
    ));

    let mut bytes = bytes;
    assert!(matches!(
        <u8 as ZeroCopy<_>>::from_bytes_mut(&mut bytes, limited),
        Err(ReadError::Io(IoReadError::ReadSizeLimit(1)))
    ));
}
