use wincode::io::{LimitReader, ReadError, Reader};

#[test]
fn cumulative_reads_respect_limit() {
    let bytes = [1, 2, 3, 4, 5];
    let mut reader = LimitReader::new(bytes.as_slice(), 4);

    assert_eq!(reader.take_array::<2>().unwrap(), [1, 2]);
    assert_eq!(reader.take_byte().unwrap(), 3);
    assert_eq!(reader.take_byte().unwrap(), 4);
    assert!(matches!(reader.take_byte(), Err(ReadError::ReadSizeLimit(1))));
}

#[test]
fn exact_limit_succeeds() {
    let bytes = [1, 2, 3, 4];
    let mut reader = LimitReader::new(bytes.as_slice(), bytes.len());

    assert_eq!(reader.take_array::<4>().unwrap(), bytes);
}

#[test]
fn error_reports_requested_size() {
    let bytes = [0; 8];
    let mut reader = LimitReader::new(bytes.as_slice(), 3);

    assert!(matches!(reader.take_array::<8>(), Err(ReadError::ReadSizeLimit(8))));
}

#[test]
fn trusted_window_reserves_entire_window() {
    let bytes = [1, 2, 3, 4, 5];
    let mut reader = LimitReader::new(bytes.as_slice(), 4);

    {
        let mut trusted = reader.as_trusted_for(3).unwrap();
        assert_eq!(trusted.take_byte().unwrap(), 1);
    }

    assert!(matches!(reader.take_array::<2>(), Err(ReadError::ReadSizeLimit(2))));
}
