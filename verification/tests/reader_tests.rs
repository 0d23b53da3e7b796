use iso8211::{ReadError, Reader};

const FIELD_TERMINATOR: u8 = 0x1e;
const UNIT_TERMINATOR: u8 = 0x1f;

#[test]
fn reader_peek_does_not_move() {
    let mut reader = Reader::new(vec![0x41, 0x42]);
    assert_eq!(reader.peek_byte().unwrap(), 0x41);
    assert_eq!(reader.position(), 0);
    assert_eq!(reader.read_char().unwrap(), 'A');
    assert_eq!(reader.peek_byte().unwrap(), 0x42);
    assert_eq!(reader.position(), 1);
}

#[test]
fn reader_peek_at_end_fails_in_place() {
    let mut reader = Reader::new(vec![0x41]);
    reader.read_u8().unwrap();
    assert_eq!(reader.peek_byte().unwrap_err(), ReadError::IoError);
    assert_eq!(reader.position(), 1);
}

#[test]
fn reader_decimal_values() {
    let mut reader = Reader::new("01900".as_bytes().to_vec());
    assert_eq!(reader.read_u64_str(5).unwrap(), 1900);
    let mut reader = Reader::new("00000".as_bytes().to_vec());
    assert_eq!(reader.read_u64_str(5).unwrap(), 0);
    let mut reader = Reader::new("9".as_bytes().to_vec());
    assert_eq!(reader.read_u8_str(1).unwrap(), 9);
    let mut reader = Reader::new("18446744073709551615".as_bytes().to_vec());
    assert_eq!(reader.read_u64_str(20).unwrap(), u64::MAX);
}

#[test]
fn reader_decimal_errors() {
    let mut reader = Reader::new("01".as_bytes().to_vec());
    assert_eq!(reader.read_u64_str(5).unwrap_err(), ReadError::IoError);
    let mut reader = Reader::new("01a00".as_bytes().to_vec());
    assert_eq!(reader.read_u64_str(5).unwrap_err(), ReadError::IntError);
    let mut reader = Reader::new("18446744073709551616".as_bytes().to_vec());
    assert_eq!(reader.read_u64_str(20).unwrap_err(), ReadError::IntError);
    let mut reader = Reader::new("300".as_bytes().to_vec());
    assert_eq!(reader.read_u8_str(3).unwrap_err(), ReadError::IntError);
}

#[test]
fn reader_little_endian_values() {
    let mut reader = Reader::new(vec![0x01, 0x02]);
    assert_eq!(reader.read_u64(2).unwrap(), 0x0201);
    let mut reader = Reader::new(vec![0xff, 0xff, 0xff, 0xff, 0xff, 0xff, 0xff, 0xff]);
    assert_eq!(reader.read_u64(8).unwrap(), u64::MAX);
    let mut reader = Reader::new(vec![0x2a]);
    assert_eq!(reader.read_u64(1).unwrap(), 42);
}

#[test]
fn reader_utf8_decoding() {
    // A two-byte encoding decodes to one character; handing the raw bytes
    // back unchanged would give two.
    let mut reader = Reader::new(vec![0xc3, 0xa9]);
    let s = reader.read_str(2).unwrap();
    assert_eq!(s, "\u{e9}");
    assert_eq!(s.chars().count(), 1);
    let mut reader = Reader::new(vec![0xff, 0x41]);
    assert_eq!(reader.read_str(2).unwrap_err(), ReadError::Utf8Error);
}

#[test]
fn reader_terminated_reads() {
    let bytes = [
        "alpha".as_bytes(),
        &[UNIT_TERMINATOR],
        "beta".as_bytes(),
        &[FIELD_TERMINATOR],
        "rest".as_bytes(),
    ]
    .concat();
    let mut reader = Reader::new(bytes);
    assert_eq!(reader.read_str_ut().unwrap(), "alpha");
    assert_eq!(reader.read_str_ft().unwrap(), "beta");
    assert_eq!(reader.position(), 11);
    assert_eq!(reader.read_str_ft().unwrap_err(), ReadError::IoError);
}

#[test]
fn reader_read_bytes_exact() {
    let mut reader = Reader::new(vec![1, 2, 3]);
    assert_eq!(reader.read_bytes(2).unwrap(), vec![1, 2]);
    assert_eq!(reader.read_bytes(2).unwrap_err(), ReadError::IoError);
    assert_eq!(reader.read_bytes(1).unwrap(), vec![3]);
    assert!(reader.is_eof());
}
