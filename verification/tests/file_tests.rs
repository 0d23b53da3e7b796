use iso8211::{DataDescriptiveFile, FieldId, ReadError, SubFieldValue};

const FIELD_TERMINATOR: u8 = 0x1e;
const UNIT_TERMINATOR: u8 = 0x1f;

fn ddf_bytes(controls: &str, name: &str, descriptor: &str, formats: &str) -> Vec<u8> {
    [
        controls.as_bytes(),
        name.as_bytes(),
        &[UNIT_TERMINATOR],
        descriptor.as_bytes(),
        &[UNIT_TERMINATOR],
        formats.as_bytes(),
        &[FIELD_TERMINATOR],
    ]
    .concat()
}

/// A schema record declaring five data fields, with entry-map widths
/// 2 (length), 1 (position) and 4 (tag).
fn schema_bytes() -> Vec<u8> {
    let mut out: Vec<u8> = Vec::new();
    out.extend_from_slice("000003LE1 0900000 ! 2104".as_bytes());
    for entry in [
        "0000110", "FOID260", "TEXT260", "INTS260", "SGND260", "ATTR260",
    ] {
        out.extend_from_slice(entry.as_bytes());
    }
    out.push(FIELD_TERMINATOR);
    out.extend_from_slice("0000;&   ".as_bytes());
    out.push(UNIT_TERMINATOR);
    out.push(FIELD_TERMINATOR);
    out.extend_from_slice(&ddf_bytes("1600;&   ", "Foid", "AGEN!FIDN", "(b11,b12)"));
    out.extend_from_slice(&ddf_bytes("1600;&   ", "Text", "NAME", "(b11,A)"));
    out.extend_from_slice(&ddf_bytes("1600;&   ", "Ints", "ICNT!BITS", "(I(3),B(16))"));
    out.extend_from_slice(&ddf_bytes("1600;&   ", "Sgnd", "SGN1!SGN4", "(b21,b24)"));
    out.extend_from_slice(&ddf_bytes("2600;&   ", "Attr", "*ATTL!ATVL", "(b12,A)"));
    out
}

fn data_record_bytes() -> Vec<u8> {
    let mut out: Vec<u8> = Vec::new();
    out.extend_from_slice("00000 D     00000   2104".as_bytes());
    for entry in ["FOID040", "TEXT050", "INTS060", "SGND060", "ATTR100"] {
        out.extend_from_slice(entry.as_bytes());
    }
    out.push(FIELD_TERMINATOR);
    // FOID: one unsigned byte, one unsigned two-byte value.
    out.extend_from_slice(&[0x07, 0x34, 0x12, FIELD_TERMINATOR]);
    // TEXT: one unsigned byte, then delimited text.
    out.extend_from_slice(&[0x05]);
    out.extend_from_slice("hi".as_bytes());
    out.extend_from_slice(&[UNIT_TERMINATOR, FIELD_TERMINATOR]);
    // INTS: a three-digit decimal and sixteen bits.
    out.extend_from_slice("042".as_bytes());
    out.extend_from_slice(&[0xab, 0xcd, FIELD_TERMINATOR]);
    // SGND: signed one- and four-byte values.
    out.extend_from_slice(&[0xff, 0xfe, 0xff, 0xff, 0xff, FIELD_TERMINATOR]);
    // ATTR: the format list repeats until the field's content ends.
    out.extend_from_slice(&[0x01, 0x00]);
    out.extend_from_slice("ab".as_bytes());
    out.push(UNIT_TERMINATOR);
    out.extend_from_slice(&[0x02, 0x00]);
    out.extend_from_slice("c".as_bytes());
    out.extend_from_slice(&[UNIT_TERMINATOR, FIELD_TERMINATOR]);
    out
}

fn good_file_bytes() -> Vec<u8> {
    let mut out = schema_bytes();
    out.extend_from_slice(&data_record_bytes());
    out
}

#[test]
fn file_end_to_end_values() {
    let file = DataDescriptiveFile::read(good_file_bytes()).unwrap();
    let ddr = file.data_descriptive_record();
    assert_eq!(ddr.directory().entries().len(), 6);
    assert_eq!(ddr.data_descriptive_fields().len(), 5);
    assert_eq!(ddr.data_descriptive_fields()[1].field_name(), "Text");
    assert_eq!(file.data_records().len(), 1);

    let record = &file.data_records()[0];
    let fields = record.data_fields();
    assert_eq!(fields.len(), 5);

    assert_eq!(fields[0].field_tag(), "FOID");
    assert_eq!(
        *fields[0].sub_fields(),
        vec![SubFieldValue::Unsigned(7), SubFieldValue::Unsigned(0x1234)]
    );
    assert_eq!(
        *fields[1].sub_fields(),
        vec![
            SubFieldValue::Unsigned(5),
            SubFieldValue::Text(String::from("hi")),
        ]
    );
    assert_eq!(
        *fields[2].sub_fields(),
        vec![
            SubFieldValue::Integer(42),
            SubFieldValue::Bits(vec![0xab, 0xcd]),
        ]
    );
    assert_eq!(
        *fields[3].sub_fields(),
        vec![SubFieldValue::Signed(-1), SubFieldValue::Signed(-2)]
    );
    assert_eq!(
        *fields[4].sub_fields(),
        vec![
            SubFieldValue::Unsigned(1),
            SubFieldValue::Text(String::from("ab")),
            SubFieldValue::Unsigned(2),
            SubFieldValue::Text(String::from("c")),
        ]
    );
}

#[test]
fn file_decodes_twice_equal() {
    let first = DataDescriptiveFile::read(good_file_bytes());
    let second = DataDescriptiveFile::read(good_file_bytes());
    assert_eq!(first, second);
    assert!(first.is_ok());
}

#[test]
fn file_truncated_dr_directory_fails() {
    // The schema decodes, but the first data record's directory breaks off
    // before its terminator: the whole read fails and no records come back.
    let mut bytes = schema_bytes();
    bytes.extend_from_slice("00000 D     00000   2104".as_bytes());
    bytes.extend_from_slice("FOID".as_bytes());
    let target = DataDescriptiveFile::read(bytes);
    assert_eq!(
        target.unwrap_err(),
        ReadError::BadStructure(FieldId::Directory)
    );
}

#[test]
fn file_unknown_tag_is_schema_mismatch() {
    let mut bytes = schema_bytes();
    bytes.extend_from_slice("00000 D     00000   2104".as_bytes());
    bytes.extend_from_slice("XXXX040".as_bytes());
    bytes.push(FIELD_TERMINATOR);
    bytes.extend_from_slice(&[0x01, 0x02, 0x03, FIELD_TERMINATOR]);
    let target = DataDescriptiveFile::read(bytes);
    assert_eq!(target.unwrap_err(), ReadError::SchemaMismatch);
}

#[test]
fn file_field_length_disagreeing_with_formats_fails() {
    // FOID's formats need three content bytes; a declared length of three
    // leaves only two before the terminator.
    let mut bytes = schema_bytes();
    bytes.extend_from_slice("00000 D     00000   2104".as_bytes());
    bytes.extend_from_slice("FOID030".as_bytes());
    bytes.push(FIELD_TERMINATOR);
    bytes.extend_from_slice(&[0x07, 0x34, FIELD_TERMINATOR]);
    let target = DataDescriptiveFile::read(bytes);
    assert_eq!(target.unwrap_err(), ReadError::SchemaMismatch);
}

#[test]
fn file_schema_alone_is_complete() {
    let file = DataDescriptiveFile::read(schema_bytes()).unwrap();
    assert_eq!(file.data_records().len(), 0);
}

#[test]
fn file_trailing_garbage_fails() {
    let mut bytes = good_file_bytes();
    bytes.push(0x00);
    let target = DataDescriptiveFile::read(bytes);
    assert!(target.is_err());
}
