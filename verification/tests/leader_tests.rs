use iso8211::{FieldId, Leader, ReadError, ReadResult, Reader};

pub fn ascii_ddr_leader() -> ReadResult<Leader> {
    let bytes = "019003LE1 0900319 ! 5504".as_bytes().to_vec();
    let mut reader = Reader::new(bytes);
    Leader::read_ddr(&mut reader)
}

#[test]
fn test_ddr_leader() {
    let target = ascii_ddr_leader();

    assert_eq!(target.is_ok(), true);

    let target = target.unwrap();
    assert_eq!(*target.record_length(), 01900);
    assert_eq!(target.interchange_level(), '3');
    assert_eq!(target.leader_identifier(), 'L');
    assert_eq!(*target.entry_map().field_length(), 5);
    assert_eq!(*target.entry_map().field_position(), 5);
    assert_eq!(*target.entry_map().field_tag(), 4);
}

pub fn ascii_dr_leader(index: usize) -> ReadResult<Leader> {
    let bytes = [
        "00197 D     00109   5504".as_bytes(),
        "00088 D     00067   5504".as_bytes(),
    ];
    let mut reader = Reader::new(bytes[index].to_vec());
    Leader::read_dr(&mut reader)
}

#[test]
fn test_dr_leader() {
    for i in 0..2 {
        let target = ascii_dr_leader(i);

        assert_eq!(target.is_ok(), true);

        let target = target.unwrap();
        assert_eq!(target.interchange_level(), ' ');
        assert_eq!(target.leader_identifier(), 'D');
    }
}

#[test]
fn leader_rejects_bad_interchange_level() {
    // A data-record leader where the schema record's '3' was expected.
    let bytes = "019004LE1 0900319 ! 5504".as_bytes().to_vec();
    let mut reader = Reader::new(bytes);
    let target = Leader::read_ddr(&mut reader);
    assert_eq!(
        target.unwrap_err(),
        ReadError::FormatViolation(FieldId::InterchangeLevel)
    );
}

#[test]
fn leader_rejects_bad_field_control_length() {
    let bytes = "019003LE1 0800319 ! 5504".as_bytes().to_vec();
    let mut reader = Reader::new(bytes);
    let target = Leader::read_ddr(&mut reader);
    assert_eq!(
        target.unwrap_err(),
        ReadError::FormatViolation(FieldId::FieldControlLength)
    );
}

#[test]
fn leader_rejects_bad_character_set() {
    let bytes = "019003LE1 0900319 % 5504".as_bytes().to_vec();
    let mut reader = Reader::new(bytes);
    let target = Leader::read_ddr(&mut reader);
    assert_eq!(
        target.unwrap_err(),
        ReadError::FormatViolation(FieldId::CharacterSet)
    );
}

#[test]
fn leader_short_input_is_io_error() {
    let bytes = "01900".as_bytes().to_vec();
    let mut reader = Reader::new(bytes);
    let target = Leader::read_ddr(&mut reader);
    assert_eq!(target.unwrap_err(), ReadError::IoError);
}

#[test]
fn leader_non_digit_length_is_int_error() {
    let bytes = "a19003LE1 0900319 ! 5504".as_bytes().to_vec();
    let mut reader = Reader::new(bytes);
    let target = Leader::read_ddr(&mut reader);
    assert_eq!(target.unwrap_err(), ReadError::IntError);
}
