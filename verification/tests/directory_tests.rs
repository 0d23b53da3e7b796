use iso8211::{Directory, FieldId, Leader, ReadError, ReadResult, Reader};

const FIELD_TERMINATOR: u8 = 0x1e;

fn ascii_ddr_leader() -> ReadResult<Leader> {
    let bytes = "019003LE1 0900319 ! 5504".as_bytes().to_vec();
    let mut reader = Reader::new(bytes);
    Leader::read_ddr(&mut reader)
}

pub fn ascii_ddr_directory() -> ReadResult<(Leader, Directory)> {
    let leader = ascii_ddr_leader()?;

    let bytes = [
        "0000001630000000010004400163FRID0011400207FOID0007400321ATTF0006000395".as_bytes(),
        "NATF0006900450FFPC0008900524FFPT0008300613FSPC0008900696FSPT0009100785".as_bytes(),
        "VRID0008300876ATTV0005900959VRPC0007001018VRPT0007701088SGCC0005901165".as_bytes(),
        "SG2D0004601224SG3D0005101270ARCC0007801321AR2D0006001399EL2D0007401459".as_bytes(),
        "CT2D0004801533".as_bytes(),
        &[FIELD_TERMINATOR],
    ]
    .concat();
    let mut reader = Reader::new(bytes);

    let directory = Directory::read(&mut reader, &leader)?;

    Ok((leader, directory))
}

#[test]
fn test_ddr_directory() {
    let target = ascii_ddr_directory();

    assert_eq!(target.is_ok(), true);

    let target = target.unwrap().1;
    assert_eq!(target.entries().len(), 21);
}

#[test]
fn directory_single_entry_scenario() {
    let leader = ascii_ddr_leader().unwrap();
    let bytes = ["FRID0011400207".as_bytes(), &[FIELD_TERMINATOR]].concat();
    let total = bytes.len();
    let mut reader = Reader::new(bytes);
    let directory = Directory::read(&mut reader, &leader).unwrap();
    assert_eq!(directory.entries().len(), 1);
    let entry = &directory.entries()[0];
    assert_eq!(entry.field_tag(), "FRID");
    assert_eq!(*entry.field_length(), 114);
    assert_eq!(*entry.field_position(), 207);
    // The cursor stands exactly one byte past the terminator.
    assert_eq!(reader.position(), total);
}

#[test]
fn directory_empty_is_valid() {
    let leader = ascii_ddr_leader().unwrap();
    let bytes = vec![FIELD_TERMINATOR];
    let mut reader = Reader::new(bytes);
    let directory = Directory::read(&mut reader, &leader).unwrap();
    assert_eq!(directory.entries().len(), 0);
    assert_eq!(reader.position(), 1);
}

#[test]
fn directory_truncated_is_structural() {
    let leader = ascii_ddr_leader().unwrap();
    // An entry starts but the stream ends before the terminator.
    let bytes = "FRID001".as_bytes().to_vec();
    let mut reader = Reader::new(bytes);
    let target = Directory::read(&mut reader, &leader);
    assert_eq!(
        target.unwrap_err(),
        ReadError::BadStructure(FieldId::Directory)
    );
}
