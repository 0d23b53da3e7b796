use iso8211::{Directory, FieldId, FileControlField, Leader, ReadError, ReadResult, Reader};

const FIELD_TERMINATOR: u8 = 0x1e;
const UNIT_TERMINATOR: u8 = 0x1f;

fn ascii_ddr_leader() -> ReadResult<Leader> {
    let bytes = "019003LE1 0900319 ! 5504".as_bytes().to_vec();
    let mut reader = Reader::new(bytes);
    Leader::read_ddr(&mut reader)
}

fn ascii_ddr_directory() -> ReadResult<(Leader, Directory)> {
    let leader = ascii_ddr_leader()?;

    let bytes = [
        "0000001630000000010004400163FRID0011400207FOID0007400321ATTF0006000395".as_bytes(),
        "NATF0006900450FFPC0008900524FFPT0008300613FSPC0008900696FSPT0009100785".as_bytes(),
        "VRID0008300876ATTV0005900959VRPC0007001018VRPT0007701088SGCC0005901165".as_bytes(),
        "SG2D0004601224SG3D0005101270ARCC0007801321AR2D0006001399EL2D0007401459".as_bytes(),
        "CT2D0004801533".as_bytes(),
        &[FIELD_TERMINATOR],
    ]
    .concat();
    let mut reader = Reader::new(bytes);

    let directory = Directory::read(&mut reader, &leader)?;

    Ok((leader, directory))
}

pub fn ascii_file_control_field() -> ReadResult<(Leader, Directory, FileControlField)> {
    let data = ascii_ddr_directory()?;

    let bytes = [
        "0000;&   ".as_bytes(),
        &[UNIT_TERMINATOR],
        "0001FRIDFRIDFOIDFRIDATTFFRIDNATFFRIDFFPCFRIDFFPTFRIDFSPCFRID".as_bytes(),
        "FSPT0001VRIDVRIDATTVVRIDVRPCVRIDVRPTVRIDSGCCVRIDSG2DVRIDSG3DVRIDARCCA".as_bytes(),
        "RCCAR2DARCCEL2DARCCCT2D".as_bytes(),
        &[FIELD_TERMINATOR],
    ]
    .concat();
    let mut reader = Reader::new(bytes);
    let file_control_field = FileControlField::read(&mut reader, &data.0, &data.1.entries()[0])?;

    Ok((data.0, data.1, file_control_field))
}

#[test]
fn test_file_control_field() {
    let target = ascii_file_control_field();

    // assert
    assert_eq!(target.is_ok(), true);

    let target = target.unwrap().2;
    assert_eq!(target.tag_pairs().len(), 19);
}

#[test]
fn file_control_field_pairs_are_exact() {
    let target = ascii_file_control_field().unwrap().2;
    let first = &target.tag_pairs()[0];
    assert_eq!(first.parent(), "0001");
    assert_eq!(first.child(), "FRID");
    let last = &target.tag_pairs()[18];
    assert_eq!(last.parent(), "ARCC");
    assert_eq!(last.child(), "CT2D");
}

#[test]
fn file_control_field_inexact_length_fails() {
    // Entry 0 of this directory declares field length 163; with tag width 4
    // the tag pairs take (163 - 11) / 8 = 19 exactly. A declared length of
    // 164 leaves a remainder and must fail, not truncate.
    let leader = ascii_ddr_leader().unwrap();
    let dir_bytes = ["00000016400000".as_bytes(), &[FIELD_TERMINATOR]].concat();
    let mut reader = Reader::new(dir_bytes);
    let directory = Directory::read(&mut reader, &leader).unwrap();

    let bytes = [
        "0000;&   ".as_bytes(),
        &[UNIT_TERMINATOR],
        "0001FRID".as_bytes(),
        &[FIELD_TERMINATOR],
    ]
    .concat();
    let mut reader = Reader::new(bytes);
    let target = FileControlField::read(&mut reader, &leader, &directory.entries()[0]);
    assert_eq!(
        target.unwrap_err(),
        ReadError::BadStructure(FieldId::TagPairCount)
    );
}

#[test]
fn file_control_field_bad_literal_fails() {
    let data = ascii_ddr_directory().unwrap();
    let bytes = [
        "0001;&   ".as_bytes(),
        &[UNIT_TERMINATOR],
        &[FIELD_TERMINATOR],
    ]
    .concat();
    let mut reader = Reader::new(bytes);
    let target = FileControlField::read(&mut reader, &data.0, &data.1.entries()[0]);
    assert_eq!(
        target.unwrap_err(),
        ReadError::FormatViolation(FieldId::FieldControls)
    );
}

#[test]
fn file_control_field_missing_unit_terminator_fails() {
    let data = ascii_ddr_directory().unwrap();
    let bytes = "0000;&   X".as_bytes().to_vec();
    let mut reader = Reader::new(bytes);
    let target = FileControlField::read(&mut reader, &data.0, &data.1.entries()[0]);
    assert_eq!(
        target.unwrap_err(),
        ReadError::BadStructure(FieldId::UnitTerminator)
    );
}
