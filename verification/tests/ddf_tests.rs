use iso8211::{
    DataDescriptiveField, DataStructure, DataType, FieldId, LexicalLevel, ReadError, ReadResult,
    Reader,
};

const FIELD_TERMINATOR: u8 = 0x1e;
const UNIT_TERMINATOR: u8 = 0x1f;

fn ddf_bytes(index: usize) -> Vec<u8> {
    let cases: [(&str, &str, &str, &str); 20] = [
        ("0500;&   ", "ISO 8211 Record Identifier", "", "(b12)"),
        (
            "1600;&   ",
            "Feature record identifier field",
            "RCNM!RCID!PRIM!GRUP!OBJL!RVER!RUIN",
            "(b11,b14,2b11,2b12,b11)",
        ),
        (
            "1600;&   ",
            "Feature object identifier field",
            "AGEN!FIDN!FIDS",
            "(b12,b14,b12)",
        ),
        (
            "2600;&-A ",
            "Feature record attribute field",
            "*ATTL!ATVL",
            "(b12,A)",
        ),
        (
            "2600;&%/@",
            "Feature record national attribute field",
            "*ATTL!ATVL",
            "(b12,A)",
        ),
        (
            "1600;&   ",
            "Feature record to feature object pointer control field",
            "FFUI!FFIX!NFPT",
            "(b11,2b12)",
        ),
        (
            "2600;&   ",
            "Feature record to feature object pointer field",
            "*LNAM!RIND!COMT",
            "(B(64),b11,A)",
        ),
        (
            "1600;&   ",
            "Feature record to spatial record pointer control field",
            "FSUI!FSIX!NSPT",
            "(b11,2b12)",
        ),
        (
            "2600;&   ",
            "Feature record to spatial record pointer field",
            "*NAME!ORNT!USAG!MASK",
            "(B(40),3b11)",
        ),
        (
            "1600;&   ",
            "Vector record identifier field",
            "RCNM!RCID!RVER!RUIN",
            "(b11,b14,b12,b11)",
        ),
        (
            "2600;&   ",
            "Vector record attribute field",
            "*ATTL!ATVL",
            "(b12,A)",
        ),
        (
            "1600;&   ",
            "Vector record pointer control field",
            "VPUI!VPIX!NVPT",
            "(b11,2b12)",
        ),
        (
            "2600;&   ",
            "Vector record pointer field",
            "*NAME!ORNT!USAG!TOPI!MASK",
            "(B(40),4b11)",
        ),
        (
            "1600;&   ",
            "Coordinate control field",
            "CCUI!CCIX!CCNC",
            "(b11,2b12)",
        ),
        ("2500;&   ", "2-D Coordinate field", "*YCOO!XCOO", "(2b24)"),
        (
            "2500;&   ",
            "3-D Coordinate field",
            "*YCOO!XCOO!VE3D",
            "(3b24)",
        ),
        (
            "1600;&   ",
            "Arc/Curve definition field",
            "ATYP!SURF!ORDR!RESO!FPMF",
            "(3b11,2b14)",
        ),
        (
            "2500;&   ",
            "Arc coordinate field",
            "STPT!CTPT!ENPT*YCOO!XCOO",
            "(2b24)",
        ),
        (
            "2500;&   ",
            "Ellipse coordinate field",
            "STPT!CTPT!ENPT!CDPM!CDPR*YCOO!XCOO",
            "(2b24)",
        ),
        (
            "2500;&   ",
            "Curve coordinate field",
            "*YCOO!XCOO",
            "(2b24)",
        ),
    ];
    let (controls, name, descriptor, formats) = cases[index];
    [
        controls.as_bytes(),
        name.as_bytes(),
        &[UNIT_TERMINATOR],
        descriptor.as_bytes(),
        &[UNIT_TERMINATOR],
        formats.as_bytes(),
        &[FIELD_TERMINATOR],
    ]
    .concat()
}

pub fn ascii_data_descriptive_field(index: usize) -> ReadResult<DataDescriptiveField> {
    let mut reader = Reader::new(ddf_bytes(index));
    let data_descriptive_field = DataDescriptiveField::read(&mut reader)?;
    Ok(data_descriptive_field)
}

#[test]
fn test_data_descriptive_fields() {
    for i in 0..20 {
        let target = ascii_data_descriptive_field(i);
        assert_eq!(target.is_ok(), true);
    }
}

#[test]
fn ddf_scenario_record_identifier() {
    let target = ascii_data_descriptive_field(0).unwrap();
    assert_eq!(target.field_name(), "ISO 8211 Record Identifier");
    assert_eq!(target.array_descriptor(), "");
    assert_eq!(target.format_controls(), "(b12)");
    let controls = target.field_controls();
    assert_eq!(*controls.data_structure(), DataStructure::SingleDataItem);
    assert_eq!(*controls.data_type(), DataType::Binary);
    assert_eq!(*controls.escape_sequence(), LexicalLevel::Level0);
}

#[test]
fn ddf_lexical_levels_are_decoded() {
    let level1 = ascii_data_descriptive_field(3).unwrap();
    assert_eq!(*level1.field_controls().escape_sequence(), LexicalLevel::Level1);
    let level2 = ascii_data_descriptive_field(4).unwrap();
    assert_eq!(*level2.field_controls().escape_sequence(), LexicalLevel::Level2);
}

#[test]
fn data_structure_codes_map_totally_and_injectively() {
    assert_eq!(
        DataStructure::from_char('0').unwrap(),
        DataStructure::SingleDataItem
    );
    assert_eq!(
        DataStructure::from_char('1').unwrap(),
        DataStructure::LinearStructure
    );
    assert_eq!(
        DataStructure::from_char('2').unwrap(),
        DataStructure::MultiDimensionalStructure
    );
    assert_eq!(
        DataStructure::from_char('3').unwrap(),
        DataStructure::Unknown3
    );
    assert_eq!(
        DataStructure::from_char('4').unwrap_err(),
        ReadError::FormatViolation(FieldId::DataStructureCode)
    );
}

#[test]
fn data_type_codes_map_totally_and_injectively() {
    assert_eq!(DataType::from_char('0').unwrap(), DataType::CharacterString);
    assert_eq!(DataType::from_char('1').unwrap(), DataType::ImplicitPoint);
    assert_eq!(DataType::from_char('2').unwrap(), DataType::ExplicitPoint);
    assert_eq!(DataType::from_char('5').unwrap(), DataType::Binary);
    assert_eq!(DataType::from_char('6').unwrap(), DataType::Mixed);
    assert_eq!(
        DataType::from_char('3').unwrap_err(),
        ReadError::FormatViolation(FieldId::DataTypeCode)
    );
}

#[test]
fn ddf_sub_field_names_are_split() {
    let plain = ascii_data_descriptive_field(2).unwrap();
    assert_eq!(plain.sub_field_names(), vec!["AGEN", "FIDN", "FIDS"]);
    let repeating = ascii_data_descriptive_field(3).unwrap();
    assert_eq!(repeating.sub_field_names(), vec!["ATTL", "ATVL"]);
    let empty = ascii_data_descriptive_field(0).unwrap();
    assert_eq!(empty.sub_field_names(), Vec::<String>::new());
}

#[test]
fn ddf_rejects_unknown_escape_sequence() {
    let bytes = [
        "0500;&%%%".as_bytes(),
        "name".as_bytes(),
        &[UNIT_TERMINATOR, UNIT_TERMINATOR],
        "(b12)".as_bytes(),
        &[FIELD_TERMINATOR],
    ]
    .concat();
    let mut reader = Reader::new(bytes);
    let target = DataDescriptiveField::read(&mut reader);
    assert_eq!(
        target.unwrap_err(),
        ReadError::FormatViolation(FieldId::EscapeSequence)
    );
}

#[test]
fn ddf_rejects_bad_auxiliary_controls() {
    let bytes = [
        "0501;&   ".as_bytes(),
        "name".as_bytes(),
        &[UNIT_TERMINATOR, UNIT_TERMINATOR],
        "(b12)".as_bytes(),
        &[FIELD_TERMINATOR],
    ]
    .concat();
    let mut reader = Reader::new(bytes);
    let target = DataDescriptiveField::read(&mut reader);
    assert_eq!(
        target.unwrap_err(),
        ReadError::FormatViolation(FieldId::AuxiliaryControls)
    );
}

#[test]
fn ddf_non_utf8_name_is_encoding_error() {
    let bytes = [
        "0500;&   ".as_bytes(),
        &[0xffu8],
        &[UNIT_TERMINATOR, UNIT_TERMINATOR],
        "(b12)".as_bytes(),
        &[FIELD_TERMINATOR],
    ]
    .concat();
    let mut reader = Reader::new(bytes);
    let target = DataDescriptiveField::read(&mut reader);
    assert_eq!(target.unwrap_err(), ReadError::Utf8Error);
}
