use vstd::prelude::*;

verus! {

/// Names the field of the interchange format at which a read failed.
#[derive(Clone, Copy, Debug, PartialEq, Eq, Structural)]
pub enum FieldId {
    InterchangeLevel,
    LeaderIdentifier,
    CodeExtension,
    VersionNumber,
    ApplicationIndicator,
    FieldControlLength,
    CharacterSet,
    Directory,
    FieldControls,
    UnitTerminator,
    FieldTerminator,
    TagPairCount,
    AuxiliaryControls,
    PrintableGraphics,
    DataStructureCode,
    DataTypeCode,
    EscapeSequence,
    FormatControls,
}

/// What can go wrong while decoding a record.
///
/// Every failure is fatal to the record being read: the decoder propagates
/// the first error to the caller and attempts no repair.
#[derive(Clone, Copy, Debug, PartialEq, Eq, Structural)]
pub enum ReadError {
    /// The byte source ended before a requested read completed.
    IoError,
    /// Bytes expected to hold text are not a valid UTF-8 encoding.
    Utf8Error,
    /// Bytes expected to hold an unsigned decimal number are not all digits,
    /// or the value does not fit the requested integer width.
    IntError,
    /// A mandated literal or coded character does not have its required
    /// value; names the offending field.
    FormatViolation(FieldId),
    /// A structural fault: a truncated directory, a missing terminator, or a
    /// tag-pair length that does not divide evenly.
    BadStructure(FieldId),
    /// A data field names a tag with no schema entry, or its bytes disagree
    /// with what the schema's format controls demand.
    SchemaMismatch,
}

} // verus!
