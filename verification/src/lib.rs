use vstd::prelude::*;

pub mod data_descriptive_field;
pub mod data_field;
pub mod data_record;
pub mod ddf;
pub mod ddr;
pub mod directory;
pub mod errors;
pub mod file_control_field;
pub mod format;
pub mod leader;
pub mod reader;

pub use data_descriptive_field::{
    DataDescriptiveField, DataStructure, DataType, FieldControls, LexicalLevel,
};
pub use data_field::{DataField, SubFieldValue};
pub use data_record::DataRecord;
pub use ddf::DataDescriptiveFile;
pub use ddr::DataDescriptiveRecord;
pub use directory::{Directory, DirectoryEntry};
pub use errors::{FieldId, ReadError};
pub use file_control_field::{FileControlField, TagPair};
pub use leader::{EntryMap, Leader};
pub use reader::{ReadResult, Reader};

verus! {

/// Binary value of the ISO 8211 field terminator.
pub const FIELD_TERMINATOR: u8 = 0x1e;

/// Binary value of the ISO 8211 unit terminator.
pub const UNIT_TERMINATOR: u8 = 0x1f;

/// Binary value of the reserved null byte.
pub const NULL: u8 = 0x00;

} // verus!
