use vstd::prelude::*;
use vstd::string::StringExecFns;

use crate::errors::{FieldId, ReadError};
use crate::reader::{
    all_digits, dec_value, is_ascii_digit, lemma_dec_value_bound, lemma_dec_value_single, pow10,
    spec_read_decimal, ReadResult, Reader,
};

verus! {

/// Widths, in bytes, of the sub-fields of one directory entry, as declared
/// at the tail of the leader.
#[derive(Debug, Clone, Copy, PartialEq, Eq, Structural)]
pub struct EntryMap {
    /// Size of the field-length sub-field.
    pub field_length: u8,
    /// Size of the field-position sub-field.
    pub field_position: u8,
    /// Reserved character, expected to be '0'.
    pub reserved: char,
    /// Size of the field-tag sub-field.
    pub field_tag: u8,
}

/// Parses the four entry-map bytes: two width digits, one reserved
/// character, and the tag width digit.
pub open spec fn spec_read_entry_map(data: Seq<u8>, pos: int) -> Result<(EntryMap, int), ReadError> {
    match spec_read_decimal(data, pos, 1, u8::MAX as int) {
        Err(e) => Err(e),
        Ok((field_length, _p)) => match spec_read_decimal(data, pos + 1, 1, u8::MAX as int) {
            Err(e) => Err(e),
            Ok((field_position, _p)) => {
                if pos + 3 > data.len() {
                    Err(ReadError::IoError)
                } else {
                    let reserved = data[pos + 2] as char;
                    match spec_read_decimal(data, pos + 3, 1, u8::MAX as int) {
                        Err(e) => Err(e),
                        Ok((field_tag, _p)) => Ok(
                            (
                                EntryMap {
                                    field_length: field_length as u8,
                                    field_position: field_position as u8,
                                    reserved,
                                    field_tag: field_tag as u8,
                                },
                                pos + 4,
                            ),
                        ),
                    }
                }
            },
        },
    }
}

impl EntryMap {
    pub fn read(reader: &mut Reader) -> (r: ReadResult<EntryMap>)
        ensures
            final(reader).bytes() == old(reader).bytes(),
            match spec_read_entry_map(old(reader).bytes(), old(reader).cursor()) {
                Ok((em, p)) => r == Ok::<EntryMap, ReadError>(em) && final(reader).cursor() == p,
                Err(e) => r == Err::<EntryMap, ReadError>(e),
            },
    {
        let field_length = match reader.read_u8_str(1) {
            Ok(v) => v,
            Err(e) => return Err(e),
        };
        let field_position = match reader.read_u8_str(1) {
            Ok(v) => v,
            Err(e) => return Err(e),
        };
        let reserved = match reader.read_char() {
            Ok(v) => v,
            Err(e) => return Err(e),
        };
        let field_tag = match reader.read_u8_str(1) {
            Ok(v) => v,
            Err(e) => return Err(e),
        };
        Ok(
            EntryMap {
                field_length,
                field_position,
                reserved,
                field_tag,
            },
        )
    }

    /// Width of the field-length sub-field of a directory entry.
    pub fn field_length(&self) -> (r: &u8)
        ensures
            *r == self.field_length,
    {
        &self.field_length
    }

    /// Width of the field-position sub-field of a directory entry.
    pub fn field_position(&self) -> (r: &u8)
        ensures
            *r == self.field_position,
    {
        &self.field_position
    }

    /// Width of the field-tag sub-field of a directory entry.
    pub fn field_tag(&self) -> (r: &u8)
        ensures
            *r == self.field_tag,
    {
        &self.field_tag
    }
}

/// The fixed 24-byte header common to both record kinds.
#[derive(Debug, Clone, PartialEq)]
pub struct Leader {
    record_length: u64,
    interchange_level: char,
    leader_identifier: char,
    code_extension: char,
    version_number: char,
    application_indicator: char,
    field_control_length: u8,
    base_address: u64,
    character_set: String,
    entry_map: EntryMap,
}

/// The mathematical content of a parsed leader.
pub struct LeaderV {
    pub record_length: u64,
    pub interchange_level: char,
    pub leader_identifier: char,
    pub code_extension: char,
    pub version_number: char,
    pub application_indicator: char,
    pub field_control_length: u8,
    pub base_address: u64,
    pub character_set: Seq<char>,
    pub entry_map: EntryMap,
}

impl View for Leader {
    type V = LeaderV;

    closed spec fn view(&self) -> LeaderV {
        LeaderV {
            record_length: self.record_length,
            interchange_level: self.interchange_level,
            leader_identifier: self.leader_identifier,
            code_extension: self.code_extension,
            version_number: self.version_number,
            application_indicator: self.application_indicator,
            field_control_length: self.field_control_length,
            base_address: self.base_address,
            character_set: self.character_set@,
            entry_map: self.entry_map,
        }
    }
}

/// Parses the 24 leader bytes field by field, holding each fixed-position
/// field to the literal its record kind mandates.
pub open spec fn spec_read_leader(data: Seq<u8>, pos: int, is_ddr: bool) -> Result<
    (LeaderV, int),
    ReadError,
> {
    match spec_read_decimal(data, pos, 5, u64::MAX as int) {
        Err(e) => Err(e),
        Ok((record_length, p1)) => {
            if p1 + 1 > data.len() {
                Err(ReadError::IoError)
            } else {
                let interchange_level = data[p1] as char;
                if (is_ddr && interchange_level != '3') || (!is_ddr && interchange_level != ' ') {
                    Err(ReadError::FormatViolation(FieldId::InterchangeLevel))
                } else if p1 + 2 > data.len() {
                    Err(ReadError::IoError)
                } else {
                    let leader_identifier = data[p1 + 1] as char;
                    if (is_ddr && leader_identifier != 'L') || (!is_ddr && leader_identifier
                        != 'D') {
                        Err(ReadError::FormatViolation(FieldId::LeaderIdentifier))
                    } else if p1 + 3 > data.len() {
                        Err(ReadError::IoError)
                    } else {
                        let code_extension = data[p1 + 2] as char;
                        if (is_ddr && code_extension != 'E') || (!is_ddr && code_extension != ' ') {
                            Err(ReadError::FormatViolation(FieldId::CodeExtension))
                        } else if p1 + 4 > data.len() {
                            Err(ReadError::IoError)
                        } else {
                            let version_number = data[p1 + 3] as char;
                            if (is_ddr && version_number != '1') || (!is_ddr && version_number
                                != ' ') {
                                Err(ReadError::FormatViolation(FieldId::VersionNumber))
                            } else if p1 + 5 > data.len() {
                                Err(ReadError::IoError)
                            } else {
                                let application_indicator = data[p1 + 4] as char;
                                if application_indicator != ' ' {
                                    Err(ReadError::FormatViolation(FieldId::ApplicationIndicator))
                                } else {
                                    spec_read_leader_tail(
                                        data,
                                        pos,
                                        is_ddr,
                                        record_length as u64,
                                        interchange_level,
                                        leader_identifier,
                                        code_extension,
                                        version_number,
                                        application_indicator,
                                    )
                                }
                            }
                        }
                    }
                }
            }
        },
    }
}

/// The second half of the leader parse: field control length, base address,
/// character set, and the entry map.
pub open spec fn spec_read_leader_tail(
    data: Seq<u8>,
    pos: int,
    is_ddr: bool,
    record_length: u64,
    interchange_level: char,
    leader_identifier: char,
    code_extension: char,
    version_number: char,
    application_indicator: char,
) -> Result<(LeaderV, int), ReadError> {
    if pos + 12 > data.len() {
        Err(ReadError::IoError)
    } else if data[pos + 10] != (if is_ddr {
        0x30u8
    } else {
        0x20u8
    }) || data[pos + 11] != (if is_ddr {
        0x39u8
    } else {
        0x20u8
    }) {
        Err(ReadError::FormatViolation(FieldId::FieldControlLength))
    } else {
        let field_control_length: u8 = if is_ddr {
            9
        } else {
            0
        };
        match spec_read_decimal(data, pos + 12, 5, u64::MAX as int) {
            Err(e) => Err(e),
            Ok((base_address, _p)) => {
                if pos + 20 > data.len() {
                    Err(ReadError::IoError)
                } else if data[pos + 17] != 0x20u8 || data[pos + 18] != (if is_ddr {
                    0x21u8
                } else {
                    0x20u8
                }) || data[pos + 19] != 0x20u8 {
                    Err(ReadError::FormatViolation(FieldId::CharacterSet))
                } else {
                    match spec_read_entry_map(data, pos + 20) {
                        Err(e) => Err(e),
                        Ok((entry_map, p_end)) => Ok(
                            (
                                LeaderV {
                                    record_length,
                                    interchange_level,
                                    leader_identifier,
                                    code_extension,
                                    version_number,
                                    application_indicator,
                                    field_control_length,
                                    base_address: base_address as u64,
                                    character_set: if is_ddr {
                                        " ! "@
                                    } else {
                                        "   "@
                                    },
                                    entry_map,
                                },
                                p_end,
                            ),
                        ),
                    }
                }
            },
        }
    }
}

/// True when the 24 bytes at `pos` match the fixed-literal table for the
/// given record kind: digits where the lengths stand, the mandated literal
/// characters, and digit entry-map widths.
pub open spec fn leader_bytes_well_formed(data: Seq<u8>, pos: int, is_ddr: bool) -> bool {
    &&& 0 <= pos
    &&& pos + 24 <= data.len()
    &&& all_digits(data.subrange(pos, pos + 5))
    &&& data[pos + 5] == (if is_ddr {
        0x33u8
    } else {
        0x20u8
    })
    &&& data[pos + 6] == (if is_ddr {
        0x4cu8
    } else {
        0x44u8
    })
    &&& data[pos + 7] == (if is_ddr {
        0x45u8
    } else {
        0x20u8
    })
    &&& data[pos + 8] == (if is_ddr {
        0x31u8
    } else {
        0x20u8
    })
    &&& data[pos + 9] == 0x20u8
    &&& data[pos + 10] == (if is_ddr {
        0x30u8
    } else {
        0x20u8
    })
    &&& data[pos + 11] == (if is_ddr {
        0x39u8
    } else {
        0x20u8
    })
    &&& all_digits(data.subrange(pos + 12, pos + 17))
    &&& data[pos + 17] == 0x20u8
    &&& data[pos + 18] == (if is_ddr {
        0x21u8
    } else {
        0x20u8
    })
    &&& data[pos + 19] == 0x20u8
    &&& is_ascii_digit(data[pos + 20])
    &&& is_ascii_digit(data[pos + 21])
    &&& is_ascii_digit(data[pos + 23])
}

/// Law: a leader whose bytes match the fixed-literal table parses
/// successfully, consumes exactly its 24 bytes, and reproduces the declared
/// record length, base address, entry-map widths, and the literal
/// characters its record kind mandates.
pub proof fn lemma_leader_round_trip(data: Seq<u8>, pos: int, is_ddr: bool)
    requires
        leader_bytes_well_formed(data, pos, is_ddr),
    ensures
        spec_read_leader(data, pos, is_ddr) is Ok,
        ({
            let (lv, p) = spec_read_leader(data, pos, is_ddr)->Ok_0;
            &&& p == pos + 24
            &&& lv.record_length == dec_value(data.subrange(pos, pos + 5))
            &&& lv.base_address == dec_value(data.subrange(pos + 12, pos + 17))
            &&& lv.interchange_level == (if is_ddr {
                '3'
            } else {
                ' '
            })
            &&& lv.leader_identifier == (if is_ddr {
                'L'
            } else {
                'D'
            })
            &&& lv.field_control_length == (if is_ddr {
                9u8
            } else {
                0u8
            })
            &&& lv.entry_map.field_length == data[pos + 20] - 0x30
            &&& lv.entry_map.field_position == data[pos + 21] - 0x30
            &&& lv.entry_map.field_tag == data[pos + 23] - 0x30
        }),
{
    lemma_dec_value_bound(data.subrange(pos, pos + 5));
    lemma_dec_value_bound(data.subrange(pos + 12, pos + 17));
    assert(pow10(5) == 100000) by {
        reveal_with_fuel(pow10, 6);
    }
    assert(data.subrange(pos + 20, pos + 21) =~= seq![data[pos + 20]]);
    assert(data.subrange(pos + 21, pos + 22) =~= seq![data[pos + 21]]);
    assert(data.subrange(pos + 23, pos + 24) =~= seq![data[pos + 23]]);
    lemma_dec_value_single(data.subrange(pos + 20, pos + 21));
    lemma_dec_value_single(data.subrange(pos + 21, pos + 22));
    lemma_dec_value_single(data.subrange(pos + 23, pos + 24));
}

/// A parsed leader consumes exactly its 24 bytes, which all lie within the
/// data.
pub proof fn lemma_leader_advance(data: Seq<u8>, pos: int, is_ddr: bool)
    requires
        spec_read_leader(data, pos, is_ddr) is Ok,
    ensures
        (spec_read_leader(data, pos, is_ddr)->Ok_0).1 == pos + 24,
        pos + 24 <= data.len(),
{
}

impl Leader {
    /// Declared field control length: 9 for the schema record, 0 for a data
    /// record.
    pub fn field_control_length(&self) -> (r: &u8)
        ensures
            *r == self@.field_control_length,
    {
        &self.field_control_length
    }

    /// The declared directory sub-field widths.
    pub fn entry_map(&self) -> (r: &EntryMap)
        ensures
            *r == self@.entry_map,
    {
        &self.entry_map
    }

    /// Declared length in bytes of the whole record.
    pub fn record_length(&self) -> (r: &u64)
        ensures
            *r == self@.record_length,
    {
        &self.record_length
    }

    /// Declared start address of the field area.
    pub fn base_address(&self) -> (r: &u64)
        ensures
            *r == self@.base_address,
    {
        &self.base_address
    }

    /// The interchange level character: '3' for the schema record, ' ' for
    /// a data record.
    pub fn interchange_level(&self) -> (r: char)
        ensures
            r == self@.interchange_level,
    {
        self.interchange_level
    }

    /// The leader identifier character: 'L' for the schema record, 'D' for
    /// a data record.
    pub fn leader_identifier(&self) -> (r: char)
        ensures
            r == self@.leader_identifier,
    {
        self.leader_identifier
    }

    /// The in-line code extension indicator character.
    pub fn code_extension(&self) -> (r: char)
        ensures
            r == self@.code_extension,
    {
        self.code_extension
    }

    /// The version number character.
    pub fn version_number(&self) -> (r: char)
        ensures
            r == self@.version_number,
    {
        self.version_number
    }

    /// The application indicator character.
    pub fn application_indicator(&self) -> (r: char)
        ensures
            r == self@.application_indicator,
    {
        self.application_indicator
    }

    /// The extended character set indicator text.
    pub fn character_set(&self) -> (r: &String)
        ensures
            r@ == self@.character_set,
    {
        &self.character_set
    }

    /// Reads the leader of the data descriptive (schema) record.
    pub fn read_ddr(reader: &mut Reader) -> (r: ReadResult<Leader>)
        ensures
            final(reader).bytes() == old(reader).bytes(),
            match spec_read_leader(old(reader).bytes(), old(reader).cursor(), true) {
                Ok((lv, p)) => r is Ok && r->Ok_0@ == lv && final(reader).cursor() == p,
                Err(e) => r == Err::<Leader, ReadError>(e),
            },
    {
        Leader::read(reader, true)
    }

    /// Reads the leader of a data record.
    pub fn read_dr(reader: &mut Reader) -> (r: ReadResult<Leader>)
        ensures
            final(reader).bytes() == old(reader).bytes(),
            match spec_read_leader(old(reader).bytes(), old(reader).cursor(), false) {
                Ok((lv, p)) => r is Ok && r->Ok_0@ == lv && final(reader).cursor() == p,
                Err(e) => r == Err::<Leader, ReadError>(e),
            },
    {
        Leader::read(reader, false)
    }

    fn read(reader: &mut Reader, is_ddr: bool) -> (r: ReadResult<Leader>)
        ensures
            final(reader).bytes() == old(reader).bytes(),
            match spec_read_leader(old(reader).bytes(), old(reader).cursor(), is_ddr) {
                Ok((lv, p)) => r is Ok && r->Ok_0@ == lv && final(reader).cursor() == p,
                Err(e) => r == Err::<Leader, ReadError>(e),
            },
    {
        let record_length = match reader.read_u64_str(5) {
            Ok(v) => v,
            Err(e) => return Err(e),
        };
        let interchange_level = match reader.read_char() {
            Ok(v) => v,
            Err(e) => return Err(e),
        };
        if (is_ddr && interchange_level != '3') || (!is_ddr && interchange_level != ' ') {
            return Err(ReadError::FormatViolation(FieldId::InterchangeLevel));
        }
        let leader_identifier = match reader.read_char() {
            Ok(v) => v,
            Err(e) => return Err(e),
        };
        if (is_ddr && leader_identifier != 'L') || (!is_ddr && leader_identifier != 'D') {
            return Err(ReadError::FormatViolation(FieldId::LeaderIdentifier));
        }
        let code_extension = match reader.read_char() {
            Ok(v) => v,
            Err(e) => return Err(e),
        };
        if (is_ddr && code_extension != 'E') || (!is_ddr && code_extension != ' ') {
            return Err(ReadError::FormatViolation(FieldId::CodeExtension));
        }
        let version_number = match reader.read_char() {
            Ok(v) => v,
            Err(e) => return Err(e),
        };
        if (is_ddr && version_number != '1') || (!is_ddr && version_number != ' ') {
            return Err(ReadError::FormatViolation(FieldId::VersionNumber));
        }
        let application_indicator = match reader.read_char() {
            Ok(v) => v,
            Err(e) => return Err(e),
        };
        if application_indicator != ' ' {
            return Err(ReadError::FormatViolation(FieldId::ApplicationIndicator));
        }
        let fcl_bytes = match reader.read_bytes(2) {
            Ok(v) => v,
            Err(e) => return Err(e),
        };
        let fcl_expect_0: u8 = if is_ddr {
            0x30
        } else {
            0x20
        };
        let fcl_expect_1: u8 = if is_ddr {
            0x39
        } else {
            0x20
        };
        if fcl_bytes[0] != fcl_expect_0 || fcl_bytes[1] != fcl_expect_1 {
            return Err(ReadError::FormatViolation(FieldId::FieldControlLength));
        }
        let field_control_length: u8 = if is_ddr {
            9
        } else {
            0
        };
        let base_address = match reader.read_u64_str(5) {
            Ok(v) => v,
            Err(e) => return Err(e),
        };
        let cs_bytes = match reader.read_bytes(3) {
            Ok(v) => v,
            Err(e) => return Err(e),
        };
        let cs_expect_1: u8 = if is_ddr {
            0x21
        } else {
            0x20
        };
        if cs_bytes[0] != 0x20 || cs_bytes[1] != cs_expect_1 || cs_bytes[2] != 0x20 {
            return Err(ReadError::FormatViolation(FieldId::CharacterSet));
        }
        let character_set = if is_ddr {
            String::from_str(" ! ")
        } else {
            String::from_str("   ")
        };
        let entry_map = match EntryMap::read(reader) {
            Ok(v) => v,
            Err(e) => return Err(e),
        };
        Ok(
            Leader {
                record_length,
                interchange_level,
                leader_identifier,
                code_extension,
                version_number,
                application_indicator,
                field_control_length,
                base_address,
                character_set,
                entry_map,
            },
        )
    }
}

} // verus!
