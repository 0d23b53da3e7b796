use vstd::prelude::*;
use vstd::string::{StrSliceExecFns, StringExecFns};
use vstd::utf8::{decode_utf8, valid_utf8};

use crate::errors::{FieldId, ReadError};
use crate::reader::{find_byte, ReadResult, Reader};
use crate::{FIELD_TERMINATOR, UNIT_TERMINATOR};

verus! {

/// The declared structure of a field's data.
#[derive(Debug, Clone, Copy, PartialEq, Eq, Structural)]
pub enum DataStructure {
    SingleDataItem,
    LinearStructure,
    MultiDimensionalStructure,
    Unknown3,
}

/// The declared type of a field's data.
#[derive(Debug, Clone, Copy, PartialEq, Eq, Structural)]
pub enum DataType {
    CharacterString,
    ImplicitPoint,
    ExplicitPoint,
    Binary,
    Mixed,
}

/// The lexical level declared by a truncated escape sequence.
#[derive(Debug, Clone, Copy, PartialEq, Eq, Structural)]
pub enum LexicalLevel {
    Level0,
    Level1,
    Level2,
    UnknownG,
}

/// Maps a data-structure code character to its enumerated value; any
/// character outside the accepted set maps to nothing.
pub open spec fn spec_data_structure_from_char(value: char) -> Option<DataStructure> {
    if value == '0' {
        Some(DataStructure::SingleDataItem)
    } else if value == '1' {
        Some(DataStructure::LinearStructure)
    } else if value == '2' {
        Some(DataStructure::MultiDimensionalStructure)
    } else if value == '3' {
        Some(DataStructure::Unknown3)
    } else {
        None
    }
}

/// Maps a data-type code character to its enumerated value; any character
/// outside the accepted set maps to nothing.
pub open spec fn spec_data_type_from_char(value: char) -> Option<DataType> {
    if value == '0' {
        Some(DataType::CharacterString)
    } else if value == '1' {
        Some(DataType::ImplicitPoint)
    } else if value == '2' {
        Some(DataType::ExplicitPoint)
    } else if value == '5' {
        Some(DataType::Binary)
    } else if value == '6' {
        Some(DataType::Mixed)
    } else {
        None
    }
}

/// Maps the three escape-sequence bytes to a lexical level; any other byte
/// sequence maps to nothing.
pub open spec fn spec_lexical_level_from_bytes(b: Seq<u8>) -> Option<LexicalLevel> {
    if b == seq![0x20u8, 0x20u8, 0x20u8] {
        Some(LexicalLevel::Level0)
    } else if b == seq![0x2du8, 0x41u8, 0x20u8] {
        Some(LexicalLevel::Level1)
    } else if b == seq![0x25u8, 0x2fu8, 0x40u8] {
        Some(LexicalLevel::Level2)
    } else if b == seq![0x25u8, 0x2fu8, 0x47u8] {
        Some(LexicalLevel::UnknownG)
    } else {
        None
    }
}

impl DataStructure {
    /// Decodes one data-structure code character.
    pub fn from_char(value: char) -> (r: ReadResult<DataStructure>)
        ensures
            match spec_data_structure_from_char(value) {
                Some(ds) => r == Ok::<DataStructure, ReadError>(ds),
                None => r == Err::<DataStructure, ReadError>(
                    ReadError::FormatViolation(FieldId::DataStructureCode),
                ),
            },
    {
        match value {
            '0' => Ok(DataStructure::SingleDataItem),
            '1' => Ok(DataStructure::LinearStructure),
            '2' => Ok(DataStructure::MultiDimensionalStructure),
            '3' => Ok(DataStructure::Unknown3),
            _ => Err(ReadError::FormatViolation(FieldId::DataStructureCode)),
        }
    }
}

impl DataType {
    /// Decodes one data-type code character.
    pub fn from_char(value: char) -> (r: ReadResult<DataType>)
        ensures
            match spec_data_type_from_char(value) {
                Some(dt) => r == Ok::<DataType, ReadError>(dt),
                None => r == Err::<DataType, ReadError>(
                    ReadError::FormatViolation(FieldId::DataTypeCode),
                ),
            },
    {
        match value {
            '0' => Ok(DataType::CharacterString),
            '1' => Ok(DataType::ImplicitPoint),
            '2' => Ok(DataType::ExplicitPoint),
            '5' => Ok(DataType::Binary),
            '6' => Ok(DataType::Mixed),
            _ => Err(ReadError::FormatViolation(FieldId::DataTypeCode)),
        }
    }
}

impl LexicalLevel {
    /// Decodes the three truncated-escape-sequence bytes.
    pub fn from_bytes(b: &Vec<u8>) -> (r: ReadResult<LexicalLevel>)
        ensures
            match spec_lexical_level_from_bytes(b@) {
                Some(ll) => r == Ok::<LexicalLevel, ReadError>(ll),
                None => r == Err::<LexicalLevel, ReadError>(
                    ReadError::FormatViolation(FieldId::EscapeSequence),
                ),
            },
    {
        if b.len() != 3 {
            return Err(ReadError::FormatViolation(FieldId::EscapeSequence));
        }
        if b[0] == 0x20 && b[1] == 0x20 && b[2] == 0x20 {
            proof {
                assert(b@ =~= seq![0x20u8, 0x20u8, 0x20u8]);
            }
            Ok(LexicalLevel::Level0)
        } else if b[0] == 0x2d && b[1] == 0x41 && b[2] == 0x20 {
            proof {
                assert(b@ =~= seq![0x2du8, 0x41u8, 0x20u8]);
            }
            Ok(LexicalLevel::Level1)
        } else if b[0] == 0x25 && b[1] == 0x2f && b[2] == 0x40 {
            proof {
                assert(b@ =~= seq![0x25u8, 0x2fu8, 0x40u8]);
            }
            Ok(LexicalLevel::Level2)
        } else if b[0] == 0x25 && b[1] == 0x2f && b[2] == 0x47 {
            proof {
                assert(b@ =~= seq![0x25u8, 0x2fu8, 0x47u8]);
            }
            Ok(LexicalLevel::UnknownG)
        } else {
            Err(ReadError::FormatViolation(FieldId::EscapeSequence))
        }
    }
}

/// The three coded controls that open a data descriptive field.
#[derive(Debug, Clone, Copy, PartialEq, Eq, Structural)]
pub struct FieldControls {
    pub data_structure: DataStructure,
    pub data_type: DataType,
    pub escape_sequence: LexicalLevel,
}

impl FieldControls {
    /// The declared structure of the field's data.
    pub fn data_structure(&self) -> (r: &DataStructure)
        ensures
            *r == self.data_structure,
    {
        &self.data_structure
    }

    /// The declared type of the field's data.
    pub fn data_type(&self) -> (r: &DataType)
        ensures
            *r == self.data_type,
    {
        &self.data_type
    }

    /// The declared lexical level of the field's text.
    pub fn escape_sequence(&self) -> (r: &LexicalLevel)
        ensures
            *r == self.escape_sequence,
    {
        &self.escape_sequence
    }
}

/// One schema entry: how the data field under the same tag is laid out.
#[derive(Debug, Clone, PartialEq)]
pub struct DataDescriptiveField {
    field_controls: FieldControls,
    field_name: String,
    array_descriptor: String,
    format_controls: String,
}

/// The mathematical content of a parsed data descriptive field.
pub struct DataDescriptiveFieldV {
    pub field_controls: FieldControls,
    pub field_name: Seq<char>,
    pub array_descriptor: Seq<char>,
    pub format_controls: Seq<char>,
}

impl View for DataDescriptiveField {
    type V = DataDescriptiveFieldV;

    closed spec fn view(&self) -> DataDescriptiveFieldV {
        DataDescriptiveFieldV {
            field_controls: self.field_controls,
            field_name: self.field_name@,
            array_descriptor: self.array_descriptor@,
            format_controls: self.format_controls@,
        }
    }
}

/// Parses one data descriptive field: the coded controls, the mandated
/// auxiliary-controls and printable-graphics literals, the escape
/// sequence, then field name, array descriptor and format controls, the
/// first two delimited by unit terminators and the last by the field
/// terminator.
pub open spec fn spec_read_data_descriptive_field(data: Seq<u8>, pos: int) -> Result<
    (DataDescriptiveFieldV, int),
    ReadError,
> {
    if pos + 1 > data.len() {
        Err(ReadError::IoError)
    } else {
        match spec_data_structure_from_char(data[pos] as char) {
            None => Err(ReadError::FormatViolation(FieldId::DataStructureCode)),
            Some(data_structure) => {
                if pos + 2 > data.len() {
                    Err(ReadError::IoError)
                } else {
                    match spec_data_type_from_char(data[pos + 1] as char) {
                        None => Err(ReadError::FormatViolation(FieldId::DataTypeCode)),
                        Some(data_type) => {
                            if pos + 4 > data.len() {
                                Err(ReadError::IoError)
                            } else if data[pos + 2] != 0x30u8 || data[pos + 3] != 0x30u8 {
                                Err(ReadError::FormatViolation(FieldId::AuxiliaryControls))
                            } else if pos + 6 > data.len() {
                                Err(ReadError::IoError)
                            } else if data[pos + 4] != 0x3bu8 || data[pos + 5] != 0x26u8 {
                                Err(ReadError::FormatViolation(FieldId::PrintableGraphics))
                            } else if pos + 9 > data.len() {
                                Err(ReadError::IoError)
                            } else {
                                match spec_lexical_level_from_bytes(data.subrange(pos + 6, pos + 9)) {
                                    None => Err(ReadError::FormatViolation(FieldId::EscapeSequence)),
                                    Some(escape_sequence) => spec_read_descriptive_tail(
                                        data,
                                        pos + 9,
                                        FieldControls { data_structure, data_type, escape_sequence },
                                    ),
                                }
                            }
                        },
                    }
                }
            },
        }
    }
}

/// The three delimited texts that close a data descriptive field.
pub open spec fn spec_read_descriptive_tail(
    data: Seq<u8>,
    pos: int,
    field_controls: FieldControls,
) -> Result<(DataDescriptiveFieldV, int), ReadError> {
    let t1 = find_byte(data, pos, UNIT_TERMINATOR);
    if t1 < 0 {
        Err(ReadError::IoError)
    } else if !valid_utf8(data.subrange(pos, t1)) {
        Err(ReadError::Utf8Error)
    } else {
        let t2 = find_byte(data, t1 + 1, UNIT_TERMINATOR);
        if t2 < 0 {
            Err(ReadError::IoError)
        } else if !valid_utf8(data.subrange(t1 + 1, t2)) {
            Err(ReadError::Utf8Error)
        } else {
            let t3 = find_byte(data, t2 + 1, FIELD_TERMINATOR);
            if t3 < 0 {
                Err(ReadError::IoError)
            } else if !valid_utf8(data.subrange(t2 + 1, t3)) {
                Err(ReadError::Utf8Error)
            } else {
                Ok(
                    (
                        DataDescriptiveFieldV {
                            field_controls,
                            field_name: decode_utf8(data.subrange(pos, t1)),
                            array_descriptor: decode_utf8(data.subrange(t1 + 1, t2)),
                            format_controls: decode_utf8(data.subrange(t2 + 1, t3)),
                        },
                        t3 + 1,
                    ),
                )
            }
        }
    }
}

/// A parsed data descriptive field always moves the cursor forward and
/// never runs past the data.
pub proof fn lemma_ddf_advance(data: Seq<u8>, pos: int)
    requires
        0 <= pos,
        spec_read_data_descriptive_field(data, pos) is Ok,
    ensures
        pos < (spec_read_data_descriptive_field(data, pos)->Ok_0).1 <= data.len(),
{
    let t1 = crate::reader::find_byte(data, pos + 9, UNIT_TERMINATOR);
    crate::reader::lemma_find_byte_bounds(data, pos + 9, UNIT_TERMINATOR);
    if t1 >= 0 {
        crate::reader::lemma_find_byte_bounds(data, t1 + 1, UNIT_TERMINATOR);
        let t2 = crate::reader::find_byte(data, t1 + 1, UNIT_TERMINATOR);
        if t2 >= 0 {
            crate::reader::lemma_find_byte_bounds(data, t2 + 1, FIELD_TERMINATOR);
        }
    }
}

impl DataDescriptiveField {
    pub fn read(reader: &mut Reader) -> (r: ReadResult<DataDescriptiveField>)
        ensures
            final(reader).bytes() == old(reader).bytes(),
            match spec_read_data_descriptive_field(old(reader).bytes(), old(reader).cursor()) {
                Ok((dv, p)) => r is Ok && r->Ok_0@ == dv && final(reader).cursor() == p,
                Err(e) => r == Err::<DataDescriptiveField, ReadError>(e),
            },
    {
        let ds_char = match reader.read_char() {
            Ok(v) => v,
            Err(e) => return Err(e),
        };
        let data_structure = match DataStructure::from_char(ds_char) {
            Ok(v) => v,
            Err(e) => return Err(e),
        };
        let dt_char = match reader.read_char() {
            Ok(v) => v,
            Err(e) => return Err(e),
        };
        let data_type = match DataType::from_char(dt_char) {
            Ok(v) => v,
            Err(e) => return Err(e),
        };
        let auxiliary_controls = match reader.read_bytes(2) {
            Ok(v) => v,
            Err(e) => return Err(e),
        };
        if auxiliary_controls[0] != 0x30 || auxiliary_controls[1] != 0x30 {
            return Err(ReadError::FormatViolation(FieldId::AuxiliaryControls));
        }
        let printable_graphics = match reader.read_bytes(2) {
            Ok(v) => v,
            Err(e) => return Err(e),
        };
        if printable_graphics[0] != 0x3b || printable_graphics[1] != 0x26 {
            return Err(ReadError::FormatViolation(FieldId::PrintableGraphics));
        }
        let escape_bytes = match reader.read_bytes(3) {
            Ok(v) => v,
            Err(e) => return Err(e),
        };
        let escape_sequence = match LexicalLevel::from_bytes(&escape_bytes) {
            Ok(v) => v,
            Err(e) => return Err(e),
        };
        let field_name = match reader.read_str_ut() {
            Ok(v) => v,
            Err(e) => return Err(e),
        };
        let array_descriptor = match reader.read_str_ut() {
            Ok(v) => v,
            Err(e) => return Err(e),
        };
        let format_controls = match reader.read_str_ft() {
            Ok(v) => v,
            Err(e) => return Err(e),
        };
        let field_controls = FieldControls { data_structure, data_type, escape_sequence };
        Ok(
            DataDescriptiveField {
                field_controls,
                field_name,
                array_descriptor,
                format_controls,
            },
        )
    }

    /// The coded controls of this schema entry.
    pub fn field_controls(&self) -> (r: &FieldControls)
        ensures
            *r == self@.field_controls,
    {
        &self.field_controls
    }

    /// The declared human-readable name of the field.
    pub fn field_name(&self) -> (r: &String)
        ensures
            r@ == self@.field_name,
    {
        &self.field_name
    }

    /// The declared sub-field tag list, '!'-delimited, possibly empty.
    pub fn array_descriptor(&self) -> (r: &String)
        ensures
            r@ == self@.array_descriptor,
    {
        &self.array_descriptor
    }

    /// The declared format-control string, such as a parenthesized list of
    /// binary and text formats.
    pub fn format_controls(&self) -> (r: &String)
        ensures
            r@ == self@.format_controls,
    {
        &self.format_controls
    }

    /// The names the array descriptor declares for this field's sub-field
    /// values, in order; decoded values pair with these names, repeating
    /// the list when the field itself repeats.
    #[verifier::loop_isolation(false)]
    pub fn sub_field_names(&self) -> (r: Vec<String>)
        ensures
            r@.map_values(|t: String| t@) == spec_split_descriptor(self@.array_descriptor),
    {
        let s = self.array_descriptor.as_str();
        let len = s.unicode_len();
        let mut out: Vec<String> = Vec::new();
        if len == 0 {
            proof {
                assert(out@.map_values(|t: String| t@) =~= Seq::<Seq<char>>::empty());
            }
            return out;
        }
        let mut i: usize = if s.get_char(0) == '*' {
            1
        } else {
            0
        };
        let ghost start = i as int;
        proof {
            assert(out@.map_values(|t: String| t@) =~= Seq::<Seq<char>>::empty());
            assert(Seq::<Seq<char>>::empty() + spec_split_tags(s@, start) =~= spec_split_tags(
                s@,
                start,
            ));
        }
        while i < len
            invariant
                start <= i <= len,
                spec_split_descriptor(self@.array_descriptor) == out@.map_values(|t: String| t@)
                    + spec_split_tags(s@, i as int),
            decreases len - i,
        {
            let mut j: usize = i;
            while j < len
                invariant
                    i <= j <= len,
                    find_char(s@, i as int, '!') == find_char(s@, j as int, '!'),
                decreases len - j,
            {
                if s.get_char(j) == '!' {
                    break ;
                }
                j = j + 1;
            }
            let part = String::from_str(s.substring_char(i, j));
            let ghost prev = out@.map_values(|t: String| t@);
            out.push(part);
            proof {
                assert(out@.map_values(|t: String| t@) =~= prev + seq![part@]);
            }
            if j == len {
                proof {
                    assert(find_char(s@, i as int, '!') == -1);
                    assert(s@.subrange(i as int, s@.len() as int) == part@);
                    assert(spec_split_tags(s@, i as int) =~= seq![part@]);
                    assert(prev + seq![part@] + Seq::<Seq<char>>::empty() =~= prev + seq![part@]);
                }
                i = len;
            } else {
                proof {
                    lemma_find_char_bounds(s@, i as int, '!');
                    assert(find_char(s@, i as int, '!') == j);
                    assert(spec_split_tags(s@, i as int) == seq![part@] + spec_split_tags(
                        s@,
                        j + 1,
                    ));
                    assert(prev + (seq![part@] + spec_split_tags(s@, j + 1)) =~= (prev + seq![
                        part@,
                    ]) + spec_split_tags(s@, j + 1));
                }
                i = j + 1;
            }
        }
        proof {
            assert(out@.map_values(|t: String| t@) + Seq::<Seq<char>>::empty() =~= out@.map_values(
                |t: String| t@,
            ));
        }
        out
    }
}

/// The position of the first occurrence of `c` in `s` at or after `pos`,
/// or -1 when there is none.
pub open spec fn find_char(s: Seq<char>, pos: int, c: char) -> int
    decreases s.len() - pos,
    when pos <= s.len()
{
    if pos < 0 {
        find_char(s, 0, c)
    } else if pos >= s.len() {
        -1
    } else if s[pos] == c {
        pos
    } else {
        find_char(s, pos + 1, c)
    }
}

/// A found character lies within the text, at or after where the search
/// began.
pub proof fn lemma_find_char_bounds(s: Seq<char>, pos: int, c: char)
    requires
        0 <= pos <= s.len(),
    ensures
        find_char(s, pos, c) >= 0 ==> pos <= find_char(s, pos, c) < s.len() && s[find_char(
            s,
            pos,
            c,
        )] == c,
    decreases s.len() - pos,
{
    if pos < s.len() && s[pos] != c {
        lemma_find_char_bounds(s, pos + 1, c);
    }
}

/// The sub-field names between '!' separators, from `i` on. A trailing
/// separator yields no empty trailing name.
pub open spec fn spec_split_tags(s: Seq<char>, i: int) -> Seq<Seq<char>>
    decreases s.len() - i,
    when 0 <= i <= s.len()
    via spec_split_tags_decreases
{
    if i >= s.len() {
        Seq::empty()
    } else {
        let j = find_char(s, i, '!');
        if j < 0 {
            seq![s.subrange(i, s.len() as int)]
        } else {
            seq![s.subrange(i, j)] + spec_split_tags(s, j + 1)
        }
    }
}

#[via_fn]
proof fn spec_split_tags_decreases(s: Seq<char>, i: int) {
    if i < s.len() {
        lemma_find_char_bounds(s, i, '!');
    }
}

/// The sub-field names an array descriptor declares: its '!'-separated
/// parts, after any leading '*', which marks the field as repeating.
pub open spec fn spec_split_descriptor(s: Seq<char>) -> Seq<Seq<char>> {
    if s.len() == 0 {
        Seq::empty()
    } else if s[0] == '*' {
        spec_split_tags(s, 1)
    } else {
        spec_split_tags(s, 0)
    }
}

/// Law: the data-structure code mapping accepts exactly its four
/// characters, and no two accepted characters share an enumerated value.
pub proof fn lemma_data_structure_code_mapping(c1: char, c2: char)
    ensures
        spec_data_structure_from_char(c1) is Some <==> (c1 == '0' || c1 == '1' || c1 == '2' || c1
            == '3'),
        (spec_data_structure_from_char(c1) is Some && spec_data_structure_from_char(c1)
            == spec_data_structure_from_char(c2)) ==> c1 == c2,
{
}

/// Law: the data-type code mapping accepts exactly its five characters,
/// and no two accepted characters share an enumerated value.
pub proof fn lemma_data_type_code_mapping(c1: char, c2: char)
    ensures
        spec_data_type_from_char(c1) is Some <==> (c1 == '0' || c1 == '1' || c1 == '2' || c1 == '5'
            || c1 == '6'),
        (spec_data_type_from_char(c1) is Some && spec_data_type_from_char(c1)
            == spec_data_type_from_char(c2)) ==> c1 == c2,
{
}

/// Law: the lexical-level mapping accepts exactly its four escape
/// sequences, and no two accepted sequences share an enumerated value.
pub proof fn lemma_lexical_level_mapping(b1: Seq<u8>, b2: Seq<u8>)
    ensures
        spec_lexical_level_from_bytes(b1) is Some <==> (b1 == seq![0x20u8, 0x20u8, 0x20u8] || b1
            == seq![0x2du8, 0x41u8, 0x20u8] || b1 == seq![0x25u8, 0x2fu8, 0x40u8] || b1 == seq![
            0x25u8,
            0x2fu8,
            0x47u8,
        ]),
        (spec_lexical_level_from_bytes(b1) is Some && spec_lexical_level_from_bytes(b1)
            == spec_lexical_level_from_bytes(b2)) ==> b1 == b2,
{
}

} // verus!
