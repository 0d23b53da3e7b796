use vstd::prelude::*;
use vstd::utf8::{decode_utf8, valid_utf8};

use crate::directory::DirectoryEntry;
use crate::errors::{FieldId, ReadError};
use crate::leader::Leader;
use crate::reader::{prepend_parsed, ReadResult, Reader};
use crate::{FIELD_TERMINATOR, UNIT_TERMINATOR};

verus! {

/// One parent/child nesting relation between two field tags.
#[derive(Debug, Clone, PartialEq)]
pub struct TagPair {
    parent: String,
    child: String,
}

/// The mathematical content of a parsed tag pair.
pub struct TagPairV {
    pub parent: Seq<char>,
    pub child: Seq<char>,
}

impl View for TagPair {
    type V = TagPairV;

    closed spec fn view(&self) -> TagPairV {
        TagPairV { parent: self.parent@, child: self.child@ }
    }
}

impl TagPair {
    /// The tag of the enclosing field.
    pub fn parent(&self) -> (r: &String)
        ensures
            r@ == self@.parent,
    {
        &self.parent
    }

    /// The tag of the nested field.
    pub fn child(&self) -> (r: &String)
        ensures
            r@ == self@.child,
    {
        &self.child
    }
}

/// The nine field-control bytes the schema record's first field must open
/// with: the literal text `0000;&` followed by three spaces.
pub open spec fn field_controls_literal() -> Seq<u8> {
    seq![0x30u8, 0x30u8, 0x30u8, 0x30u8, 0x3bu8, 0x26u8, 0x20u8, 0x20u8, 0x20u8]
}

/// Parses one tag pair: two fixed-width tags, parent then child.
pub open spec fn spec_read_tag_pair(data: Seq<u8>, pos: int, w: int) -> Result<
    (TagPairV, int),
    ReadError,
> {
    if pos + w > data.len() {
        Err(ReadError::IoError)
    } else if !valid_utf8(data.subrange(pos, pos + w)) {
        Err(ReadError::Utf8Error)
    } else if pos + 2 * w > data.len() {
        Err(ReadError::IoError)
    } else if !valid_utf8(data.subrange(pos + w, pos + 2 * w)) {
        Err(ReadError::Utf8Error)
    } else {
        Ok(
            (
                TagPairV {
                    parent: decode_utf8(data.subrange(pos, pos + w)),
                    child: decode_utf8(data.subrange(pos + w, pos + 2 * w)),
                },
                pos + 2 * w,
            ),
        )
    }
}

/// Parses exactly `n` tag pairs in sequence.
pub open spec fn spec_read_tag_pairs(data: Seq<u8>, pos: int, w: int, n: nat) -> Result<
    (Seq<TagPairV>, int),
    ReadError,
>
    decreases n,
{
    if n == 0 {
        Ok((Seq::empty(), pos))
    } else {
        match spec_read_tag_pair(data, pos, w) {
            Err(e) => Err(e),
            Ok((tp, p2)) => match spec_read_tag_pairs(data, p2, w, (n - 1) as nat) {
                Err(e) => Err(e),
                Ok((rest, p3)) => Ok((seq![tp] + rest, p3)),
            },
        }
    }
}

/// A successful run of tag pairs has exactly the requested length and ends
/// exactly `2 w n` bytes further on.
pub proof fn lemma_tag_pairs_shape(data: Seq<u8>, pos: int, w: int, n: nat)
    requires
        spec_read_tag_pairs(data, pos, w, n) is Ok,
    ensures
        spec_read_tag_pairs(data, pos, w, n)->Ok_0.0.len() == n,
        spec_read_tag_pairs(data, pos, w, n)->Ok_0.1 == pos + 2 * w * n,
    decreases n,
{
    if n == 0 {
        assert(2 * w * n == 0) by (nonlinear_arith)
            requires
                n == 0,
        ;
    } else {
        let p2 = spec_read_tag_pair(data, pos, w)->Ok_0.1;
        lemma_tag_pairs_shape(data, p2, w, (n - 1) as nat);
        assert(2 * w + 2 * w * ((n - 1) as nat) == 2 * w * n) by (nonlinear_arith)
            requires
                n >= 1,
        ;
    }
}

/// A run of parsed tag pairs never moves backwards and never runs past the
/// data.
pub proof fn lemma_tag_pairs_advance(data: Seq<u8>, pos: int, w: int, n: nat)
    requires
        w >= 0,
        spec_read_tag_pairs(data, pos, w, n) is Ok,
    ensures
        pos <= (spec_read_tag_pairs(data, pos, w, n)->Ok_0).1,
        n >= 1 ==> (spec_read_tag_pairs(data, pos, w, n)->Ok_0).1 <= data.len(),
    decreases n,
{
    if n > 0 {
        let p2 = (spec_read_tag_pair(data, pos, w)->Ok_0).1;
        lemma_tag_pairs_advance(data, p2, w, (n - 1) as nat);
    }
}

/// A parsed field control field always moves the cursor forward and never
/// runs past the data.
pub proof fn lemma_fcf_advance(
    data: Seq<u8>,
    pos: int,
    leader: crate::leader::LeaderV,
    entry: crate::directory::DirectoryEntryV,
)
    requires
        spec_read_file_control_field(data, pos, leader, entry) is Ok,
    ensures
        pos < (spec_read_file_control_field(data, pos, leader, entry)->Ok_0).1 <= data.len(),
{
    let fcl = leader.field_control_length as int;
    let l = entry.field_length as int;
    let w = leader.entry_map.field_tag as int;
    let count = ((l - 11) / (2 * w)) as nat;
    lemma_tag_pairs_advance(data, pos + fcl + 1, w, count);
}

/// The field control field: the ordered tag pairs of the schema record's
/// first field, which declare how field tags nest.
#[derive(Debug, Clone, PartialEq)]
pub struct FileControlField {
    tag_pairs: Vec<TagPair>,
}

impl View for FileControlField {
    type V = Seq<TagPairV>;

    closed spec fn view(&self) -> Seq<TagPairV> {
        self.tag_pairs@.map_values(|p: TagPair| p@)
    }
}

/// Parses the whole field control field: the mandated field-controls
/// literal, a unit terminator, `(L - 11) / (2 W)` tag pairs for a declared
/// field length `L` and tag width `W`, and a closing field terminator.
/// A length that does not divide exactly fails rather than truncating.
pub open spec fn spec_read_file_control_field(
    data: Seq<u8>,
    pos: int,
    leader: crate::leader::LeaderV,
    entry: crate::directory::DirectoryEntryV,
) -> Result<(Seq<TagPairV>, int), ReadError> {
    let fcl = leader.field_control_length as int;
    if pos + fcl > data.len() {
        Err(ReadError::IoError)
    } else if data.subrange(pos, pos + fcl) != field_controls_literal() {
        Err(ReadError::FormatViolation(FieldId::FieldControls))
    } else if pos + fcl + 1 > data.len() {
        Err(ReadError::IoError)
    } else if data[pos + fcl] != UNIT_TERMINATOR {
        Err(ReadError::BadStructure(FieldId::UnitTerminator))
    } else {
        let l = entry.field_length as int;
        let w = leader.entry_map.field_tag as int;
        if w == 0 || l < 11 || (l - 11) % (2 * w) != 0 {
            Err(ReadError::BadStructure(FieldId::TagPairCount))
        } else {
            let count = ((l - 11) / (2 * w)) as nat;
            match spec_read_tag_pairs(data, pos + fcl + 1, w, count) {
                Err(e) => Err(e),
                Ok((pairs, p3)) => {
                    if p3 + 1 > data.len() {
                        Err(ReadError::IoError)
                    } else if data[p3] != FIELD_TERMINATOR {
                        Err(ReadError::BadStructure(FieldId::FieldTerminator))
                    } else {
                        Ok((pairs, p3 + 1))
                    }
                },
            }
        }
    }
}

impl FileControlField {
    #[verifier::loop_isolation(false)]
    pub fn read(reader: &mut Reader, leader: &Leader, directory_entry: &DirectoryEntry) -> (r:
        ReadResult<FileControlField>)
        ensures
            final(reader).bytes() == old(reader).bytes(),
            match spec_read_file_control_field(
                old(reader).bytes(),
                old(reader).cursor(),
                leader@,
                directory_entry@,
            ) {
                Ok((pairs, p)) => r is Ok && r->Ok_0@ == pairs && final(reader).cursor() == p,
                Err(e) => r == Err::<FileControlField, ReadError>(e),
            },
    {
        let ghost data = reader.bytes();
        let ghost pos0 = reader.cursor();
        let fcl = *leader.field_control_length() as usize;
        let field_controls = match reader.read_bytes(fcl) {
            Ok(v) => v,
            Err(e) => return Err(e),
        };
        if !(field_controls.len() == 9 && field_controls[0] == 0x30 && field_controls[1] == 0x30
            && field_controls[2] == 0x30 && field_controls[3] == 0x30 && field_controls[4] == 0x3b
            && field_controls[5] == 0x26 && field_controls[6] == 0x20 && field_controls[7] == 0x20
            && field_controls[8] == 0x20) {
            proof {
                assert(field_controls@ != field_controls_literal());
            }
            return Err(ReadError::FormatViolation(FieldId::FieldControls));
        }
        proof {
            assert(field_controls@ =~= field_controls_literal());
        }
        let ut = match reader.read_u8() {
            Ok(v) => v,
            Err(e) => return Err(e),
        };
        if ut != UNIT_TERMINATOR {
            return Err(ReadError::BadStructure(FieldId::UnitTerminator));
        }
        let l = *directory_entry.field_length();
        let w = *leader.entry_map().field_tag() as u64;
        if w == 0 || l < 11 || (l - 11) % (2 * w) != 0 {
            return Err(ReadError::BadStructure(FieldId::TagPairCount));
        }
        let count = (l - 11) / (2 * w);
        let ghost pos2 = reader.cursor();
        let tag_width = *leader.entry_map().field_tag() as usize;
        let mut tag_pairs: Vec<TagPair> = Vec::new();
        let mut i: u64 = 0;
        while i < count
            invariant
                i <= count,
                data == old(reader).bytes(),
                reader.bytes() == data,
                tag_width == leader@.entry_map.field_tag,
                w == leader@.entry_map.field_tag as u64,
                spec_read_tag_pairs(data, pos2, w as int, count as nat) == prepend_parsed(
                    tag_pairs@.map_values(|p: TagPair| p@),
                    spec_read_tag_pairs(data, reader.cursor(), w as int, (count - i) as nat),
                ),
            decreases count - i,
        {
            let ghost cur = reader.cursor();
            let parent = match reader.read_str(tag_width) {
                Ok(v) => v,
                Err(e) => return Err(e),
            };
            let child = match reader.read_str(tag_width) {
                Ok(v) => v,
                Err(e) => return Err(e),
            };
            let ghost prev = tag_pairs@.map_values(|p: TagPair| p@);
            tag_pairs.push(TagPair { parent, child });
            i = i + 1;
            proof {
                let tp = spec_read_tag_pair(data, cur, w as int)->Ok_0.0;
                assert(tag_pairs@.map_values(|p: TagPair| p@) =~= prev + seq![tp]);
                let suffix = spec_read_tag_pairs(
                    data,
                    reader.cursor(),
                    w as int,
                    (count - i) as nat,
                );
                assert(spec_read_tag_pairs(data, cur, w as int, (count - i + 1) as nat)
                    == prepend_parsed(seq![tp], suffix));
                assert(prepend_parsed(prev, prepend_parsed(seq![tp], suffix)) == prepend_parsed(
                    prev + seq![tp],
                    suffix,
                )) by {
                    match suffix {
                        Ok((s, p)) => {
                            assert(prev + (seq![tp] + s) =~= (prev + seq![tp]) + s);
                        },
                        Err(_) => {},
                    }
                }
            }
        }
        proof {
            let prefix = tag_pairs@.map_values(|p: TagPair| p@);
            assert(prefix + Seq::<TagPairV>::empty() =~= prefix);
        }
        let ft = match reader.read_u8() {
            Ok(v) => v,
            Err(e) => return Err(e),
        };
        if ft != FIELD_TERMINATOR {
            return Err(ReadError::BadStructure(FieldId::FieldTerminator));
        }
        Ok(FileControlField { tag_pairs })
    }

    /// The parsed tag pairs, in field order.
    pub fn tag_pairs(&self) -> (r: &Vec<TagPair>)
        ensures
            r@.map_values(|p: TagPair| p@) == self@,
    {
        &self.tag_pairs
    }
}

/// Law: when the field control field parses, the leader's tag width and the
/// directory entry's declared length divide exactly, and the tag-pair count
/// equals `(L - 11) / (2 W)`.
pub proof fn lemma_tag_pair_count(
    data: Seq<u8>,
    pos: int,
    leader: crate::leader::LeaderV,
    entry: crate::directory::DirectoryEntryV,
)
    requires
        spec_read_file_control_field(data, pos, leader, entry) is Ok,
    ensures
        leader.entry_map.field_tag > 0,
        entry.field_length >= 11,
        (entry.field_length - 11) % (2 * leader.entry_map.field_tag as int) == 0,
        spec_read_file_control_field(data, pos, leader, entry)->Ok_0.0.len() == (entry.field_length
            - 11) / (2 * leader.entry_map.field_tag as int),
{
    let fcl = leader.field_control_length as int;
    let l = entry.field_length as int;
    let w = leader.entry_map.field_tag as int;
    let count = ((l - 11) / (2 * w)) as nat;
    lemma_tag_pairs_shape(data, pos + fcl + 1, w, count);
}

/// Law: a declared field length that does not leave an exact number of tag
/// pairs fails the parse; the count is never rounded down.
pub proof fn lemma_tag_pair_count_exact(
    data: Seq<u8>,
    pos: int,
    leader: crate::leader::LeaderV,
    entry: crate::directory::DirectoryEntryV,
)
    requires
        leader.entry_map.field_tag == 0 || entry.field_length < 11 || (entry.field_length - 11) % (
        2 * leader.entry_map.field_tag as int) != 0,
    ensures
        spec_read_file_control_field(data, pos, leader, entry) is Err,
{
}

} // verus!
