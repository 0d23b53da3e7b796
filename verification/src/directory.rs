use vstd::prelude::*;
use vstd::utf8::{decode_utf8, valid_utf8};

use crate::errors::{FieldId, ReadError};
use crate::leader::{EntryMap, Leader};
use crate::reader::{spec_read_decimal, ReadResult, Reader};
use crate::FIELD_TERMINATOR;

verus! {

/// One directory line: where a field's data lies and under which tag.
#[derive(Debug, Clone, PartialEq)]
pub struct DirectoryEntry {
    field_length: u64,
    field_position: u64,
    field_tag: String,
}

/// The mathematical content of a parsed directory entry.
pub struct DirectoryEntryV {
    pub field_length: u64,
    pub field_position: u64,
    pub field_tag: Seq<char>,
}

impl View for DirectoryEntry {
    type V = DirectoryEntryV;

    closed spec fn view(&self) -> DirectoryEntryV {
        DirectoryEntryV {
            field_length: self.field_length,
            field_position: self.field_position,
            field_tag: self.field_tag@,
        }
    }
}

/// The number of bytes one directory entry occupies under the given entry
/// map.
pub open spec fn entry_size(em: EntryMap) -> int {
    em.field_tag + em.field_length + em.field_position
}

/// Parses one directory entry: the tag text, then the field length and the
/// field position as fixed-width decimals, at the widths the entry map
/// declares.
pub open spec fn spec_read_directory_entry(data: Seq<u8>, pos: int, em: EntryMap) -> Result<
    (DirectoryEntryV, int),
    ReadError,
> {
    let tw = em.field_tag as int;
    if pos + tw > data.len() {
        Err(ReadError::IoError)
    } else {
        let tag_bytes = data.subrange(pos, pos + tw);
        if !valid_utf8(tag_bytes) {
            Err(ReadError::Utf8Error)
        } else {
            match spec_read_decimal(data, pos + tw, em.field_length as int, u64::MAX as int) {
                Err(e) => Err(e),
                Ok((field_length, p2)) => {
                    match spec_read_decimal(data, p2, em.field_position as int, u64::MAX as int) {
                        Err(e) => Err(e),
                        Ok((field_position, p3)) => Ok(
                            (
                                DirectoryEntryV {
                                    field_length: field_length as u64,
                                    field_position: field_position as u64,
                                    field_tag: decode_utf8(tag_bytes),
                                },
                                p3,
                            ),
                        ),
                    }
                },
            }
        }
    }
}

/// When an entry parses, the cursor lands exactly one entry width further
/// on, still within the data.
pub proof fn lemma_directory_entry_advance(data: Seq<u8>, pos: int, em: EntryMap)
    requires
        spec_read_directory_entry(data, pos, em) is Ok,
    ensures
        spec_read_directory_entry(data, pos, em)->Ok_0.1 == pos + entry_size(em),
        pos + 1 <= pos + entry_size(em) <= data.len(),
{
}

impl DirectoryEntry {
    pub fn read(reader: &mut Reader, leader: &Leader) -> (r: ReadResult<DirectoryEntry>)
        ensures
            final(reader).bytes() == old(reader).bytes(),
            match spec_read_directory_entry(
                old(reader).bytes(),
                old(reader).cursor(),
                leader@.entry_map,
            ) {
                Ok((ev, p)) => r is Ok && r->Ok_0@ == ev && final(reader).cursor() == p,
                Err(e) => r == Err::<DirectoryEntry, ReadError>(e),
            },
    {
        let entry_map = leader.entry_map();
        let field_tag = match reader.read_str(*entry_map.field_tag() as usize) {
            Ok(v) => v,
            Err(e) => return Err(e),
        };
        let field_length = match reader.read_u64_str(*entry_map.field_length() as usize) {
            Ok(v) => v,
            Err(e) => return Err(e),
        };
        let field_position = match reader.read_u64_str(*entry_map.field_position() as usize) {
            Ok(v) => v,
            Err(e) => return Err(e),
        };
        Ok(
            DirectoryEntry {
                field_length,
                field_position,
                field_tag,
            },
        )
    }

    /// Declared length in bytes of the field this entry describes.
    pub fn field_length(&self) -> (r: &u64)
        ensures
            *r == self@.field_length,
    {
        &self.field_length
    }

    /// Declared offset of the field's data within the record's field area.
    pub fn field_position(&self) -> (r: &u64)
        ensures
            *r == self@.field_position,
    {
        &self.field_position
    }

    /// The tag naming the field this entry describes.
    pub fn field_tag(&self) -> (r: &String)
        ensures
            r@ == self@.field_tag,
    {
        &self.field_tag
    }
}

/// Parses directory entries until the field terminator, which is consumed.
///
/// Running out of bytes, either at an entry boundary or inside an entry,
/// is a truncated directory.
pub open spec fn spec_read_directory(data: Seq<u8>, pos: int, em: EntryMap) -> Result<
    (Seq<DirectoryEntryV>, int),
    ReadError,
>
    decreases data.len() - pos,
    when pos <= data.len()
    via spec_read_directory_decreases
{
    if pos >= data.len() {
        Err(ReadError::BadStructure(FieldId::Directory))
    } else if data[pos] == FIELD_TERMINATOR {
        Ok((Seq::empty(), pos + 1))
    } else {
        match spec_read_directory_entry(data, pos, em) {
            Err(ReadError::IoError) => Err(ReadError::BadStructure(FieldId::Directory)),
            Err(e) => Err(e),
            Ok((ev, p2)) => match spec_read_directory(data, p2, em) {
                Err(e) => Err(e),
                Ok((rest, p3)) => Ok((seq![ev] + rest, p3)),
            },
        }
    }
}

#[via_fn]
proof fn spec_read_directory_decreases(data: Seq<u8>, pos: int, em: EntryMap) {
    if pos < data.len() && data[pos] != FIELD_TERMINATOR {
        if spec_read_directory_entry(data, pos, em) is Ok {
            lemma_directory_entry_advance(data, pos, em);
        }
    }
}

/// Appends a prefix of already-parsed entries in front of a parse result.
pub open spec fn prepend_entries(
    prefix: Seq<DirectoryEntryV>,
    r: Result<(Seq<DirectoryEntryV>, int), ReadError>,
) -> Result<(Seq<DirectoryEntryV>, int), ReadError> {
    match r {
        Ok((s, p)) => Ok((prefix + s, p)),
        Err(e) => Err(e),
    }
}

/// The ordered catalog of the fields one record carries.
#[derive(Debug, Clone, PartialEq)]
pub struct Directory {
    entries: Vec<DirectoryEntry>,
}

impl View for Directory {
    type V = Seq<DirectoryEntryV>;

    closed spec fn view(&self) -> Seq<DirectoryEntryV> {
        self.entries@.map_values(|e: DirectoryEntry| e@)
    }
}

impl Directory {
    pub fn read(reader: &mut Reader, leader: &Leader) -> (r: ReadResult<Directory>)
        ensures
            final(reader).bytes() == old(reader).bytes(),
            match spec_read_directory(old(reader).bytes(), old(reader).cursor(), leader@.entry_map) {
                Ok((dv, p)) => r is Ok && r->Ok_0@ == dv && final(reader).cursor() == p,
                Err(e) => r == Err::<Directory, ReadError>(e),
            },
    {
        let ghost data = reader.bytes();
        let ghost pos0 = reader.cursor();
        let ghost em = leader@.entry_map;
        if reader.is_eof() {
            return Err(ReadError::BadStructure(FieldId::Directory));
        }
        let mut entries: Vec<DirectoryEntry> = Vec::new();
        loop
            invariant
                data == old(reader).bytes(),
                pos0 == old(reader).cursor(),
                reader.bytes() == data,
                0 <= pos0 <= data.len(),
                0 <= reader.cursor() <= data.len(),
                leader@.entry_map == em,
                spec_read_directory(data, pos0, em) == prepend_entries(
                    entries@.map_values(|e: DirectoryEntry| e@),
                    spec_read_directory(data, reader.cursor(), em),
                ),
            decreases data.len() - reader.cursor(),
        {
            let ghost cur = reader.cursor();
            let b = match reader.peek_byte() {
                Ok(b) => b,
                Err(_) => {
                    return Err(ReadError::BadStructure(FieldId::Directory));
                },
            };
            if b == FIELD_TERMINATOR {
                match reader.read_char() {
                    Ok(_) => {},
                    Err(e) => {
                        return Err(e);
                    },
                }
                proof {
                    let prefix = entries@.map_values(|e: DirectoryEntry| e@);
                    assert(prefix + Seq::<DirectoryEntryV>::empty() =~= prefix);
                }
                return Ok(Directory { entries });
            }
            let entry = match DirectoryEntry::read(reader, leader) {
                Ok(en) => en,
                Err(e) => {
                    return Err(
                        match e {
                            ReadError::IoError => ReadError::BadStructure(FieldId::Directory),
                            other => other,
                        },
                    );
                },
            };
            proof {
                lemma_directory_entry_advance(data, cur, em);
            }
            let ghost prev = entries@.map_values(|e: DirectoryEntry| e@);
            entries.push(entry);
            proof {
                let ev = spec_read_directory_entry(data, cur, em)->Ok_0.0;
                assert(entries@.map_values(|e: DirectoryEntry| e@) =~= prev + seq![ev]);
                let suffix = spec_read_directory(data, reader.cursor(), em);
                assert(spec_read_directory(data, cur, em) == prepend_entries(seq![ev], suffix));
                assert(prepend_entries(prev, prepend_entries(seq![ev], suffix)) == prepend_entries(
                    prev + seq![ev],
                    suffix,
                )) by {
                    match suffix {
                        Ok((s, p)) => {
                            assert(prev + (seq![ev] + s) =~= (prev + seq![ev]) + s);
                        },
                        Err(_) => {},
                    }
                }
            }
        }
    }

    /// The parsed entries, in the order the directory declares them.
    pub fn entries(&self) -> (r: &Vec<DirectoryEntry>)
        ensures
            r@.map_values(|e: DirectoryEntry| e@) == self@,
    {
        &self.entries
    }
}

/// A parsed directory always consumes at least its terminator and never
/// runs past the data.
pub proof fn lemma_directory_advance(data: Seq<u8>, pos: int, em: EntryMap)
    requires
        0 <= pos <= data.len(),
        spec_read_directory(data, pos, em) is Ok,
    ensures
        pos < (spec_read_directory(data, pos, em)->Ok_0).1 <= data.len(),
    decreases data.len() - pos,
{
    if pos < data.len() && data[pos] != FIELD_TERMINATOR {
        lemma_directory_entry_advance(data, pos, em);
        let p2 = (spec_read_directory_entry(data, pos, em)->Ok_0).1;
        lemma_directory_advance(data, p2, em);
    }
}

/// True when, starting at `pos`, exactly `n` well-formed directory entries
/// stand before a field terminator.
pub open spec fn directory_triples(data: Seq<u8>, pos: int, em: EntryMap, n: nat) -> bool
    decreases n,
{
    if n == 0 {
        pos < data.len() && data[pos] == FIELD_TERMINATOR
    } else {
        &&& pos < data.len()
        &&& data[pos] != FIELD_TERMINATOR
        &&& spec_read_directory_entry(data, pos, em) is Ok
        &&& directory_triples(
            data,
            spec_read_directory_entry(data, pos, em)->Ok_0.1,
            em,
            (n - 1) as nat,
        )
    }
}

/// Law: a well-formed directory of `n` triples parses to exactly `n`
/// entries, and the cursor ends exactly one byte past the terminator.
pub proof fn lemma_directory_entry_count(data: Seq<u8>, pos: int, em: EntryMap, n: nat)
    requires
        directory_triples(data, pos, em, n),
    ensures
        spec_read_directory(data, pos, em) is Ok,
        spec_read_directory(data, pos, em)->Ok_0.0.len() == n,
        spec_read_directory(data, pos, em)->Ok_0.1 == pos + n * entry_size(em) + 1,
    decreases n,
{
    if n == 0 {
        assert(n * entry_size(em) == 0);
    } else {
        let p2 = spec_read_directory_entry(data, pos, em)->Ok_0.1;
        lemma_directory_entry_advance(data, pos, em);
        lemma_directory_entry_count(data, p2, em, (n - 1) as nat);
        assert((n - 1) * entry_size(em) + entry_size(em) == n * entry_size(em)) by (nonlinear_arith);
    }
}

} // verus!
