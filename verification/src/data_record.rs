use vstd::prelude::*;

use crate::data_descriptive_field::{DataDescriptiveField, DataDescriptiveFieldV};
use crate::data_field::{spec_read_data_field, DataField, DataFieldV};
use crate::ddr::{DataDescriptiveRecord, DataDescriptiveRecordV};
use crate::directory::{spec_read_directory, Directory, DirectoryEntryV};
use crate::errors::ReadError;
use crate::leader::{spec_read_leader, Leader, LeaderV};
use crate::reader::{prepend_parsed, ReadResult, Reader};

verus! {

/// The schema entry under the given tag, scanning the schema record's
/// directory entries from `j` on; entry `j + 1` of the directory pairs
/// with schema field `j`.
pub open spec fn spec_schema_lookup_from(
    ddr: DataDescriptiveRecordV,
    tag: Seq<char>,
    j: int,
) -> Option<DataDescriptiveFieldV>
    decreases ddr.data_descriptive_fields.len() - j,
    when 0 <= j
{
    if j >= ddr.data_descriptive_fields.len() || j + 1 >= ddr.directory.len() {
        None
    } else if ddr.directory[j + 1].field_tag == tag {
        Some(ddr.data_descriptive_fields[j])
    } else {
        spec_schema_lookup_from(ddr, tag, j + 1)
    }
}

/// The schema entry whose directory tag equals `tag`, if any.
pub open spec fn spec_schema_lookup(ddr: DataDescriptiveRecordV, tag: Seq<char>) -> Option<
    DataDescriptiveFieldV,
> {
    spec_schema_lookup_from(ddr, tag, 0)
}

/// Decodes one data field per directory entry from index `i` on, each
/// against the schema entry sharing its tag.
pub open spec fn spec_read_data_fields(
    data: Seq<u8>,
    pos: int,
    ddr: DataDescriptiveRecordV,
    dir: Seq<DirectoryEntryV>,
    i: int,
) -> Result<(Seq<DataFieldV>, int), ReadError>
    decreases dir.len() - i,
    when 0 <= i
{
    if i >= dir.len() {
        Ok((Seq::empty(), pos))
    } else {
        match spec_schema_lookup(ddr, dir[i].field_tag) {
            None => Err(ReadError::SchemaMismatch),
            Some(ddf) => match spec_read_data_field(data, pos, dir[i], ddf) {
                Err(e) => Err(e),
                Ok((df, p2)) => match spec_read_data_fields(data, p2, ddr, dir, i + 1) {
                    Err(e) => Err(e),
                    Ok((rest, p3)) => Ok((seq![df] + rest, p3)),
                },
            },
        }
    }
}

/// The mathematical content of a parsed data record.
pub struct DataRecordV {
    pub leader: LeaderV,
    pub directory: Seq<DirectoryEntryV>,
    pub data_fields: Seq<DataFieldV>,
}

/// Parses one whole data record: its leader, its directory, and one data
/// field per directory entry, in order, decoded against the schema.
pub open spec fn spec_read_data_record(
    data: Seq<u8>,
    pos: int,
    ddr: DataDescriptiveRecordV,
) -> Result<(DataRecordV, int), ReadError> {
    match spec_read_leader(data, pos, false) {
        Err(e) => Err(e),
        Ok((leader, p1)) => match spec_read_directory(data, p1, leader.entry_map) {
            Err(e) => Err(e),
            Ok((directory, p2)) => match spec_read_data_fields(data, p2, ddr, directory, 0) {
                Err(e) => Err(e),
                Ok((data_fields, p3)) => Ok(
                    (DataRecordV { leader, directory, data_fields }, p3),
                ),
            },
        },
    }
}

/// A successful run of data fields holds one field per directory entry
/// from `i` on.
pub proof fn lemma_data_fields_len(
    data: Seq<u8>,
    pos: int,
    ddr: DataDescriptiveRecordV,
    dir: Seq<DirectoryEntryV>,
    i: int,
)
    requires
        0 <= i <= dir.len(),
        spec_read_data_fields(data, pos, ddr, dir, i) is Ok,
    ensures
        (spec_read_data_fields(data, pos, ddr, dir, i)->Ok_0).0.len() == dir.len() - i,
    decreases dir.len() - i,
{
    if i < dir.len() {
        let ddf = spec_schema_lookup(ddr, dir[i].field_tag)->0;
        let p2 = (spec_read_data_field(data, pos, dir[i], ddf)->Ok_0).1;
        lemma_data_fields_len(data, p2, ddr, dir, i + 1);
    }
}

/// Law: a parsed data record holds exactly one decoded data field per
/// directory entry.
pub proof fn lemma_data_record_field_count(data: Seq<u8>, pos: int, ddr: DataDescriptiveRecordV)
    requires
        spec_read_data_record(data, pos, ddr) is Ok,
    ensures
        (spec_read_data_record(data, pos, ddr)->Ok_0).0.data_fields.len() == (spec_read_data_record(
            data,
            pos,
            ddr,
        )->Ok_0).0.directory.len(),
{
    let lv = (spec_read_leader(data, pos, false)->Ok_0).0;
    let p1 = (spec_read_leader(data, pos, false)->Ok_0).1;
    let dir = (spec_read_directory(data, p1, lv.entry_map)->Ok_0).0;
    let p2 = (spec_read_directory(data, p1, lv.entry_map)->Ok_0).1;
    lemma_data_fields_len(data, p2, ddr, dir, 0);
}

/// A run of decoded data fields never moves backwards and never runs past
/// the data.
pub proof fn lemma_data_fields_advance(
    data: Seq<u8>,
    pos: int,
    ddr: DataDescriptiveRecordV,
    dir: Seq<DirectoryEntryV>,
    i: int,
)
    requires
        0 <= i,
        0 <= pos <= data.len(),
        spec_read_data_fields(data, pos, ddr, dir, i) is Ok,
    ensures
        pos <= (spec_read_data_fields(data, pos, ddr, dir, i)->Ok_0).1 <= data.len(),
    decreases dir.len() - i,
{
    if i < dir.len() {
        match spec_schema_lookup(ddr, dir[i].field_tag) {
            None => {},
            Some(ddf) => {
                let p2 = (spec_read_data_field(data, pos, dir[i], ddf)->Ok_0).1;
                lemma_data_fields_advance(data, p2, ddr, dir, i + 1);
            },
        }
    }
}

/// A parsed data record consumes at least its leader and directory and
/// never runs past the data.
pub proof fn lemma_data_record_advance(data: Seq<u8>, pos: int, ddr: DataDescriptiveRecordV)
    requires
        0 <= pos,
        spec_read_data_record(data, pos, ddr) is Ok,
    ensures
        pos < (spec_read_data_record(data, pos, ddr)->Ok_0).1 <= data.len(),
{
    crate::leader::lemma_leader_advance(data, pos, false);
    let lv = (spec_read_leader(data, pos, false)->Ok_0).0;
    let p1 = (spec_read_leader(data, pos, false)->Ok_0).1;
    crate::directory::lemma_directory_advance(data, p1, lv.entry_map);
    let dir = (spec_read_directory(data, p1, lv.entry_map)->Ok_0).0;
    let p2 = (spec_read_directory(data, p1, lv.entry_map)->Ok_0).1;
    lemma_data_fields_advance(data, p2, ddr, dir, 0);
}

/// One record that carries data, decoded under the schema record.
#[derive(Debug, Clone, PartialEq)]
pub struct DataRecord {
    leader: Leader,
    directory: Directory,
    data_fields: Vec<DataField>,
}

impl View for DataRecord {
    type V = DataRecordV;

    closed spec fn view(&self) -> DataRecordV {
        DataRecordV {
            leader: self.leader@,
            directory: self.directory@,
            data_fields: self.data_fields@.map_values(|f: DataField| f@),
        }
    }
}

/// Finds the schema entry whose directory tag equals `tag`.
#[verifier::loop_isolation(false)]
fn schema_lookup<'a>(ddr: &'a DataDescriptiveRecord, tag: &String) -> (r: Option<
    &'a DataDescriptiveField,
>)
    ensures
        match spec_schema_lookup(ddr@, tag@) {
            Some(dv) => r is Some && r->0@ == dv,
            None => r is None,
        },
{
    let entries = ddr.directory().entries();
    let fields = ddr.data_descriptive_fields();
    let mut j: usize = 0;
    while j < fields.len() && j + 1 < entries.len()
        invariant
            0 <= j <= fields@.len(),
            entries@.map_values(|e: crate::directory::DirectoryEntry| e@) == ddr@.directory,
            fields@.map_values(|f: DataDescriptiveField| f@) == ddr@.data_descriptive_fields,
            spec_schema_lookup(ddr@, tag@) == spec_schema_lookup_from(ddr@, tag@, j as int),
        decreases fields@.len() - j,
    {
        proof {
            assert(ddr@.directory[j + 1] == entries@[j + 1]@);
            assert(ddr@.data_descriptive_fields[j as int] == fields@[j as int]@);
        }
        if *entries[j + 1].field_tag() == *tag {
            return Some(&fields[j]);
        }
        j = j + 1;
    }
    None
}

impl DataRecord {
    /// Reads one data record, decoding each of its fields against the
    /// schema.
    #[verifier::loop_isolation(false)]
    pub fn read(reader: &mut Reader, ddr: &DataDescriptiveRecord) -> (r: ReadResult<DataRecord>)
        ensures
            final(reader).bytes() == old(reader).bytes(),
            match spec_read_data_record(old(reader).bytes(), old(reader).cursor(), ddr@) {
                Ok((dv, p)) => r is Ok && r->Ok_0@ == dv && final(reader).cursor() == p,
                Err(e) => r == Err::<DataRecord, ReadError>(e),
            },
    {
        let ghost data = reader.bytes();
        let leader = match Leader::read_dr(reader) {
            Ok(v) => v,
            Err(e) => return Err(e),
        };
        let directory = match Directory::read(reader, &leader) {
            Ok(v) => v,
            Err(e) => return Err(e),
        };
        let entries = directory.entries();
        let n = entries.len();
        let ghost p2 = reader.cursor();
        let mut data_fields: Vec<DataField> = Vec::new();
        let mut i: usize = 0;
        while i < n
            invariant
                i <= n,
                reader.bytes() == data,
                spec_read_data_fields(data, p2, ddr@, directory@, 0) == prepend_parsed(
                    data_fields@.map_values(|f: DataField| f@),
                    spec_read_data_fields(data, reader.cursor(), ddr@, directory@, i as int),
                ),
            decreases n - i,
        {
            let entry = &entries[i];
            proof {
                assert(directory@[i as int] == entries@[i as int]@);
            }
            let ddf = match schema_lookup(ddr, entry.field_tag()) {
                Some(v) => v,
                None => {
                    return Err(ReadError::SchemaMismatch);
                },
            };
            let ghost cur = reader.cursor();
            let df = match DataField::read(reader, entry, ddf) {
                Ok(v) => v,
                Err(e) => return Err(e),
            };
            let ghost prev = data_fields@.map_values(|f: DataField| f@);
            data_fields.push(df);
            i = i + 1;
            proof {
                let dv = (spec_read_data_field(data, cur, directory@[i - 1], ddf@)->Ok_0).0;
                assert(data_fields@.map_values(|f: DataField| f@) =~= prev + seq![dv]);
                let suffix = spec_read_data_fields(
                    data,
                    reader.cursor(),
                    ddr@,
                    directory@,
                    i as int,
                );
                assert(spec_read_data_fields(data, cur, ddr@, directory@, i - 1) == prepend_parsed(
                    seq![dv],
                    suffix,
                ));
                match suffix {
                    Ok((s, p)) => {
                        assert(prev + (seq![dv] + s) =~= (prev + seq![dv]) + s);
                    },
                    Err(_) => {},
                }
            }
        }
        proof {
            let prefix = data_fields@.map_values(|f: DataField| f@);
            assert(prefix + Seq::<DataFieldV>::empty() =~= prefix);
        }
        Ok(DataRecord { leader, directory, data_fields })
    }

    /// The record's leader.
    pub fn leader(&self) -> (r: &Leader)
        ensures
            r@ == self@.leader,
    {
        &self.leader
    }

    /// The record's directory.
    pub fn directory(&self) -> (r: &Directory)
        ensures
            r@ == self@.directory,
    {
        &self.directory
    }

    /// The record's decoded data fields, in directory order.
    pub fn data_fields(&self) -> (r: &Vec<DataField>)
        ensures
            r@.map_values(|f: DataField| f@) == self@.data_fields,
    {
        &self.data_fields
    }
}

} // verus!
