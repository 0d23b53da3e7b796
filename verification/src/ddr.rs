use vstd::prelude::*;

use crate::data_descriptive_field::{
    spec_read_data_descriptive_field, DataDescriptiveField, DataDescriptiveFieldV,
};
use crate::directory::{spec_read_directory, Directory, DirectoryEntryV};
use crate::errors::{FieldId, ReadError};
use crate::file_control_field::{spec_read_file_control_field, FileControlField, TagPairV};
use crate::leader::{spec_read_leader, Leader, LeaderV};
use crate::reader::{prepend_parsed, ReadResult, Reader};

verus! {

/// Parses `n` data descriptive fields in sequence.
pub open spec fn spec_read_ddfs(data: Seq<u8>, pos: int, n: nat) -> Result<
    (Seq<DataDescriptiveFieldV>, int),
    ReadError,
>
    decreases n,
{
    if n == 0 {
        Ok((Seq::empty(), pos))
    } else {
        match spec_read_data_descriptive_field(data, pos) {
            Err(e) => Err(e),
            Ok((dv, p2)) => match spec_read_ddfs(data, p2, (n - 1) as nat) {
                Err(e) => Err(e),
                Ok((rest, p3)) => Ok((seq![dv] + rest, p3)),
            },
        }
    }
}

/// The mathematical content of a parsed data descriptive record.
pub struct DataDescriptiveRecordV {
    pub leader: LeaderV,
    pub directory: Seq<DirectoryEntryV>,
    pub file_control_field: Seq<TagPairV>,
    pub data_descriptive_fields: Seq<DataDescriptiveFieldV>,
}

/// Parses the whole schema record: its leader, its directory (which must
/// hold at least one entry), the field control field under entry 0, and
/// one data descriptive field for each remaining entry, in order.
pub open spec fn spec_read_data_descriptive_record(data: Seq<u8>, pos: int) -> Result<
    (DataDescriptiveRecordV, int),
    ReadError,
> {
    match spec_read_leader(data, pos, true) {
        Err(e) => Err(e),
        Ok((leader, p1)) => match spec_read_directory(data, p1, leader.entry_map) {
            Err(e) => Err(e),
            Ok((directory, p2)) => {
                if directory.len() == 0 {
                    Err(ReadError::BadStructure(FieldId::Directory))
                } else {
                    match spec_read_file_control_field(data, p2, leader, directory[0]) {
                        Err(e) => Err(e),
                        Ok((fcf, p3)) => {
                            match spec_read_ddfs(data, p3, (directory.len() - 1) as nat) {
                                Err(e) => Err(e),
                                Ok((ddfs, p4)) => Ok(
                                    (
                                        DataDescriptiveRecordV {
                                            leader,
                                            directory,
                                            file_control_field: fcf,
                                            data_descriptive_fields: ddfs,
                                        },
                                        p4,
                                    ),
                                ),
                            }
                        },
                    }
                }
            },
        },
    }
}

/// A successful run of data descriptive fields has exactly the requested
/// length.
pub proof fn lemma_ddfs_len(data: Seq<u8>, pos: int, n: nat)
    requires
        spec_read_ddfs(data, pos, n) is Ok,
    ensures
        (spec_read_ddfs(data, pos, n)->Ok_0).0.len() == n,
    decreases n,
{
    if n > 0 {
        let p2 = (spec_read_data_descriptive_field(data, pos)->Ok_0).1;
        lemma_ddfs_len(data, p2, (n - 1) as nat);
    }
}

/// Law: a parsed schema record holds at least the field control field's
/// directory entry, and exactly one data descriptive field for each
/// remaining entry.
pub proof fn lemma_ddr_field_count(data: Seq<u8>, pos: int)
    requires
        spec_read_data_descriptive_record(data, pos) is Ok,
    ensures
        (spec_read_data_descriptive_record(data, pos)->Ok_0).0.directory.len() >= 1,
        (spec_read_data_descriptive_record(data, pos)->Ok_0).0.data_descriptive_fields.len() == (
        spec_read_data_descriptive_record(data, pos)->Ok_0).0.directory.len() - 1,
{
    let lv = (spec_read_leader(data, pos, true)->Ok_0).0;
    let p1 = (spec_read_leader(data, pos, true)->Ok_0).1;
    let dir = (spec_read_directory(data, p1, lv.entry_map)->Ok_0).0;
    let p2 = (spec_read_directory(data, p1, lv.entry_map)->Ok_0).1;
    let p3 = (spec_read_file_control_field(data, p2, lv, dir[0])->Ok_0).1;
    lemma_ddfs_len(data, p3, (dir.len() - 1) as nat);
}

/// A run of parsed data descriptive fields never moves backwards and never
/// runs past the data.
pub proof fn lemma_ddfs_advance(data: Seq<u8>, pos: int, n: nat)
    requires
        0 <= pos <= data.len(),
        spec_read_ddfs(data, pos, n) is Ok,
    ensures
        pos <= (spec_read_ddfs(data, pos, n)->Ok_0).1 <= data.len(),
    decreases n,
{
    if n > 0 {
        crate::data_descriptive_field::lemma_ddf_advance(data, pos);
        let p2 = (spec_read_data_descriptive_field(data, pos)->Ok_0).1;
        lemma_ddfs_advance(data, p2, (n - 1) as nat);
    }
}

/// A parsed schema record always moves the cursor forward and never runs
/// past the data.
pub proof fn lemma_ddr_advance(data: Seq<u8>, pos: int)
    requires
        0 <= pos,
        spec_read_data_descriptive_record(data, pos) is Ok,
    ensures
        pos < (spec_read_data_descriptive_record(data, pos)->Ok_0).1 <= data.len(),
{
    crate::leader::lemma_leader_advance(data, pos, true);
    let lv = (spec_read_leader(data, pos, true)->Ok_0).0;
    let p1 = (spec_read_leader(data, pos, true)->Ok_0).1;
    crate::directory::lemma_directory_advance(data, p1, lv.entry_map);
    let dir = (spec_read_directory(data, p1, lv.entry_map)->Ok_0).0;
    let p2 = (spec_read_directory(data, p1, lv.entry_map)->Ok_0).1;
    crate::file_control_field::lemma_fcf_advance(data, p2, lv, dir[0]);
    let p3 = (spec_read_file_control_field(data, p2, lv, dir[0])->Ok_0).1;
    lemma_ddfs_advance(data, p3, (dir.len() - 1) as nat);
}

/// The first record of a file: the schema every later record is decoded
/// against.
#[derive(Debug, Clone, PartialEq)]
pub struct DataDescriptiveRecord {
    leader: Leader,
    directory: Directory,
    file_control_field: FileControlField,
    data_descriptive_fields: Vec<DataDescriptiveField>,
}

impl View for DataDescriptiveRecord {
    type V = DataDescriptiveRecordV;

    closed spec fn view(&self) -> DataDescriptiveRecordV {
        DataDescriptiveRecordV {
            leader: self.leader@,
            directory: self.directory@,
            file_control_field: self.file_control_field@,
            data_descriptive_fields: self.data_descriptive_fields@.map_values(
                |f: DataDescriptiveField| f@,
            ),
        }
    }
}

impl DataDescriptiveRecord {
    #[verifier::loop_isolation(false)]
    pub fn read(reader: &mut Reader) -> (r: ReadResult<DataDescriptiveRecord>)
        ensures
            final(reader).bytes() == old(reader).bytes(),
            match spec_read_data_descriptive_record(old(reader).bytes(), old(reader).cursor()) {
                Ok((dv, p)) => r is Ok && r->Ok_0@ == dv && final(reader).cursor() == p,
                Err(e) => r == Err::<DataDescriptiveRecord, ReadError>(e),
            },
    {
        let ghost data = reader.bytes();
        let leader = match Leader::read_ddr(reader) {
            Ok(v) => v,
            Err(e) => return Err(e),
        };
        let directory = match Directory::read(reader, &leader) {
            Ok(v) => v,
            Err(e) => return Err(e),
        };
        let n_entries = directory.entries().len();
        if n_entries == 0 {
            return Err(ReadError::BadStructure(FieldId::Directory));
        }
        let file_control_field = match FileControlField::read(
            reader,
            &leader,
            &directory.entries()[0],
        ) {
            Ok(v) => v,
            Err(e) => return Err(e),
        };
        let ghost p3 = reader.cursor();
        let count = n_entries - 1;
        let mut data_descriptive_fields: Vec<DataDescriptiveField> = Vec::new();
        let mut i: usize = 0;
        while i < count
            invariant
                i <= count,
                reader.bytes() == data,
                spec_read_ddfs(data, p3, count as nat) == prepend_parsed(
                    data_descriptive_fields@.map_values(|f: DataDescriptiveField| f@),
                    spec_read_ddfs(data, reader.cursor(), (count - i) as nat),
                ),
            decreases count - i,
        {
            let ghost cur = reader.cursor();
            let ddf = match DataDescriptiveField::read(reader) {
                Ok(v) => v,
                Err(e) => return Err(e),
            };
            let ghost prev = data_descriptive_fields@.map_values(|f: DataDescriptiveField| f@);
            data_descriptive_fields.push(ddf);
            i = i + 1;
            proof {
                let dv = spec_read_data_descriptive_field(data, cur)->Ok_0.0;
                assert(data_descriptive_fields@.map_values(|f: DataDescriptiveField| f@) =~= prev
                    + seq![dv]);
                let suffix = spec_read_ddfs(data, reader.cursor(), (count - i) as nat);
                assert(spec_read_ddfs(data, cur, (count - i + 1) as nat) == prepend_parsed(
                    seq![dv],
                    suffix,
                ));
                assert(prepend_parsed(prev, prepend_parsed(seq![dv], suffix)) == prepend_parsed(
                    prev + seq![dv],
                    suffix,
                )) by {
                    match suffix {
                        Ok((s, p)) => {
                            assert(prev + (seq![dv] + s) =~= (prev + seq![dv]) + s);
                        },
                        Err(_) => {},
                    }
                }
            }
        }
        proof {
            let prefix = data_descriptive_fields@.map_values(|f: DataDescriptiveField| f@);
            assert(prefix + Seq::<DataDescriptiveFieldV>::empty() =~= prefix);
        }
        Ok(
            DataDescriptiveRecord {
                leader,
                directory,
                file_control_field,
                data_descriptive_fields,
            },
        )
    }

    /// The schema record's leader.
    pub fn leader(&self) -> (r: &Leader)
        ensures
            r@ == self@.leader,
    {
        &self.leader
    }

    /// The schema record's directory.
    pub fn directory(&self) -> (r: &Directory)
        ensures
            r@ == self@.directory,
    {
        &self.directory
    }

    /// The schema record's field control field.
    pub fn file_control_field(&self) -> (r: &FileControlField)
        ensures
            r@ == self@.file_control_field,
    {
        &self.file_control_field
    }

    /// The schema entries, in directory order; entry `i` describes the
    /// directory's entry `i + 1`.
    pub fn data_descriptive_fields(&self) -> (r: &Vec<DataDescriptiveField>)
        ensures
            r@.map_values(|f: DataDescriptiveField| f@) == self@.data_descriptive_fields,
    {
        &self.data_descriptive_fields
    }
}

} // verus!
