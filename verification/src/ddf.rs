use vstd::prelude::*;

use crate::data_record::{
    lemma_data_record_advance, spec_read_data_record, DataRecord, DataRecordV,
};
use crate::ddr::{
    lemma_ddr_advance, spec_read_data_descriptive_record, DataDescriptiveRecord,
    DataDescriptiveRecordV,
};
use crate::errors::ReadError;
use crate::reader::{prepend_parsed, ReadResult, Reader};

verus! {

/// Parses data records one after the other until the byte source ends
/// exactly at a record boundary.
pub open spec fn spec_read_data_records(
    data: Seq<u8>,
    pos: int,
    ddr: DataDescriptiveRecordV,
) -> Result<(Seq<DataRecordV>, int), ReadError>
    decreases data.len() - pos,
    when 0 <= pos <= data.len()
    via spec_read_data_records_decreases
{
    if pos >= data.len() {
        Ok((Seq::empty(), pos))
    } else {
        match spec_read_data_record(data, pos, ddr) {
            Err(e) => Err(e),
            Ok((dr, p2)) => match spec_read_data_records(data, p2, ddr) {
                Err(e) => Err(e),
                Ok((rest, p3)) => Ok((seq![dr] + rest, p3)),
            },
        }
    }
}

#[via_fn]
proof fn spec_read_data_records_decreases(data: Seq<u8>, pos: int, ddr: DataDescriptiveRecordV) {
    if pos < data.len() && spec_read_data_record(data, pos, ddr) is Ok {
        lemma_data_record_advance(data, pos, ddr);
    }
}

/// The mathematical content of a whole decoded interchange file.
pub struct DataDescriptiveFileV {
    pub data_descriptive_record: DataDescriptiveRecordV,
    pub data_records: Seq<DataRecordV>,
}

/// Decodes a whole file: the schema record first, then data records until
/// the byte source is exhausted, with no trailing bytes allowed.
pub open spec fn spec_read_file(data: Seq<u8>) -> Result<DataDescriptiveFileV, ReadError> {
    match spec_read_data_descriptive_record(data, 0) {
        Err(e) => Err(e),
        Ok((ddr, p1)) => match spec_read_data_records(data, p1, ddr) {
            Err(e) => Err(e),
            Ok((drs, _p)) => Ok(
                DataDescriptiveFileV { data_descriptive_record: ddr, data_records: drs },
            ),
        },
    }
}

/// A whole decoded interchange file: one schema record and the data
/// records decoded under it, in file order.
#[derive(Debug, Clone, PartialEq)]
pub struct DataDescriptiveFile {
    data_descriptive_record: DataDescriptiveRecord,
    data_records: Vec<DataRecord>,
}

impl View for DataDescriptiveFile {
    type V = DataDescriptiveFileV;

    closed spec fn view(&self) -> DataDescriptiveFileV {
        DataDescriptiveFileV {
            data_descriptive_record: self.data_descriptive_record@,
            data_records: self.data_records@.map_values(|r: DataRecord| r@),
        }
    }
}

impl DataDescriptiveFile {
    /// Decodes a whole file from its bytes: the schema record, then data
    /// records until the end of the byte source.
    #[verifier::loop_isolation(false)]
    #[verifier::rlimit(100)]
    pub fn read(data: Vec<u8>) -> (r: ReadResult<DataDescriptiveFile>)
        ensures
            match spec_read_file(data@) {
                Ok(fv) => r is Ok && r->Ok_0@ == fv,
                Err(e) => r == Err::<DataDescriptiveFile, ReadError>(e),
            },
    {
        let ghost bytes = data@;
        let mut reader = Reader::new(data);
        let data_descriptive_record = match DataDescriptiveRecord::read(&mut reader) {
            Ok(v) => v,
            Err(e) => return Err(e),
        };
        let ghost p1 = reader.cursor();
        proof {
            lemma_ddr_advance(bytes, 0);
        }
        let mut data_records: Vec<DataRecord> = Vec::new();
        while !reader.is_eof()
            invariant
                reader.bytes() == bytes,
                0 <= reader.cursor() <= bytes.len(),
                spec_read_data_records(bytes, p1, data_descriptive_record@) == prepend_parsed(
                    data_records@.map_values(|r: DataRecord| r@),
                    spec_read_data_records(
                        bytes,
                        reader.cursor(),
                        data_descriptive_record@,
                    ),
                ),
            decreases bytes.len() - reader.cursor(),
        {
            let ghost cur = reader.cursor();
            let dr = match DataRecord::read(&mut reader, &data_descriptive_record) {
                Ok(v) => v,
                Err(e) => return Err(e),
            };
            proof {
                lemma_data_record_advance(bytes, cur, data_descriptive_record@);
            }
            let ghost prev = data_records@.map_values(|r: DataRecord| r@);
            data_records.push(dr);
            proof {
                let dv = (spec_read_data_record(bytes, cur, data_descriptive_record@)->Ok_0).0;
                assert(data_records@.map_values(|r: DataRecord| r@) =~= prev + seq![dv]);
                let suffix = spec_read_data_records(
                    bytes,
                    reader.cursor(),
                    data_descriptive_record@,
                );
                assert(spec_read_data_records(bytes, cur, data_descriptive_record@)
                    == prepend_parsed(seq![dv], suffix));
                match suffix {
                    Ok((s, p)) => {
                        assert(prev + (seq![dv] + s) =~= (prev + seq![dv]) + s);
                    },
                    Err(_) => {},
                }
            }
        }
        proof {
            let prefix = data_records@.map_values(|r: DataRecord| r@);
            assert(prefix + Seq::<DataRecordV>::empty() =~= prefix);
        }
        Ok(DataDescriptiveFile { data_descriptive_record, data_records })
    }

    /// The schema record, always the file's first.
    pub fn data_descriptive_record(&self) -> (r: &DataDescriptiveRecord)
        ensures
            r@ == self@.data_descriptive_record,
    {
        &self.data_descriptive_record
    }

    /// The decoded data records, in file order.
    pub fn data_records(&self) -> (r: &Vec<DataRecord>)
        ensures
            r@.map_values(|dr: DataRecord| dr@) == self@.data_records,
    {
        &self.data_records
    }
}

/// Law: decoding is a pure function of the bytes alone: equal buffers
/// always decode to structurally equal outcomes.
pub proof fn lemma_decode_deterministic(d1: Seq<u8>, d2: Seq<u8>)
    requires
        d1 == d2,
    ensures
        spec_read_file(d1) == spec_read_file(d2),
{
}

} // verus!
