use vstd::prelude::*;
use vstd::utf8::{decode_utf8, valid_utf8};

use crate::data_descriptive_field::{DataDescriptiveField, DataDescriptiveFieldV};
use crate::directory::{DirectoryEntry, DirectoryEntryV};
use crate::errors::{FieldId, ReadError};
use crate::format::{parse_format_controls, spec_parse_format_controls, FormatControl, FormatKind};
use crate::reader::{
    all_digits, dec_value, find_byte, le_value, lemma_find_byte_bounds, lemma_le_value_bound,
    lemma_pow256_monotone, pow256, prepend_parsed, ReadResult, Reader,
};
use crate::{FIELD_TERMINATOR, UNIT_TERMINATOR};

verus! {

/// One decoded sub-field value of a data field.
#[derive(Debug, Clone, PartialEq)]
pub enum SubFieldValue {
    /// A little-endian unsigned binary integer.
    Unsigned(u64),
    /// A little-endian two's-complement binary integer.
    Signed(i64),
    /// Delimited or fixed-width text.
    Text(String),
    /// A fixed-width ASCII decimal number.
    Integer(u64),
    /// A bit field, kept as its raw bytes.
    Bits(Vec<u8>),
}

/// The mathematical content of one decoded sub-field value.
pub enum SubFieldValueV {
    Unsigned(u64),
    Signed(i64),
    Text(Seq<char>),
    Integer(u64),
    Bits(Seq<u8>),
}

impl View for SubFieldValue {
    type V = SubFieldValueV;

    closed spec fn view(&self) -> SubFieldValueV {
        match self {
            SubFieldValue::Unsigned(v) => SubFieldValueV::Unsigned(*v),
            SubFieldValue::Signed(v) => SubFieldValueV::Signed(*v),
            SubFieldValue::Text(s) => SubFieldValueV::Text(s@),
            SubFieldValue::Integer(v) => SubFieldValueV::Integer(*v),
            SubFieldValue::Bits(b) => SubFieldValueV::Bits(b@),
        }
    }
}

/// The two's-complement reading of an unsigned value of `w` bytes.
pub open spec fn le_signed_val(m: int, w: nat) -> int {
    if m < pow256(w) / 2 {
        m
    } else {
        m - pow256(w)
    }
}

/// Decodes one value at `pos`, never crossing `end`, under one format.
pub open spec fn spec_decode_one(data: Seq<u8>, pos: int, end: int, kind: FormatKind) -> Result<
    (SubFieldValueV, int),
    ReadError,
> {
    match kind {
        FormatKind::BinaryUnsigned(w) => {
            if w < 1 || w > 8 {
                Err(ReadError::SchemaMismatch)
            } else if pos + w > end {
                Err(ReadError::SchemaMismatch)
            } else {
                Ok(
                    (
                        SubFieldValueV::Unsigned(
                            le_value(data.subrange(pos, pos + w)) as u64,
                        ),
                        pos + w,
                    ),
                )
            }
        },
        FormatKind::BinarySigned(w) => {
            if w < 1 || w > 8 {
                Err(ReadError::SchemaMismatch)
            } else if pos + w > end {
                Err(ReadError::SchemaMismatch)
            } else {
                Ok(
                    (
                        SubFieldValueV::Signed(
                            le_signed_val(le_value(data.subrange(pos, pos + w)), w as nat) as i64,
                        ),
                        pos + w,
                    ),
                )
            }
        },
        FormatKind::TextDelimited => {
            let t = find_byte(data, pos, UNIT_TERMINATOR);
            if t < 0 {
                Err(ReadError::SchemaMismatch)
            } else if !valid_utf8(data.subrange(pos, t)) {
                Err(ReadError::Utf8Error)
            } else if t >= end {
                Err(ReadError::SchemaMismatch)
            } else {
                Ok((SubFieldValueV::Text(decode_utf8(data.subrange(pos, t))), t + 1))
            }
        },
        FormatKind::TextFixed(n) => {
            if n < 1 {
                Err(ReadError::SchemaMismatch)
            } else if pos + n > end {
                Err(ReadError::SchemaMismatch)
            } else if !valid_utf8(data.subrange(pos, pos + n)) {
                Err(ReadError::Utf8Error)
            } else {
                Ok((SubFieldValueV::Text(decode_utf8(data.subrange(pos, pos + n))), pos + n))
            }
        },
        FormatKind::IntegerFixed(n) => {
            if n < 1 {
                Err(ReadError::SchemaMismatch)
            } else if pos + n > end {
                Err(ReadError::SchemaMismatch)
            } else {
                let b = data.subrange(pos, pos + n);
                if !(all_digits(b) && dec_value(b) <= u64::MAX) {
                    Err(ReadError::IntError)
                } else {
                    Ok((SubFieldValueV::Integer(dec_value(b) as u64), pos + n))
                }
            }
        },
        FormatKind::Bits(nbits) => {
            if nbits < 1 || nbits % 8 != 0 {
                Err(ReadError::SchemaMismatch)
            } else {
                let nb = nbits / 8;
                if pos + nb > end {
                    Err(ReadError::SchemaMismatch)
                } else {
                    Ok((SubFieldValueV::Bits(data.subrange(pos, pos + nb)), pos + nb))
                }
            }
        },
    }
}

/// A decoded value always consumes at least one byte and never crosses
/// `end`.
pub proof fn lemma_decode_one_advance(data: Seq<u8>, pos: int, end: int, kind: FormatKind)
    requires
        0 <= pos <= end,
        end <= data.len(),
        spec_decode_one(data, pos, end, kind) is Ok,
    ensures
        pos < (spec_decode_one(data, pos, end, kind)->Ok_0).1 <= end,
{
    match kind {
        FormatKind::TextDelimited => {
            lemma_find_byte_bounds(data, pos, UNIT_TERMINATOR);
        },
        _ => {},
    }
}

/// Decodes `n` values of one format in a row.
pub open spec fn spec_decode_repeat(
    data: Seq<u8>,
    pos: int,
    end: int,
    kind: FormatKind,
    n: nat,
) -> Result<(Seq<SubFieldValueV>, int), ReadError>
    decreases n,
{
    if n == 0 {
        Ok((Seq::empty(), pos))
    } else {
        match spec_decode_one(data, pos, end, kind) {
            Err(e) => Err(e),
            Ok((v, p2)) => match spec_decode_repeat(data, p2, end, kind, (n - 1) as nat) {
                Err(e) => Err(e),
                Ok((rest, p3)) => Ok((seq![v] + rest, p3)),
            },
        }
    }
}

/// A run of decoded values never moves backwards and never crosses `end`.
pub proof fn lemma_decode_repeat_advance(
    data: Seq<u8>,
    pos: int,
    end: int,
    kind: FormatKind,
    n: nat,
)
    requires
        0 <= pos <= end <= data.len(),
        spec_decode_repeat(data, pos, end, kind, n) is Ok,
    ensures
        pos <= (spec_decode_repeat(data, pos, end, kind, n)->Ok_0).1 <= end,
        n >= 1 ==> pos < (spec_decode_repeat(data, pos, end, kind, n)->Ok_0).1,
    decreases n,
{
    if n > 0 {
        lemma_decode_one_advance(data, pos, end, kind);
        let p2 = (spec_decode_one(data, pos, end, kind)->Ok_0).1;
        lemma_decode_repeat_advance(data, p2, end, kind, (n - 1) as nat);
    }
}

/// Decodes one pass over the whole format list.
pub open spec fn spec_decode_pass(
    data: Seq<u8>,
    pos: int,
    end: int,
    formats: Seq<FormatControl>,
) -> Result<(Seq<SubFieldValueV>, int), ReadError>
    decreases formats.len(),
{
    if formats.len() == 0 {
        Ok((Seq::empty(), pos))
    } else if formats[0].count < 1 {
        Err(ReadError::SchemaMismatch)
    } else {
        match spec_decode_repeat(data, pos, end, formats[0].kind, formats[0].count as nat) {
            Err(e) => Err(e),
            Ok((vals, p2)) => match spec_decode_pass(data, p2, end, formats.drop_first()) {
                Err(e) => Err(e),
                Ok((rest, p3)) => Ok((vals + rest, p3)),
            },
        }
    }
}

/// A pass over a non-empty format list consumes at least one byte and
/// never crosses `end`.
pub proof fn lemma_decode_pass_advance(
    data: Seq<u8>,
    pos: int,
    end: int,
    formats: Seq<FormatControl>,
)
    requires
        0 <= pos <= end <= data.len(),
        spec_decode_pass(data, pos, end, formats) is Ok,
    ensures
        pos <= (spec_decode_pass(data, pos, end, formats)->Ok_0).1 <= end,
        formats.len() >= 1 ==> pos < (spec_decode_pass(data, pos, end, formats)->Ok_0).1,
    decreases formats.len(),
{
    if formats.len() > 0 {
        lemma_decode_repeat_advance(data, pos, end, formats[0].kind, formats[0].count as nat);
        let p2 = (spec_decode_repeat(data, pos, end, formats[0].kind, formats[0].count as nat)
            ->Ok_0).1;
        lemma_decode_pass_advance(data, p2, end, formats.drop_first());
    }
}

/// Decodes passes over the format list until the content is exhausted,
/// exactly at `end`. Content that runs out mid-value, or bytes left over
/// that no format consumes, fail the field.
pub open spec fn spec_decode_passes(
    data: Seq<u8>,
    pos: int,
    end: int,
    formats: Seq<FormatControl>,
) -> Result<Seq<SubFieldValueV>, ReadError>
    decreases end - pos,
    when pos <= end && end <= data.len() && 0 <= pos
    via spec_decode_passes_decreases
{
    if pos >= end {
        Ok(Seq::empty())
    } else if formats.len() == 0 {
        Err(ReadError::SchemaMismatch)
    } else {
        match spec_decode_pass(data, pos, end, formats) {
            Err(e) => Err(e),
            Ok((vals, p2)) => match spec_decode_passes(data, p2, end, formats) {
                Err(e) => Err(e),
                Ok(rest) => Ok(vals + rest),
            },
        }
    }
}

#[via_fn]
proof fn spec_decode_passes_decreases(data: Seq<u8>, pos: int, end: int, formats: Seq<FormatControl>) {
    if pos < end && formats.len() > 0 && spec_decode_pass(data, pos, end, formats) is Ok {
        lemma_decode_pass_advance(data, pos, end, formats);
    }
}

/// One decoded data field: its tag and its sub-field values in field
/// order.
#[derive(Debug, Clone, PartialEq)]
pub struct DataField {
    field_tag: String,
    sub_fields: Vec<SubFieldValue>,
}

/// The mathematical content of a decoded data field.
pub struct DataFieldV {
    pub field_tag: Seq<char>,
    pub sub_fields: Seq<SubFieldValueV>,
}

impl View for DataField {
    type V = DataFieldV;

    closed spec fn view(&self) -> DataFieldV {
        DataFieldV {
            field_tag: self.field_tag@,
            sub_fields: self.sub_fields@.map_values(|v: SubFieldValue| v@),
        }
    }
}

/// Decodes one whole data field of `entry.field_length` bytes: its
/// sub-field values under the schema entry's format controls, then the
/// closing field terminator.
pub open spec fn spec_read_data_field(
    data: Seq<u8>,
    pos: int,
    entry: DirectoryEntryV,
    ddf: DataDescriptiveFieldV,
) -> Result<(DataFieldV, int), ReadError> {
    match spec_parse_format_controls(ddf.format_controls) {
        None => Err(ReadError::FormatViolation(FieldId::FormatControls)),
        Some(formats) => {
            let fl = entry.field_length as int;
            if fl < 1 {
                Err(ReadError::SchemaMismatch)
            } else if pos + fl > data.len() {
                Err(ReadError::IoError)
            } else {
                match spec_decode_passes(data, pos, pos + fl - 1, formats) {
                    Err(e) => Err(e),
                    Ok(vals) => {
                        if data[pos + fl - 1] != FIELD_TERMINATOR {
                            Err(ReadError::BadStructure(FieldId::FieldTerminator))
                        } else {
                            Ok(
                                (
                                    DataFieldV { field_tag: entry.field_tag, sub_fields: vals },
                                    pos + fl,
                                ),
                            )
                        }
                    },
                }
            }
        },
    }
}

/// Reinterprets an unsigned `w`-byte value as two's complement.
fn sign_extend(m: u64, w: u8) -> (r: i64)
    requires
        1 <= w <= 8,
        m < pow256(w as nat),
    ensures
        r == le_signed_val(m as int, w as nat),
{
    if w == 8 {
        proof {
            assert(pow256(8) == 0x1_0000_0000_0000_0000) by {
                reveal_with_fuel(pow256, 9);
            }
        }
        if m >= 0x8000_0000_0000_0000 {
            let mag_minus_1 = u64::MAX - m;
            -(mag_minus_1 as i64) - 1
        } else {
            m as i64
        }
    } else {
        let mut p: u64 = 1;
        let mut q: u8 = 0;
        while q < w
            invariant
                q <= w <= 8,
                w < 8,
                p == pow256(q as nat),
                p <= 0x100_0000_0000_0000,
            decreases w - q,
        {
            proof {
                lemma_pow256_monotone((q + 1) as nat, 7);
                assert(pow256(7) == 0x100_0000_0000_0000) by {
                    reveal_with_fuel(pow256, 8);
                }
            }
            p = p * 256;
            q = q + 1;
        }
        if m >= p / 2 {
            -((p - m) as i64)
        } else {
            m as i64
        }
    }
}

/// Decodes one sub-field value through the reader, never crossing the
/// content boundary `content_end`.
fn decode_one(reader: &mut Reader, content_end: usize, kind: FormatKind) -> (r: ReadResult<
    SubFieldValue,
>)
    requires
        old(reader).cursor() <= content_end <= old(reader).bytes().len(),
    ensures
        final(reader).bytes() == old(reader).bytes(),
        match spec_decode_one(old(reader).bytes(), old(reader).cursor(), content_end as int, kind) {
            Ok((v, p)) => r is Ok && r->Ok_0@ == v && final(reader).cursor() == p,
            Err(e) => r == Err::<SubFieldValue, ReadError>(e),
        },
{
    let ghost data = reader.bytes();
    let ghost pos = reader.cursor();
    match kind {
        FormatKind::BinaryUnsigned(w) => {
            if w < 1 || w > 8 {
                return Err(ReadError::SchemaMismatch);
            }
            if (w as usize) > content_end - reader.position() {
                return Err(ReadError::SchemaMismatch);
            }
            let v = match reader.read_u64(w as usize) {
                Ok(v) => v,
                Err(e) => return Err(e),
            };
            Ok(SubFieldValue::Unsigned(v))
        },
        FormatKind::BinarySigned(w) => {
            if w < 1 || w > 8 {
                return Err(ReadError::SchemaMismatch);
            }
            if (w as usize) > content_end - reader.position() {
                return Err(ReadError::SchemaMismatch);
            }
            let m = match reader.read_u64(w as usize) {
                Ok(v) => v,
                Err(e) => return Err(e),
            };
            proof {
                lemma_le_value_bound(data.subrange(pos, pos + w));
            }
            Ok(SubFieldValue::Signed(sign_extend(m, w)))
        },
        FormatKind::TextDelimited => {
            let s = match reader.read_str_ut() {
                Ok(v) => v,
                Err(e) => {
                    return Err(
                        match e {
                            ReadError::IoError => ReadError::SchemaMismatch,
                            other => other,
                        },
                    );
                },
            };
            proof {
                lemma_find_byte_bounds(data, pos, UNIT_TERMINATOR);
            }
            if reader.position() > content_end {
                return Err(ReadError::SchemaMismatch);
            }
            Ok(SubFieldValue::Text(s))
        },
        FormatKind::TextFixed(n) => {
            if n < 1 {
                return Err(ReadError::SchemaMismatch);
            }
            if n > (content_end - reader.position()) as u64 {
                return Err(ReadError::SchemaMismatch);
            }
            let s = match reader.read_str(n as usize) {
                Ok(v) => v,
                Err(e) => return Err(e),
            };
            Ok(SubFieldValue::Text(s))
        },
        FormatKind::IntegerFixed(n) => {
            if n < 1 {
                return Err(ReadError::SchemaMismatch);
            }
            if n > (content_end - reader.position()) as u64 {
                return Err(ReadError::SchemaMismatch);
            }
            let v = match reader.read_u64_str(n as usize) {
                Ok(v) => v,
                Err(e) => return Err(e),
            };
            Ok(SubFieldValue::Integer(v))
        },
        FormatKind::Bits(nbits) => {
            if nbits < 1 || nbits % 8 != 0 {
                return Err(ReadError::SchemaMismatch);
            }
            let nb = nbits / 8;
            if nb > (content_end - reader.position()) as u64 {
                return Err(ReadError::SchemaMismatch);
            }
            let b = match reader.read_bytes(nb as usize) {
                Ok(v) => v,
                Err(e) => return Err(e),
            };
            Ok(SubFieldValue::Bits(b))
        },
    }
}

/// Decodes `count` values of one format through the reader, appending them
/// to `values`.
#[verifier::loop_isolation(false)]
fn decode_repeat(
    reader: &mut Reader,
    content_end: usize,
    kind: FormatKind,
    count: u64,
    values: &mut Vec<SubFieldValue>,
) -> (r: ReadResult<()>)
    requires
        0 <= old(reader).cursor() <= content_end <= old(reader).bytes().len(),
    ensures
        final(reader).bytes() == old(reader).bytes(),
        match spec_decode_repeat(
            old(reader).bytes(),
            old(reader).cursor(),
            content_end as int,
            kind,
            count as nat,
        ) {
            Ok((vals, p)) => {
                &&& r is Ok
                &&& final(values)@.map_values(|v: SubFieldValue| v@) == old(values)@.map_values(
                    |v: SubFieldValue| v@,
                ) + vals
                &&& final(reader).cursor() == p
                &&& final(reader).cursor() <= content_end
            },
            Err(e) => r == Err::<(), ReadError>(e),
        },
{
    let ghost data = reader.bytes();
    let ghost pos0 = reader.cursor();
    let ghost vals0 = values@.map_values(|v: SubFieldValue| v@);
    let ghost mut appended: Seq<SubFieldValueV> = Seq::empty();
    proof {
        assert(vals0 + appended =~= vals0);
    }
    let mut k: u64 = 0;
    while k < count
        invariant
            k <= count,
            reader.bytes() == data,
            0 <= reader.cursor() <= content_end,
            values@.map_values(|v: SubFieldValue| v@) == vals0 + appended,
            match spec_decode_repeat(
                data,
                reader.cursor(),
                content_end as int,
                kind,
                (count - k) as nat,
            ) {
                Ok((vals, p)) => spec_decode_repeat(
                    data,
                    pos0,
                    content_end as int,
                    kind,
                    count as nat,
                ) == Ok::<(Seq<SubFieldValueV>, int), ReadError>((appended + vals, p)),
                Err(e) => spec_decode_repeat(data, pos0, content_end as int, kind, count as nat)
                    == Err::<(Seq<SubFieldValueV>, int), ReadError>(e),
            },
        decreases count - k,
    {
        let ghost cur = reader.cursor();
        let v = match decode_one(reader, content_end, kind) {
            Ok(v) => v,
            Err(e) => return Err(e),
        };
        proof {
            lemma_decode_one_advance(data, cur, content_end as int, kind);
        }
        let ghost prev = values@.map_values(|v: SubFieldValue| v@);
        values.push(v);
        k = k + 1;
        proof {
            let dv = (spec_decode_one(data, cur, content_end as int, kind)->Ok_0).0;
            assert(values@.map_values(|v: SubFieldValue| v@) =~= prev + seq![dv]);
            assert(vals0 + (appended + seq![dv]) =~= (vals0 + appended) + seq![dv]);
            let suffix = spec_decode_repeat(
                data,
                reader.cursor(),
                content_end as int,
                kind,
                (count - k) as nat,
            );
            assert(spec_decode_repeat(data, cur, content_end as int, kind, (count - k + 1) as nat)
                == prepend_parsed(seq![dv], suffix));
            match suffix {
                Ok((s, p)) => {
                    assert(appended + (seq![dv] + s) =~= (appended + seq![dv]) + s);
                },
                Err(_) => {},
            }
            appended = appended + seq![dv];
        }
    }
    proof {
        assert(appended + Seq::<SubFieldValueV>::empty() =~= appended);
    }
    Ok(())
}

/// Decodes one pass over the whole format list through the reader,
/// appending the values decoded.
#[verifier::loop_isolation(false)]
fn decode_pass(
    reader: &mut Reader,
    content_end: usize,
    formats: &Vec<FormatControl>,
    values: &mut Vec<SubFieldValue>,
) -> (r: ReadResult<()>)
    requires
        0 <= old(reader).cursor() <= content_end <= old(reader).bytes().len(),
    ensures
        final(reader).bytes() == old(reader).bytes(),
        match spec_decode_pass(
            old(reader).bytes(),
            old(reader).cursor(),
            content_end as int,
            formats@,
        ) {
            Ok((vals, p)) => {
                &&& r is Ok
                &&& final(values)@.map_values(|v: SubFieldValue| v@) == old(values)@.map_values(
                    |v: SubFieldValue| v@,
                ) + vals
                &&& final(reader).cursor() == p
                &&& final(reader).cursor() <= content_end
            },
            Err(e) => r == Err::<(), ReadError>(e),
        },
{
    let ghost data = reader.bytes();
    let ghost pos0 = reader.cursor();
    let ghost vals0 = values@.map_values(|v: SubFieldValue| v@);
    let ghost mut appended: Seq<SubFieldValueV> = Seq::empty();
    proof {
        assert(vals0 + appended =~= vals0);
        assert(formats@.skip(0) =~= formats@);
    }
    let mut idx: usize = 0;
    while idx < formats.len()
        invariant
            idx <= formats@.len(),
            reader.bytes() == data,
            0 <= reader.cursor() <= content_end,
            values@.map_values(|v: SubFieldValue| v@) == vals0 + appended,
            match spec_decode_pass(data, reader.cursor(), content_end as int, formats@.skip(
                idx as int,
            )) {
                Ok((vals, p)) => spec_decode_pass(data, pos0, content_end as int, formats@) == Ok::<
                    (Seq<SubFieldValueV>, int),
                    ReadError,
                >((appended + vals, p)),
                Err(e) => spec_decode_pass(data, pos0, content_end as int, formats@) == Err::<
                    (Seq<SubFieldValueV>, int),
                    ReadError,
                >(e),
            },
        decreases formats@.len() - idx,
    {
        let fc = formats[idx];
        proof {
            assert(formats@.skip(idx as int)[0] == fc);
            assert(formats@.skip(idx as int).drop_first() =~= formats@.skip(idx + 1));
        }
        if fc.count < 1 {
            return Err(ReadError::SchemaMismatch);
        }
        let ghost cur = reader.cursor();
        let ghost before = values@.map_values(|v: SubFieldValue| v@);
        match decode_repeat(reader, content_end, fc.kind, fc.count, values) {
            Ok(_) => {},
            Err(e) => return Err(e),
        }
        idx = idx + 1;
        proof {
            lemma_decode_repeat_advance(data, cur, content_end as int, fc.kind, fc.count as nat);
            let rep = spec_decode_repeat(data, cur, content_end as int, fc.kind, fc.count as nat);
            let vals_rep = (rep->Ok_0).0;
            assert(values@.map_values(|v: SubFieldValue| v@) == before + vals_rep);
            assert(vals0 + (appended + vals_rep) =~= (vals0 + appended) + vals_rep);
            let suffix = spec_decode_pass(data, reader.cursor(), content_end as int, formats@.skip(
                idx as int,
            ));
            match suffix {
                Ok((s, p)) => {
                    assert(appended + (vals_rep + s) =~= (appended + vals_rep) + s);
                },
                Err(_) => {},
            }
            appended = appended + vals_rep;
        }
    }
    proof {
        assert(appended + Seq::<SubFieldValueV>::empty() =~= appended);
        assert(formats@.skip(formats@.len() as int) =~= Seq::<FormatControl>::empty());
    }
    Ok(())
}

impl DataField {
    /// Decodes one data field through the reader, against the schema entry
    /// that shares its directory entry's tag.
    #[verifier::loop_isolation(false)]
    pub fn read(reader: &mut Reader, entry: &DirectoryEntry, ddf: &DataDescriptiveField) -> (r:
        ReadResult<DataField>)
        ensures
            final(reader).bytes() == old(reader).bytes(),
            match spec_read_data_field(old(reader).bytes(), old(reader).cursor(), entry@, ddf@) {
                Ok((dv, p)) => r is Ok && r->Ok_0@ == dv && final(reader).cursor() == p,
                Err(e) => r == Err::<DataField, ReadError>(e),
            },
    {
        let ghost data = reader.bytes();
        let ghost pos0 = reader.cursor();
        let formats = match parse_format_controls(ddf.format_controls().as_str()) {
            Ok(v) => v,
            Err(e) => return Err(e),
        };
        let fl = *entry.field_length();
        if fl < 1 {
            return Err(ReadError::SchemaMismatch);
        }
        if (reader.remaining_len() as u64) < fl {
            return Err(ReadError::IoError);
        }
        let content_end = reader.position() + (fl - 1) as usize;
        let mut sub_fields: Vec<SubFieldValue> = Vec::new();
        let ghost vals0 = sub_fields@.map_values(|v: SubFieldValue| v@);
        let ghost mut appended: Seq<SubFieldValueV> = Seq::empty();
        proof {
            assert(vals0 + appended =~= vals0);
            assert(vals0 =~= Seq::<SubFieldValueV>::empty());
        }
        loop
            invariant
                reader.bytes() == data,
                pos0 <= reader.cursor() <= content_end,
                sub_fields@.map_values(|v: SubFieldValue| v@) == appended,
                match spec_decode_passes(data, reader.cursor(), content_end as int, formats@) {
                    Ok(vals) => spec_decode_passes(data, pos0, content_end as int, formats@)
                        == Ok::<Seq<SubFieldValueV>, ReadError>(appended + vals),
                    Err(e) => spec_decode_passes(data, pos0, content_end as int, formats@) == Err::<
                        Seq<SubFieldValueV>,
                        ReadError,
                    >(e),
                },
            decreases content_end - reader.cursor(),
        {
            if reader.position() >= content_end {
                break ;
            }
            if formats.len() == 0 {
                return Err(ReadError::SchemaMismatch);
            }
            let ghost cur = reader.cursor();
            let ghost before = sub_fields@.map_values(|v: SubFieldValue| v@);
            match decode_pass(reader, content_end, &formats, &mut sub_fields) {
                Ok(_) => {},
                Err(e) => return Err(e),
            }
            proof {
                lemma_decode_pass_advance(data, cur, content_end as int, formats@);
                let pass = spec_decode_pass(data, cur, content_end as int, formats@);
                let vals_pass = (pass->Ok_0).0;
                assert(sub_fields@.map_values(|v: SubFieldValue| v@) == before + vals_pass);
                let suffix = spec_decode_passes(
                    data,
                    reader.cursor(),
                    content_end as int,
                    formats@,
                );
                match suffix {
                    Ok(s) => {
                        assert(appended + (vals_pass + s) =~= (appended + vals_pass) + s);
                    },
                    Err(_) => {},
                }
                appended = appended + vals_pass;
            }
        }
        proof {
            assert(appended + Seq::<SubFieldValueV>::empty() =~= appended);
        }
        let ft = match reader.read_u8() {
            Ok(v) => v,
            Err(e) => return Err(e),
        };
        if ft != FIELD_TERMINATOR {
            return Err(ReadError::BadStructure(FieldId::FieldTerminator));
        }
        let field_tag = entry.field_tag().clone();
        Ok(DataField { field_tag, sub_fields })
    }

    /// The tag under which this field stood in its record's directory.
    pub fn field_tag(&self) -> (r: &String)
        ensures
            r@ == self@.field_tag,
    {
        &self.field_tag
    }

    /// The decoded sub-field values, in field order.
    pub fn sub_fields(&self) -> (r: &Vec<SubFieldValue>)
        ensures
            r@.map_values(|v: SubFieldValue| v@) == self@.sub_fields,
    {
        &self.sub_fields
    }
}

} // verus!
