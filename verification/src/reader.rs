//! Whole-table reading: iterating the record stream, skipping deleted
//! records, and materializing rows and the schema map.
use vstd::prelude::*;

use crate::encoding::{opt_str_view, spec_select, TextEncoding};
use crate::error::{DbfError, FormatError};
use crate::header::{
    desc_off, header_verdict, parse_header, spec_desc_name, spec_field_count, spec_header_len,
    spec_record_count, spec_record_len, sum_desc_widths, tag_of_byte, FieldType,
};
use crate::memo::{opt_bytes_view, MemoStore};
use crate::record::{
    decode_record, lemma_sum_widths_nonneg, spec_decode_field, spec_field_slice,
};
use crate::value::{spec_materialize, FieldValue, OutValue};

verus! {

/// The field type descriptor `k` declares (the nine-tag mapping of its
/// type byte; meaningful when the header parses).
pub open spec fn spec_desc_type(s: Seq<u8>, k: int) -> FieldType {
    match tag_of_byte(s[desc_off(k) + 11]) {
        Some(t) => t,
        None => FieldType::Character,
    }
}

/// The schema tag name of a field type.
pub open spec fn tag_label_chars(t: FieldType) -> Seq<char> {
    match t {
        FieldType::Character => "Character"@,
        FieldType::Numeric => "Numeric"@,
        FieldType::Float => "Float"@,
        FieldType::Integer => "Integer"@,
        FieldType::Date => "Date"@,
        FieldType::DateTime => "DateTime"@,
        FieldType::Logical => "Logical"@,
        FieldType::Currency => "Currency"@,
        FieldType::Memo => "Memo"@,
    }
}

/// Returns the schema tag name of a field type.
pub fn type_label(t: FieldType) -> (r: String)
    ensures
        r@ == tag_label_chars(t),
{
    match t {
        FieldType::Character => String::from_str("Character"),
        FieldType::Numeric => String::from_str("Numeric"),
        FieldType::Float => String::from_str("Float"),
        FieldType::Integer => String::from_str("Integer"),
        FieldType::Date => String::from_str("Date"),
        FieldType::DateTime => String::from_str("DateTime"),
        FieldType::Logical => String::from_str("Logical"),
        FieldType::Currency => String::from_str("Currency"),
        FieldType::Memo => String::from_str("Memo"),
    }
}

/// Byte offset of record `i` in the table buffer.
pub open spec fn record_off(s: Seq<u8>, i: int) -> int {
    spec_header_len(s) + i * spec_record_len(s)
}

/// The raw bytes of record `i`, deletion marker included.
pub open spec fn spec_record_slice(s: Seq<u8>, i: int) -> Seq<u8> {
    s.subrange(record_off(s, i), record_off(s, i) + spec_record_len(s))
}

/// Whether record `i` carries the deleted marker `0x2A`.
pub open spec fn spec_deleted(s: Seq<u8>, i: int) -> bool {
    s[record_off(s, i)] == 42
}

/// Whether the buffer ends before the declared record count of
/// fixed-length records.
pub open spec fn records_truncated(s: Seq<u8>) -> bool {
    spec_header_len(s) + spec_record_count(s) * spec_record_len(s) > s.len()
}

/// The indices of the records among the first `n` that do not carry the
/// deleted marker, in order.
pub open spec fn live_rows(s: Seq<u8>, n: int) -> Seq<int>
    decreases n,
{
    if n <= 0 {
        Seq::empty()
    } else if spec_deleted(s, n - 1) {
        live_rows(s, n - 1)
    } else {
        live_rows(s, n - 1).push(n - 1)
    }
}

/// The raw bytes of field `k` of record `i`.
pub open spec fn field_bytes(s: Seq<u8>, i: int, k: int) -> Seq<u8> {
    spec_record_slice(s, i).subrange(1 + sum_desc_widths(s, k), 1 + sum_desc_widths(s, k + 1))
}

/// Whether `row` is the materialized decoding of record `i`.
pub open spec fn row_matches(
    row: Seq<(String, OutValue)>,
    s: Seq<u8>,
    i: int,
    e: TextEncoding,
    m: Option<Seq<u8>>,
) -> bool {
    &&& row.len() == spec_field_count(s)
    &&& forall|k: int|
        0 <= k < row.len() ==> {
            &&& (#[trigger] row[k]).0@ == spec_desc_name(s, k)
            &&& row[k].1@ == spec_materialize(
                spec_decode_field(spec_desc_type(s, k), field_bytes(s, i, k), e, m),
            )
        }
}

/// Whether `rows` are exactly the materialized decodings of the
/// non-deleted records, in record order.
pub open spec fn rows_match(
    rows: Seq<Vec<(String, OutValue)>>,
    s: Seq<u8>,
    e: TextEncoding,
    m: Option<Seq<u8>>,
) -> bool {
    let live = live_rows(s, spec_record_count(s));
    &&& rows.len() == live.len()
    &&& forall|j: int| 0 <= j < rows.len() ==> row_matches((#[trigger] rows[j])@, s, live[j], e, m)
}

/// Whether `ft` is the table's ordered name-to-tag schema.
pub open spec fn schema_matches(ft: Seq<(String, String)>, s: Seq<u8>) -> bool {
    &&& ft.len() == spec_field_count(s)
    &&& forall|k: int|
        0 <= k < ft.len() ==> {
            &&& (#[trigger] ft[k]).0@ == spec_desc_name(s, k)
            &&& ft[k].1@ == tag_label_chars(spec_desc_type(s, k))
        }
}

/// Whether some descriptor of the table declares the memo type.
pub open spec fn spec_table_has_memo(s: Seq<u8>) -> bool {
    exists|k: int| 0 <= k < spec_field_count(s) && #[trigger] spec_desc_type(s, k) == FieldType::Memo
}

/// The decoded table: one ordered row per surviving record, and the
/// ordered field-name-to-type-tag schema.
#[derive(Debug)]
pub struct DbfResult {
    pub records: Vec<Vec<(String, OutValue)>>,
    pub field_types: Vec<(String, String)>,
}

/// Materializes one decoded record into its ordered output scalars.
pub fn materialize_row(vals: Vec<(String, FieldValue)>) -> (r: Vec<(String, OutValue)>)
    ensures
        r@.len() == vals@.len(),
        forall|k: int|
            0 <= k < vals@.len() ==> {
                &&& (#[trigger] r@[k]).0@ == vals@[k].0@
                &&& r@[k].1@ == spec_materialize(vals@[k].1@)
            },
{
    let ghost orig = vals@;
    let mut rest = vals;
    let mut out: Vec<(String, OutValue)> = Vec::new();
    while rest.len() > 0
        invariant
            out@.len() + rest@.len() == orig.len(),
            rest@ == orig.subrange(out@.len() as int, orig.len() as int),
            forall|k: int|
                0 <= k < out@.len() ==> {
                    &&& (#[trigger] out@[k]).0@ == orig[k].0@
                    &&& out@[k].1@ == spec_materialize(orig[k].1@)
                },
        decreases rest@.len(),
    {
        let (name, v) = rest.remove(0);
        let scalar = crate::value::materialize(v);
        out.push((name, scalar));
        proof {
            assert(rest@ =~= orig.subrange(out@.len() as int, orig.len() as int));
        }
    }
    out
}

/// Reads a whole table: selects the encoding, parses the header, walks
/// the declared count of fixed-length records skipping deleted ones,
/// decodes and materializes every surviving record, and returns the rows
/// with the schema map.
///
/// Fails with a configuration error exactly on an unsupported encoding
/// selector (before any byte is parsed), with the header verdict's error
/// exactly when the header does not parse, and with a truncation error
/// exactly when the buffer ends before the declared record stream.
pub fn read_dbf_with_types(
    file_content: &[u8],
    memo_content: Option<Vec<u8>>,
    encoding_name: Option<String>,
) -> (r: Result<DbfResult, DbfError>)
    ensures
        match r {
            Ok(res) => {
                &&& header_verdict(file_content@) is Ok
                &&& !records_truncated(file_content@)
                &&& schema_matches(res.field_types@, file_content@)
                &&& spec_select(opt_str_view(encoding_name)) matches Some(enc) && rows_match(
                    res.records@,
                    file_content@,
                    enc,
                    opt_bytes_view(memo_content),
                )
            },
            Err(DbfError::Config(ce)) => {
                &&& spec_select(opt_str_view(encoding_name)) is None
                &&& match (ce, encoding_name) {
                    (
                        crate::error::ConfigError::UnsupportedEncoding(nm),
                        Some(orig),
                    ) => nm@ == orig@,
                    _ => false,
                }
            },
            Err(DbfError::Format(e)) => {
                &&& spec_select(opt_str_view(encoding_name)) is Some
                &&& (header_verdict(file_content@) == Err::<(), FormatError>(e) || (
                header_verdict(file_content@) is Ok && e == FormatError::TruncatedRecords
                    && records_truncated(file_content@)))
            },
        },
{
    let enc = match crate::encoding::select_encoding(&encoding_name) {
        Ok(e) => e,
        Err(ce) => {
            return Err(DbfError::Config(ce));
        },
    };
    let header = match parse_header(file_content) {
        Ok(h) => h,
        Err(e) => {
            return Err(DbfError::Format(e));
        },
    };
    let len = file_content.len();
    let hl: usize = header.header_length as usize;
    let rl: usize = header.record_length as usize;
    let rc: usize = header.record_count as usize;
    proof {
        assert((rc as u64) * (rl as u64) <= 0xFFFFFFFFu64 * 0xFFFFu64) by (nonlinear_arith)
            requires
                rc as u64 <= 0xFFFFFFFFu64,
                rl as u64 <= 0xFFFFu64,
        ;
    }
    let need: u64 = hl as u64 + (rc as u64) * (rl as u64);
    if need > len as u64 {
        return Err(DbfError::Format(FormatError::TruncatedRecords));
    }
    let store = MemoStore::open(memo_content);
    let ghost s = file_content@;
    let ghost m = store@;
    let nf = header.fields.len();
    let mut field_types: Vec<(String, String)> = Vec::new();
    let mut k: usize = 0;
    while k < nf
        invariant
            k <= nf,
            nf == header.fields.len(),
            crate::header::header_matches(header, s),
            s == file_content@,
            field_types@.len() == k,
            forall|j: int|
                0 <= j < k ==> {
                    &&& (#[trigger] field_types@[j]).0@ == spec_desc_name(s, j)
                    &&& field_types@[j].1@ == tag_label_chars(spec_desc_type(s, j))
                },
        decreases nf - k,
    {
        let name = header.fields[k].name.clone();
        let label = type_label(header.fields[k].field_type);
        field_types.push((name, label));
        k = k + 1;
    }
    let mut records: Vec<Vec<(String, OutValue)>> = Vec::new();
    let mut off: usize = hl;
    let mut i: usize = 0;
    while i < rc
        invariant
            i <= rc,
            s == file_content@,
            m == store@,
            len == s.len(),
            crate::header::header_matches(header, s),
            header.wf(),
            hl == header.header_length,
            rl == header.record_length,
            rc == header.record_count,
            hl + (rc as int) * (rl as int) <= len,
            off == hl + (i as int) * (rl as int),
            records@.len() == live_rows(s, i as int).len(),
            forall|j: int|
                0 <= j < records@.len() ==> row_matches(
                    (#[trigger] records@[j])@,
                    s,
                    live_rows(s, i as int)[j],
                    enc,
                    m,
                ),
        decreases rc - i,
    {
        proof {
            assert((i as int + 1) * (rl as int) <= (rc as int) * (rl as int)) by (nonlinear_arith)
                requires
                    i as int + 1 <= rc as int,
                    rl as int >= 0,
            ;
            assert((i as int + 1) * (rl as int) == (i as int) * (rl as int) + (rl as int))
                by (nonlinear_arith);
            assert(off + rl <= len);
            lemma_sum_widths_nonneg(header.fields@, header.fields.len() as int);
            assert(rl >= 1);
        }
        let slice = &file_content[off..off + rl];
        proof {
            assert(slice@ =~= spec_record_slice(s, i as int));
            assert(slice@[0] == s[record_off(s, i as int)]);
        }
        if slice[0] != 42 {
            let vals = decode_record(slice, &header.fields, enc, &store);
            let row = materialize_row(vals);
            records.push(row);
            proof {
                let ghost fs = header.fields@;
                assert(live_rows(s, i as int + 1) =~= live_rows(s, i as int).push(i as int));
                assert forall|q: int| 0 <= q < fs.len() implies spec_field_slice(
                    slice@,
                    fs,
                    q,
                ) == field_bytes(s, i as int, q) by {
                    crate::header::lemma_sums_agree(fs, s, q);
                    crate::header::lemma_sums_agree(fs, s, q + 1);
                    assert(spec_field_slice(slice@, fs, q) =~= field_bytes(s, i as int, q));
                }
                assert(row_matches(records@[records@.len() - 1]@, s, i as int, enc, m));
            }
        } else {
            proof {
                assert(live_rows(s, i as int + 1) =~= live_rows(s, i as int));
            }
        }
        off = off + rl;
        i = i + 1;
    }
    Ok(DbfResult { records, field_types })
}

/// Reads a whole table and returns only the record rows, the schema map
/// discarded; the legacy variant of `read_dbf_with_types`.
pub fn read_dbf(
    file_content: &[u8],
    memo_content: Option<Vec<u8>>,
    encoding_name: Option<String>,
) -> (r: Result<Vec<Vec<(String, OutValue)>>, DbfError>)
    ensures
        match r {
            Ok(rows) => {
                &&& header_verdict(file_content@) is Ok
                &&& !records_truncated(file_content@)
                &&& spec_select(opt_str_view(encoding_name)) matches Some(enc) && rows_match(
                    rows@,
                    file_content@,
                    enc,
                    opt_bytes_view(memo_content),
                )
            },
            Err(DbfError::Config(ce)) => {
                &&& spec_select(opt_str_view(encoding_name)) is None
                &&& match (ce, encoding_name) {
                    (
                        crate::error::ConfigError::UnsupportedEncoding(nm),
                        Some(orig),
                    ) => nm@ == orig@,
                    _ => false,
                }
            },
            Err(DbfError::Format(e)) => {
                &&& spec_select(opt_str_view(encoding_name)) is Some
                &&& (header_verdict(file_content@) == Err::<(), FormatError>(e) || (
                header_verdict(file_content@) is Ok && e == FormatError::TruncatedRecords
                    && records_truncated(file_content@)))
            },
        },
{
    match read_dbf_with_types(file_content, memo_content, encoding_name) {
        Ok(res) => Ok(res.records),
        Err(e) => Err(e),
    }
}

/// Returns whether the table declares any memo field, so that a caller
/// knows a memo side-file is required; fails exactly when the header
/// does not parse.
pub fn dbf_needs_memo(file_content: &[u8]) -> (r: Result<bool, DbfError>)
    ensures
        match r {
            Ok(b) => header_verdict(file_content@) is Ok && b == spec_table_has_memo(
                file_content@,
            ),
            Err(e) => match e {
                DbfError::Format(fe) => header_verdict(file_content@) == Err::<(),
                    FormatError,
                >(fe),
                _ => false,
            },
        },
{
    let header = match parse_header(file_content) {
        Ok(h) => h,
        Err(e) => {
            return Err(DbfError::Format(e));
        },
    };
    let b = header.has_memo_field();
    proof {
        let ghost s = file_content@;
        if header.spec_has_memo() {
            let k = choose|k: int|
                0 <= k < header.fields.len() && (#[trigger] header.fields[k].field_type)
                    == FieldType::Memo;
            assert(spec_desc_type(s, k) == FieldType::Memo);
            assert(spec_table_has_memo(s));
        }
        if spec_table_has_memo(s) {
            let k = choose|k: int|
                0 <= k < spec_field_count(s) && #[trigger] spec_desc_type(s, k)
                    == FieldType::Memo;
            assert(header.fields[k].field_type == FieldType::Memo);
            assert(header.spec_has_memo());
        }
    }
    Ok(b)
}

} // verus!
