//! Parsing of the fixed-size table header and the field-descriptor array.
//!
//! The 32-byte header declares the record count, the header length and the
//! record length.  It is followed by one 32-byte descriptor per field and a
//! single terminator byte `0x0D`.  `header_verdict` is the specification of
//! the whole parse: which error comes on which input, and `header_matches`
//! says what the parsed header holds when the parse succeeds.
use vstd::prelude::*;

use crate::bytes::{le16, le32};
use crate::error::FormatError;
use crate::text::push_char;

verus! {

/// The nine recognized field types, by their descriptor tag byte.
#[derive(Debug, Clone, Copy, PartialEq, Eq, Structural)]
pub enum FieldType {
    Character,
    Numeric,
    Float,
    Integer,
    Date,
    DateTime,
    Logical,
    Currency,
    Memo,
}

/// One column's metadata, as stored in its 32-byte descriptor.
#[derive(Debug, Clone)]
pub struct FieldDescriptor {
    /// The stored name: the descriptor's first 11 bytes up to the first
    /// zero byte, each taken as one character.
    pub name: String,
    pub field_type: FieldType,
    /// The stored width of the field in bytes; always positive.
    pub length: u8,
    /// Declared decimal count; metadata only, not enforced at decode time.
    pub decimal_count: u8,
}

/// The parsed fixed header and descriptor array.
#[derive(Debug, Clone)]
pub struct TableHeader {
    pub record_count: u32,
    pub header_length: u16,
    pub record_length: u16,
    /// Last-update year as stored (a single byte).
    pub last_update_year: u8,
    /// Last-update month as stored.
    pub last_update_month: u8,
    /// Last-update day as stored.
    pub last_update_day: u8,
    pub fields: Vec<FieldDescriptor>,
}

/// The field type a descriptor tag byte stands for, if any.
pub open spec fn tag_of_byte(b: u8) -> Option<FieldType> {
    if b == 67 {
        Some(FieldType::Character)
    } else if b == 78 {
        Some(FieldType::Numeric)
    } else if b == 70 {
        Some(FieldType::Float)
    } else if b == 73 {
        Some(FieldType::Integer)
    } else if b == 68 {
        Some(FieldType::Date)
    } else if b == 84 {
        Some(FieldType::DateTime)
    } else if b == 76 {
        Some(FieldType::Logical)
    } else if b == 89 {
        Some(FieldType::Currency)
    } else if b == 77 {
        Some(FieldType::Memo)
    } else {
        None
    }
}

/// Byte offset of descriptor `k` in the table buffer.
pub open spec fn desc_off(k: int) -> int {
    32 + 32 * k
}

pub open spec fn spec_header_len(s: Seq<u8>) -> int {
    le16(s, 8)
}

pub open spec fn spec_record_len(s: Seq<u8>) -> int {
    le16(s, 10)
}

pub open spec fn spec_record_count(s: Seq<u8>) -> int {
    le32(s, 4)
}

/// Number of descriptors the declared header length implies.
pub open spec fn spec_field_count(s: Seq<u8>) -> int {
    (spec_header_len(s) - 33) / 32
}

/// Too few bytes for the fixed header or for the declared header length.
pub open spec fn header_truncated(s: Seq<u8>) -> bool {
    s.len() < 32 || spec_header_len(s) > s.len()
}

/// A header length below the minimum or not on a descriptor boundary.
pub open spec fn header_shape_bad(s: Seq<u8>) -> bool {
    spec_header_len(s) < 33 || (spec_header_len(s) - 33) % 32 != 0
}

/// The declared width of the field of descriptor `k`.
pub open spec fn spec_desc_width(s: Seq<u8>, k: int) -> int {
    s[desc_off(k) + 16] as int
}

/// Sum of the declared widths of the first `k` descriptors.
pub open spec fn sum_desc_widths(s: Seq<u8>, k: int) -> int
    decreases k,
{
    if k <= 0 {
        0
    } else {
        sum_desc_widths(s, k - 1) + spec_desc_width(s, k - 1)
    }
}

/// Scans descriptors `k..n` in order for the first faulty one: an
/// unrecognized type byte or a zero width.
pub open spec fn scan_descs(s: Seq<u8>, k: int, n: int) -> Result<(), FormatError>
    decreases n - k,
{
    if k >= n {
        Ok(())
    } else if tag_of_byte(s[desc_off(k) + 11]) is None {
        Err(FormatError::UnknownFieldType(s[desc_off(k) + 11]))
    } else if s[desc_off(k) + 16] == 0 {
        Err(FormatError::MalformedHeader)
    } else {
        scan_descs(s, k + 1, n)
    }
}

/// The outcome of the header parse on the given bytes: success, or the
/// one error the parse reports first.
pub open spec fn header_verdict(s: Seq<u8>) -> Result<(), FormatError> {
    if header_truncated(s) {
        Err(FormatError::TruncatedHeader)
    } else if header_shape_bad(s) {
        Err(FormatError::MalformedHeader)
    } else {
        match scan_descs(s, 0, spec_field_count(s)) {
            Err(e) => Err(e),
            Ok(()) => if s[spec_header_len(s) - 1] != 13 {
                Err(FormatError::MalformedHeader)
            } else if spec_record_len(s) != 1 + sum_desc_widths(s, spec_field_count(s)) {
                Err(FormatError::MalformedHeader)
            } else {
                Ok(())
            },
        }
    }
}

/// First index at or after `j` (within the 11 name bytes starting at
/// `off`) holding a zero byte, or 11 if none does.
pub open spec fn name_end(s: Seq<u8>, off: int, j: int) -> int
    decreases 11 - j,
{
    if j >= 11 {
        11
    } else if s[off + j] == 0 {
        j
    } else {
        name_end(s, off, j + 1)
    }
}

/// The `n` bytes at `off`, each taken as one character.
pub open spec fn ascii_seq(s: Seq<u8>, off: int, n: int) -> Seq<char> {
    Seq::new(if n >= 0 { n as nat } else { 0 }, |i: int| s[off + i] as char)
}

/// The stored name of descriptor `k`: its name bytes up to the first zero.
pub open spec fn spec_desc_name(s: Seq<u8>, k: int) -> Seq<char> {
    ascii_seq(s, desc_off(k), name_end(s, desc_off(k), 0))
}

/// Whether `f` is exactly what descriptor `k` of the buffer declares.
pub open spec fn desc_matches(f: FieldDescriptor, s: Seq<u8>, k: int) -> bool {
    &&& f.name@ == spec_desc_name(s, k)
    &&& Some(f.field_type) == tag_of_byte(s[desc_off(k) + 11])
    &&& f.length == s[desc_off(k) + 16]
    &&& f.decimal_count == s[desc_off(k) + 17]
}

/// Whether the parsed header is exactly what the buffer declares.
pub open spec fn header_matches(h: TableHeader, s: Seq<u8>) -> bool {
    &&& h.record_count == spec_record_count(s)
    &&& h.header_length == spec_header_len(s)
    &&& h.record_length == spec_record_len(s)
    &&& h.last_update_year == s[1]
    &&& h.last_update_month == s[2]
    &&& h.last_update_day == s[3]
    &&& h.fields.len() == spec_field_count(s)
    &&& forall|k: int| 0 <= k < h.fields.len() ==> desc_matches(#[trigger] h.fields[k], s, k)
}

/// Sum of the widths of the first `k` parsed fields.
pub open spec fn sum_field_widths(fs: Seq<FieldDescriptor>, k: int) -> int
    decreases k,
{
    if k <= 0 {
        0
    } else {
        sum_field_widths(fs, k - 1) + fs[k - 1].length as int
    }
}

impl TableHeader {
    /// The internal invariant every successfully parsed header satisfies:
    /// the declared lengths agree with the descriptor array.
    pub open spec fn wf(self) -> bool {
        &&& self.header_length == 33 + 32 * self.fields.len()
        &&& self.record_length == 1 + sum_field_widths(self.fields@, self.fields.len() as int)
        &&& forall|k: int| 0 <= k < self.fields.len() ==> (#[trigger] self.fields[k].length) > 0
    }

    /// Whether some field of the table is a memo field.
    pub open spec fn spec_has_memo(self) -> bool {
        exists|k: int|
            0 <= k < self.fields.len() && (#[trigger] self.fields[k].field_type)
                == FieldType::Memo
    }

    /// Returns whether some field of the table is a memo field.
    pub fn has_memo_field(&self) -> (r: bool)
        ensures
            r == self.spec_has_memo(),
    {
        let n = self.fields.len();
        let mut k: usize = 0;
        while k < n
            invariant
                k <= n,
                n == self.fields.len(),
                forall|j: int|
                    0 <= j < k ==> (#[trigger] self.fields[j].field_type) != FieldType::Memo,
            decreases n - k,
        {
            if matches!(self.fields[k].field_type, FieldType::Memo) {
                return true;
            }
            k = k + 1;
        }
        false
    }
}

/// Reads the stored name of the descriptor at byte offset `off`.
fn parse_name(s: &[u8], off: usize) -> (r: String)
    requires
        off + 11 <= s@.len(),
    ensures
        r@ == ascii_seq(s@, off as int, name_end(s@, off as int, 0)),
{
    let slen = s.len();
    let mut e: usize = 0;
    while e < 11 && s[off + e] != 0
        invariant
            off + 11 <= s@.len(),
            slen == s@.len(),
            e <= 11,
            name_end(s@, off as int, 0) == name_end(s@, off as int, e as int),
        decreases 11 - e,
    {
        e = e + 1;
    }
    proof {
        assert(name_end(s@, off as int, e as int) == e);
    }
    let mut name = String::new();
    let mut j: usize = 0;
    while j < e
        invariant
            off + 11 <= s@.len(),
            slen == s@.len(),
            j <= e,
            e <= 11,
            name@ == ascii_seq(s@, off as int, j as int),
        decreases e - j,
    {
        let b = s[off + j];
        push_char(&mut name, b as char);
        j = j + 1;
        proof {
            assert(ascii_seq(s@, off as int, j as int) =~= ascii_seq(
                s@,
                off as int,
                j as int - 1,
            ).push(s@[off + j - 1] as char));
        }
    }
    proof {
        assert(name@ =~= ascii_seq(s@, off as int, e as int));
    }
    name
}

/// Parses the fixed header and the field-descriptor array.
///
/// Succeeds exactly when `header_verdict` does, and then returns the
/// header the buffer declares, which satisfies the `wf` invariant.
pub fn parse_header(table: &[u8]) -> (r: Result<TableHeader, FormatError>)
    ensures
        match r {
            Ok(h) => header_verdict(table@) is Ok && header_matches(h, table@) && h.wf(),
            Err(e) => header_verdict(table@) == Err::<(), FormatError>(e),
        },
{
    let len = table.len();
    if len < 32 {
        return Err(FormatError::TruncatedHeader);
    }
    let hl = crate::bytes::read_le16(table, 8);
    if hl as usize > len {
        return Err(FormatError::TruncatedHeader);
    }
    if hl < 33 || (hl - 33) % 32 != 0 {
        return Err(FormatError::MalformedHeader);
    }
    let n: usize = ((hl - 33) / 32) as usize;
    let ghost gn: int = spec_field_count(table@);
    proof {
        assert(gn == n);
    }
    let mut fields: Vec<FieldDescriptor> = Vec::new();
    let mut total: u32 = 0;
    let mut k: usize = 0;
    while k < n
        invariant
            n <= 2047,
            k <= n,
            len == table@.len(),
            hl == spec_header_len(table@),
            hl as int == 33 + 32 * n,
            hl as usize <= len,
            total == sum_desc_widths(table@, k as int),
            total <= k * 255,
            fields.len() == k,
            scan_descs(table@, 0, n as int) == scan_descs(table@, k as int, n as int),
            forall|j: int| 0 <= j < k ==> desc_matches(#[trigger] fields[j], table@, j),
            forall|j: int| 0 <= j < k ==> (#[trigger] fields[j].length) > 0,
        decreases n - k,
    {
        let off: usize = 32 + 32 * k;
        let tag = table[off + 11];
        let ft_opt = match tag {
            67 => Some(FieldType::Character),
            78 => Some(FieldType::Numeric),
            70 => Some(FieldType::Float),
            73 => Some(FieldType::Integer),
            68 => Some(FieldType::Date),
            84 => Some(FieldType::DateTime),
            76 => Some(FieldType::Logical),
            89 => Some(FieldType::Currency),
            77 => Some(FieldType::Memo),
            _ => None,
        };
        proof {
            assert(ft_opt == tag_of_byte(tag));
        }
        let ft = match ft_opt {
            Some(ft) => ft,
            None => {
                return Err(FormatError::UnknownFieldType(tag));
            },
        };
        let width = table[off + 16];
        if width == 0 {
            return Err(FormatError::MalformedHeader);
        }
        let name = parse_name(table, off);
        let desc = FieldDescriptor {
            name,
            field_type: ft,
            length: width,
            decimal_count: table[off + 17],
        };
        fields.push(desc);
        total = total + width as u32;
        k = k + 1;
    }
    if table[(hl as usize) - 1] != 13 {
        return Err(FormatError::MalformedHeader);
    }
    let rl = crate::bytes::read_le16(table, 10);
    if rl as u32 != 1 + total {
        return Err(FormatError::MalformedHeader);
    }
    let rc = crate::bytes::read_le32(table, 4);
    let h = TableHeader {
        record_count: rc,
        header_length: hl,
        record_length: rl,
        last_update_year: table[1],
        last_update_month: table[2],
        last_update_day: table[3],
        fields,
    };
    proof {
        assert(header_verdict(table@) is Ok);
        lemma_sums_agree(h.fields@, table@, h.fields.len() as int);
        assert(h.wf());
    }
    Ok(h)
}

/// When each parsed field matches its descriptor, the two width sums agree.
pub proof fn lemma_sums_agree(fs: Seq<FieldDescriptor>, s: Seq<u8>, k: int)
    requires
        k <= fs.len(),
        forall|j: int| 0 <= j < fs.len() ==> desc_matches(#[trigger] fs[j], s, j),
    ensures
        sum_field_widths(fs, k) == sum_desc_widths(s, k),
    decreases k,
{
    if k > 0 {
        lemma_sums_agree(fs, s, k - 1);
    }
}

} // verus!
