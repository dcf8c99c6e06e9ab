//! Decoding one fixed-length record into typed values.
//!
//! Processing walks the field descriptors left to right, each consuming
//! exactly its declared width at the next offset.  Each field type has a
//! spec function giving the decoded value of its raw bytes, and an exec
//! decoder proved to return exactly that value.
use vstd::prelude::*;

use crate::bytes::{all_spaces, as_signed32, as_signed64, le32, le64, trim_both, trim_end, trimmed_end, trimmed_start};
use crate::encoding::{decode_text, decoded_text, TextEncoding};
use crate::header::{sum_field_widths, FieldDescriptor, FieldType};
use crate::memo::{spec_resolve, MemoStore};
use crate::value::{opt_text_view, Date, DateTime, Decimal, FieldValue, SpecFieldValue};

verus! {

/// Whether the byte is an ASCII decimal digit.
pub open spec fn is_digit(b: u8) -> bool {
    48 <= b <= 57
}

/// Whether every byte of `s` is an ASCII decimal digit.
pub open spec fn all_digits(s: Seq<u8>) -> bool {
    forall|i: int| 0 <= i < s.len() ==> is_digit(#[trigger] s[i])
}

/// The value of a sequence of ASCII digits, most significant first.
pub open spec fn digits_val(s: Seq<u8>) -> int
    decreases s.len(),
{
    if s.len() == 0 {
        0
    } else {
        digits_val(s.drop_last()) * 10 + (s.last() - 48)
    }
}

proof fn lemma_digits_val_nonneg(s: Seq<u8>)
    requires
        all_digits(s),
    ensures
        digits_val(s) >= 0,
    decreases s.len(),
{
    if s.len() > 0 {
        assert(all_digits(s.drop_last())) by {
            assert forall|i: int| 0 <= i < s.drop_last().len() implies is_digit(
                #[trigger] s.drop_last()[i],
            ) by {
                assert(s.drop_last()[i] == s[i]);
            }
        }
        lemma_digits_val_nonneg(s.drop_last());
    }
}

/// A prefix of a digit string is worth no more than the whole string.
proof fn lemma_digits_val_prefix_le(s: Seq<u8>, k: int)
    requires
        0 <= k <= s.len(),
        all_digits(s),
    ensures
        digits_val(s.take(k)) <= digits_val(s),
    decreases s.len() - k,
{
    if k < s.len() {
        lemma_digits_val_prefix_le(s, k + 1);
        assert(s.take(k + 1).drop_last() =~= s.take(k));
        assert(all_digits(s.take(k))) by {
            assert forall|i: int| 0 <= i < s.take(k).len() implies is_digit(
                #[trigger] s.take(k)[i],
            ) by {
                assert(s.take(k)[i] == s[i]);
            }
        }
        lemma_digits_val_nonneg(s.take(k));
        assert(digits_val(s.take(k + 1)) == digits_val(s.take(k)) * 10 + (s[k] - 48));
    } else {
        assert(s.take(k) =~= s);
    }
}

/// First index at or after `i` holding an ASCII dot, or the end.
pub open spec fn first_dot(s: Seq<u8>, i: int) -> int
    decreases s.len() - i,
{
    if i < 0 || i >= s.len() {
        s.len() as int
    } else if s[i] == 46 {
        i
    } else {
        first_dot(s, i + 1)
    }
}

/// The sign, digit value and fraction length of a trimmed decimal
/// numeral: an optional sign, then digits with at most one dot and at
/// least one digit.  `None` when the bytes are not such a numeral.
pub open spec fn spec_number(t: Seq<u8>) -> Option<(bool, int, int)> {
    if t.len() == 0 {
        None
    } else {
        let neg = t[0] == 45;
        let body = if t[0] == 45 || t[0] == 43 {
            t.skip(1)
        } else {
            t
        };
        let p = first_dot(body, 0);
        let ip = body.take(p);
        let fp = if p == body.len() {
            Seq::<u8>::empty()
        } else {
            body.skip(p + 1)
        };
        if all_digits(ip) && all_digits(fp) && ip.len() + fp.len() > 0 {
            Some((neg, digits_val(ip + fp), fp.len() as int))
        } else {
            None
        }
    }
}

/// The decimal a numeric field's raw bytes decode to: surrounding spaces
/// trimmed, then parsed as a decimal numeral.  All-blank or unparsable
/// bytes (including a digit value beyond the 64-bit mantissa range)
/// decode to the absent value.
pub open spec fn spec_parse_decimal(raw: Seq<u8>) -> Option<Decimal> {
    match spec_number(trim_both(raw)) {
        None => None,
        Some((neg, m, sc)) => if m <= i64::MAX as int && sc <= 255 {
            Some(
                Decimal {
                    mantissa: (if neg {
                        -m
                    } else {
                        m
                    }) as i64,
                    scale: sc as u8,
                },
            )
        } else {
            None
        },
    }
}

/// Accumulates the value of the digits of `ip` followed by those of
/// `fp`, or reports that it exceeds the 64-bit mantissa range.
fn digits_value(ip: &[u8], fp: &[u8]) -> (r: Option<u64>)
    requires
        all_digits(ip@),
        all_digits(fp@),
    ensures
        ({
            let full = ip@ + fp@;
            match r {
                Some(m) => m as int == digits_val(full) && digits_val(full) <= i64::MAX as int,
                None => digits_val(full) > i64::MAX as int,
            }
        }),
{
    let ghost full = ip@ + fp@;
    proof {
        assert(all_digits(full)) by {
            assert forall|i: int| 0 <= i < full.len() implies is_digit(#[trigger] full[i]) by {
                if i < ip@.len() {
                    assert(full[i] == ip@[i]);
                } else {
                    assert(full[i] == fp@[i - ip@.len()]);
                }
            }
        }
    }
    let iplen = ip.len();
    let fplen = fp.len();
    let mut m: u64 = 0;
    let mut i: usize = 0;
    while i < iplen
        invariant
            i <= iplen,
            iplen == ip@.len(),
            fplen == fp@.len(),
            all_digits(ip@),
            all_digits(fp@),
            all_digits(full),
            full == ip@ + fp@,
            m <= i64::MAX as u64,
            m as int == digits_val(full.take(i as int)),
        decreases iplen - i,
    {
        proof {
            assert(is_digit(ip@[i as int]));
        }
        let d: u8 = ip[i] - 48;
        proof {
            assert(full.take(i as int + 1).drop_last() =~= full.take(i as int));
            assert(full.take(i as int + 1).last() == ip@[i as int]);
        }
        if m > 922337203685477580 || (m == 922337203685477580 && d > 7) {
            proof {
                lemma_digits_val_prefix_le(full, i as int + 1);
            }
            return None;
        }
        m = m * 10 + d as u64;
        i = i + 1;
    }
    proof {
        assert(full.take(iplen as int) =~= ip@);
    }
    let mut j: usize = 0;
    while j < fplen
        invariant
            j <= fplen,
            iplen == ip@.len(),
            fplen == fp@.len(),
            all_digits(ip@),
            all_digits(fp@),
            all_digits(full),
            full == ip@ + fp@,
            m <= i64::MAX as u64,
            m as int == digits_val(full.take(iplen as int + j as int)),
        decreases fplen - j,
    {
        proof {
            assert(is_digit(fp@[j as int]));
        }
        let d: u8 = fp[j] - 48;
        proof {
            assert(full.take(iplen as int + j as int + 1).drop_last() =~= full.take(
                iplen as int + j as int,
            ));
            assert(full.take(iplen as int + j as int + 1).last() == fp@[j as int]);
        }
        if m > 922337203685477580 || (m == 922337203685477580 && d > 7) {
            proof {
                lemma_digits_val_prefix_le(full, iplen as int + j as int + 1);
            }
            return None;
        }
        m = m * 10 + d as u64;
        j = j + 1;
    }
    proof {
        assert(full.take(iplen as int + fplen as int) =~= full);
    }
    Some(m)
}

/// Checks that every byte of the slice is an ASCII digit.
fn check_all_digits(s: &[u8]) -> (r: bool)
    ensures
        r == all_digits(s@),
{
    let n = s.len();
    let mut i: usize = 0;
    while i < n
        invariant
            i <= n,
            n == s@.len(),
            forall|k: int| 0 <= k < i ==> is_digit(#[trigger] s@[k]),
        decreases n - i,
    {
        if s[i] < 48 || s[i] > 57 {
            return false;
        }
        i = i + 1;
    }
    true
}

/// Parses the raw bytes of a numeric or float field into an exact
/// decimal, or the absent value when they are blank or unparsable.
pub fn parse_decimal(raw: &[u8]) -> (r: Option<Decimal>)
    ensures
        r == spec_parse_decimal(raw@),
{
    let t0 = trimmed_end(raw);
    let t = trimmed_start(t0);
    let n = t.len();
    if n == 0 {
        return None;
    }
    let neg = t[0] == 45;
    let start: usize = if t[0] == 45 || t[0] == 43 {
        1
    } else {
        0
    };
    let body: &[u8] = &t[start..n];
    proof {
        if start == 1 {
            assert(body@ =~= t@.skip(1));
        } else {
            assert(body@ =~= t@);
        }
    }
    let blen = body.len();
    let mut p: usize = 0;
    while p < blen && body[p] != 46
        invariant
            p <= blen,
            blen == body@.len(),
            first_dot(body@, 0) == first_dot(body@, p as int),
        decreases blen - p,
    {
        p = p + 1;
    }
    proof {
        assert(first_dot(body@, p as int) == p);
    }
    let ip: &[u8] = &body[0..p];
    let fp: &[u8] = if p == blen {
        &body[0..0]
    } else {
        &body[p + 1..blen]
    };
    proof {
        assert(ip@ =~= body@.take(p as int));
        if p == blen {
            assert(fp@ =~= Seq::<u8>::empty());
        } else {
            assert(fp@ =~= body@.skip(p as int + 1));
        }
    }
    if ip.len() == 0 && fp.len() == 0 {
        return None;
    }
    if !check_all_digits(ip) {
        return None;
    }
    if !check_all_digits(fp) {
        return None;
    }
    if fp.len() > 255 {
        return None;
    }
    let m = match digits_value(ip, fp) {
        None => {
            return None;
        },
        Some(m) => m,
    };
    let mantissa: i64 = if neg {
        -(m as i64)
    } else {
        m as i64
    };
    Some(Decimal { mantissa, scale: fp.len() as u8 })
}

/// The text a character field decodes to: trailing spaces stripped, the
/// absent value when nothing remains, the decoded remainder otherwise.
pub open spec fn spec_decode_character(s: Seq<u8>, e: TextEncoding) -> Option<Seq<char>> {
    let t = trim_end(s);
    if t.len() == 0 {
        None
    } else {
        Some(decoded_text(e, t))
    }
}

/// Decodes a character field.
pub fn decode_character(raw: &[u8], e: TextEncoding) -> (r: Option<String>)
    ensures
        opt_text_view(r) == spec_decode_character(raw@, e),
{
    let t = trimmed_end(raw);
    if t.len() == 0 {
        None
    } else {
        Some(decode_text(e, t))
    }
}

/// The truth value a logical field's first byte decodes to: `T`, `t`,
/// `Y` and `y` mean true, `F`, `f`, `N` and `n` mean false, anything
/// else (space, `?`) is the absent value.
pub open spec fn spec_decode_logical(s: Seq<u8>) -> Option<bool> {
    if s.len() == 0 {
        None
    } else {
        let b = s[0];
        if b == 84 || b == 116 || b == 89 || b == 121 {
            Some(true)
        } else if b == 70 || b == 102 || b == 78 || b == 110 {
            Some(false)
        } else {
            None
        }
    }
}

/// Decodes a logical field.
pub fn decode_logical(raw: &[u8]) -> (r: Option<bool>)
    ensures
        r == spec_decode_logical(raw@),
{
    if raw.len() == 0 {
        return None;
    }
    let b = raw[0];
    if b == 84 || b == 116 || b == 89 || b == 121 {
        Some(true)
    } else if b == 70 || b == 102 || b == 78 || b == 110 {
        Some(false)
    } else {
        None
    }
}

/// The date an 8-byte `YYYYMMDD` field decodes to: all-blank or
/// non-digit bytes, a width other than 8, or an impossible month or day
/// give the absent value.
pub open spec fn spec_decode_date(s: Seq<u8>) -> Option<Date> {
    if s.len() != 8 {
        None
    } else if all_spaces(s) {
        None
    } else if !all_digits(s) {
        None
    } else {
        let y = digits_val(s.take(4));
        let m = digits_val(s.subrange(4, 6));
        let d = digits_val(s.subrange(6, 8));
        if 1 <= m <= 12 && 1 <= d <= 31 {
            Some(Date { year: y as u32, month: m as u32, day: d as u32 })
        } else {
            None
        }
    }
}

/// Decodes a date field.
pub fn decode_date(raw: &[u8]) -> (r: Option<Date>)
    ensures
        r == spec_decode_date(raw@),
{
    if raw.len() != 8 {
        return None;
    }
    let mut blank = true;
    let mut i: usize = 0;
    while i < 8
        invariant
            i <= 8,
            raw@.len() == 8,
            blank == (forall|k: int| 0 <= k < i ==> raw@[k] == 32),
        decreases 8 - i,
    {
        if raw[i] != 32 {
            blank = false;
            proof {
                assert(!(forall|k: int| 0 <= k < i + 1 ==> raw@[k] == 32)) by {
                    assert(raw@[i as int] != 32);
                }
            }
        }
        i = i + 1;
    }
    if blank {
        return None;
    }
    if !check_all_digits(raw) {
        return None;
    }
    let y: u32 = (raw[0] - 48) as u32 * 1000 + (raw[1] - 48) as u32 * 100 + (raw[2] - 48) as u32
        * 10 + (raw[3] - 48) as u32;
    let m: u32 = (raw[4] - 48) as u32 * 10 + (raw[5] - 48) as u32;
    let d: u32 = (raw[6] - 48) as u32 * 10 + (raw[7] - 48) as u32;
    proof {
        let s = raw@;
        assert(s.take(4).drop_last() =~= s.take(3));
        assert(s.take(3).drop_last() =~= s.take(2));
        assert(s.take(2).drop_last() =~= s.take(1));
        assert(s.take(1).drop_last() =~= s.take(0));
        assert(digits_val(s.take(0)) == 0);
        assert(s.take(4).last() == s[3]);
        assert(s.take(3).last() == s[2]);
        assert(s.take(2).last() == s[1]);
        assert(s.take(1).last() == s[0]);
        assert(digits_val(s.take(1)) == s[0] - 48);
        assert(digits_val(s.take(2)) == digits_val(s.take(1)) * 10 + (s[1] - 48));
        assert(digits_val(s.take(3)) == digits_val(s.take(2)) * 10 + (s[2] - 48));
        assert(digits_val(s.take(4)) == digits_val(s.take(3)) * 10 + (s[3] - 48));
        assert(y == digits_val(s.take(4)));
        assert(s.subrange(4, 6).drop_last() =~= s.subrange(4, 5));
        assert(s.subrange(4, 5).drop_last() =~= s.subrange(4, 4));
        assert(s.subrange(4, 6).last() == s[5]);
        assert(s.subrange(4, 5).last() == s[4]);
        assert(s.subrange(4, 4).len() == 0);
        assert(digits_val(s.subrange(4, 4)) == 0);
        assert(digits_val(s.subrange(4, 5)) == s[4] - 48);
        assert(digits_val(s.subrange(4, 6)) == digits_val(s.subrange(4, 5)) * 10 + (s[5] - 48));
        assert(m == digits_val(s.subrange(4, 6)));
        assert(s.subrange(6, 8).drop_last() =~= s.subrange(6, 7));
        assert(s.subrange(6, 7).drop_last() =~= s.subrange(6, 6));
        assert(s.subrange(6, 8).last() == s[7]);
        assert(s.subrange(6, 7).last() == s[6]);
        assert(s.subrange(6, 6).len() == 0);
        assert(digits_val(s.subrange(6, 6)) == 0);
        assert(digits_val(s.subrange(6, 7)) == s[6] - 48);
        assert(digits_val(s.subrange(6, 8)) == digits_val(s.subrange(6, 7)) * 10 + (s[7] - 48));
        assert(d == digits_val(s.subrange(6, 8)));
    }
    if 1 <= m && m <= 12 && 1 <= d && d <= 31 {
        Some(Date { year: y, month: m, day: d })
    } else {
        None
    }
}

/// The integer a 4-byte little-endian binary field decodes to; a field
/// narrower than the encoding decodes as zero.
pub open spec fn spec_decode_integer(s: Seq<u8>) -> i32 {
    if s.len() >= 4 {
        as_signed32(le32(s, 0)) as i32
    } else {
        0
    }
}

/// Decodes an integer field.
pub fn decode_integer(raw: &[u8]) -> (r: i32)
    ensures
        r == spec_decode_integer(raw@),
{
    if raw.len() >= 4 {
        crate::bytes::read_i32_le(raw, 0)
    } else {
        0
    }
}

/// The exact currency decimal an 8-byte binary fixed-point field decodes
/// to: the stored scaled integer over ten thousand; a field narrower
/// than the encoding decodes as zero.
pub open spec fn spec_decode_currency(s: Seq<u8>) -> Decimal {
    if s.len() >= 8 {
        Decimal { mantissa: as_signed64(le64(s, 0)) as i64, scale: 4 }
    } else {
        Decimal { mantissa: 0, scale: 4 }
    }
}

/// Decodes a currency field.
pub fn decode_currency(raw: &[u8]) -> (r: Decimal)
    ensures
        r == spec_decode_currency(raw@),
{
    if raw.len() >= 8 {
        Decimal { mantissa: crate::bytes::read_i64_le(raw, 0), scale: 4 }
    } else {
        Decimal { mantissa: 0, scale: 4 }
    }
}

/// The civil-calendar conversion of a Julian day number, following the
/// standard integer algorithm.  Subtractions are guarded so the
/// functions stay total; the guards never fire on the algorithm's own
/// intermediate values.
pub open spec fn jdn_a(j: int) -> int {
    j + 32044
}

pub open spec fn jdn_b(j: int) -> int {
    (4 * jdn_a(j) + 3) / 146097
}

pub open spec fn jdn_c(j: int) -> int {
    let t = 146097 * jdn_b(j) / 4;
    if jdn_a(j) >= t {
        jdn_a(j) - t
    } else {
        0
    }
}

pub open spec fn jdn_d(j: int) -> int {
    (4 * jdn_c(j) + 3) / 1461
}

pub open spec fn jdn_e(j: int) -> int {
    let t = 1461 * jdn_d(j) / 4;
    if jdn_c(j) >= t {
        jdn_c(j) - t
    } else {
        0
    }
}

pub open spec fn jdn_m(j: int) -> int {
    (5 * jdn_e(j) + 2) / 153
}

/// Day of month of a Julian day number.
pub open spec fn spec_jdn_day(j: int) -> int {
    let t = (153 * jdn_m(j) + 2) / 5;
    if jdn_e(j) + 1 >= t {
        jdn_e(j) + 1 - t
    } else {
        0
    }
}

/// Month of a Julian day number.
pub open spec fn spec_jdn_month(j: int) -> int {
    let t = 12 * (jdn_m(j) / 10);
    if jdn_m(j) + 3 >= t {
        jdn_m(j) + 3 - t
    } else {
        0
    }
}

/// Year of a Julian day number.
pub open spec fn spec_jdn_year(j: int) -> int {
    100 * jdn_b(j) + jdn_d(j) - 4800 + jdn_m(j) / 10
}

/// The date and time an 8-byte binary field decodes to: a little-endian
/// Julian day count then a little-endian millisecond-of-day; a field
/// narrower than the encoding decodes as the zero date-time.
pub open spec fn spec_decode_datetime(s: Seq<u8>) -> DateTime {
    if s.len() >= 8 {
        let j = le32(s, 0);
        let ms = le32(s, 4);
        DateTime {
            year: spec_jdn_year(j) as i32,
            month: spec_jdn_month(j) as u32,
            day: spec_jdn_day(j) as u32,
            hour: (ms / 3600000) as u32,
            minute: ((ms / 60000) % 60) as u32,
            second: ((ms / 1000) % 60) as u32,
        }
    } else {
        DateTime { year: 0, month: 0, day: 0, hour: 0, minute: 0, second: 0 }
    }
}

/// Decodes a date-time field.
pub fn decode_datetime(raw: &[u8]) -> (r: DateTime)
    ensures
        r == spec_decode_datetime(raw@),
{
    if raw.len() < 8 {
        return DateTime { year: 0, month: 0, day: 0, hour: 0, minute: 0, second: 0 };
    }
    let j = crate::bytes::read_le32(raw, 0);
    let ms = crate::bytes::read_le32(raw, 4);
    let a: u64 = j as u64 + 32044;
    let four_a: u64 = 4 * a + 3;
    let b: u64 = four_a / 146097;
    proof {
        assert(146097 * b <= four_a) by (nonlinear_arith)
            requires
                b == four_a / 146097,
                four_a >= 0,
        ;
    }
    let tb: u64 = 146097 * b / 4;
    let c: u64 = if a >= tb {
        a - tb
    } else {
        0
    };
    let four_c: u64 = 4 * c + 3;
    let d: u64 = four_c / 1461;
    proof {
        assert(1461 * d <= four_c) by (nonlinear_arith)
            requires
                d == four_c / 1461,
                four_c >= 0,
        ;
    }
    let td: u64 = 1461 * d / 4;
    let e: u64 = if c >= td {
        c - td
    } else {
        0
    };
    let five_e: u64 = 5 * e + 2;
    let m: u64 = five_e / 153;
    proof {
        assert(153 * m <= five_e) by (nonlinear_arith)
            requires
                m == five_e / 153,
                five_e >= 0,
        ;
    }
    let tm: u64 = (153 * m + 2) / 5;
    let day: u64 = if e + 1 >= tm {
        e + 1 - tm
    } else {
        0
    };
    let tmm: u64 = 12 * (m / 10);
    let month: u64 = if m + 3 >= tmm {
        m + 3 - tmm
    } else {
        0
    };
    proof {
        assert(m / 10 <= m) by (nonlinear_arith)
            requires
                m >= 0,
        ;
    }
    let year: i64 = 100 * (b as i64) + d as i64 - 4800 + (m / 10) as i64;
    proof {
        assert(year == spec_jdn_year(j as int));
        assert(month == spec_jdn_month(j as int));
        assert(day == spec_jdn_day(j as int));
        assert(-4800 <= year < 0x80000000);
    }
    DateTime {
        year: year as i32,
        month: month as u32,
        day: day as u32,
        hour: ms / 3600000,
        minute: (ms / 60000) % 60,
        second: (ms / 1000) % 60,
    }
}

/// The text a 4-byte memo-reference field decodes to: reference zero or
/// any unresolvable reference is the absent value (tolerant policy), a
/// resolvable one the block run's decoded text.
pub open spec fn spec_decode_memo(s: Seq<u8>, e: TextEncoding, m: Option<Seq<u8>>) -> Option<
    Seq<char>,
> {
    if s.len() < 4 {
        None
    } else {
        let r = le32(s, 0);
        if r == 0 {
            None
        } else {
            match spec_resolve(m, r) {
                Ok(b) => Some(decoded_text(e, b)),
                Err(_) => None,
            }
        }
    }
}

/// Decodes a memo field against the memo store.
pub fn decode_memo(raw: &[u8], e: TextEncoding, store: &MemoStore) -> (r: Option<String>)
    ensures
        opt_text_view(r) == spec_decode_memo(raw@, e, store@),
{
    if raw.len() < 4 {
        return None;
    }
    let reference = crate::bytes::read_le32(raw, 0);
    if reference == 0 {
        return None;
    }
    match store.resolve(reference) {
        Ok(block) => Some(decode_text(e, block.as_slice())),
        Err(_) => None,
    }
}

/// The typed value a field's raw bytes decode to, dispatched by the
/// field type.
pub open spec fn spec_decode_field(
    t: FieldType,
    s: Seq<u8>,
    e: TextEncoding,
    m: Option<Seq<u8>>,
) -> SpecFieldValue {
    match t {
        FieldType::Character => SpecFieldValue::Character(spec_decode_character(s, e)),
        FieldType::Numeric => SpecFieldValue::Numeric(spec_parse_decimal(s)),
        FieldType::Float => SpecFieldValue::Float(spec_parse_decimal(s)),
        FieldType::Integer => SpecFieldValue::Integer(spec_decode_integer(s)),
        FieldType::Date => SpecFieldValue::Date(spec_decode_date(s)),
        FieldType::DateTime => SpecFieldValue::DateTime(spec_decode_datetime(s)),
        FieldType::Logical => SpecFieldValue::Logical(spec_decode_logical(s)),
        FieldType::Currency => SpecFieldValue::Currency(spec_decode_currency(s)),
        FieldType::Memo => SpecFieldValue::Memo(spec_decode_memo(s, e, m)),
    }
}

/// Decodes one field's raw bytes.
pub fn decode_field(t: FieldType, raw: &[u8], e: TextEncoding, store: &MemoStore) -> (r:
    FieldValue)
    ensures
        r@ == spec_decode_field(t, raw@, e, store@),
{
    match t {
        FieldType::Character => FieldValue::Character(decode_character(raw, e)),
        FieldType::Numeric => FieldValue::Numeric(parse_decimal(raw)),
        FieldType::Float => FieldValue::Float(parse_decimal(raw)),
        FieldType::Integer => FieldValue::Integer(decode_integer(raw)),
        FieldType::Date => FieldValue::Date(decode_date(raw)),
        FieldType::DateTime => FieldValue::DateTime(decode_datetime(raw)),
        FieldType::Logical => FieldValue::Logical(decode_logical(raw)),
        FieldType::Currency => FieldValue::Currency(decode_currency(raw)),
        FieldType::Memo => FieldValue::Memo(decode_memo(raw, e, store)),
    }
}

/// A width-sum over fewer fields is no larger.
pub proof fn lemma_sum_widths_mono(fs: Seq<FieldDescriptor>, i: int, j: int)
    requires
        0 <= i <= j,
    ensures
        sum_field_widths(fs, i) <= sum_field_widths(fs, j),
    decreases j - i,
{
    if i < j {
        lemma_sum_widths_mono(fs, i, j - 1);
    }
}

/// The width sums are never negative.
pub proof fn lemma_sum_widths_nonneg(fs: Seq<FieldDescriptor>, k: int)
    ensures
        sum_field_widths(fs, k) >= 0,
    decreases k,
{
    if k > 0 {
        lemma_sum_widths_nonneg(fs, k - 1);
    }
}

/// The raw bytes of field `k` within one record's raw slice: the byte
/// after the deletion marker plus the widths of the earlier fields.
pub open spec fn spec_field_slice(raw: Seq<u8>, fs: Seq<FieldDescriptor>, k: int) -> Seq<u8> {
    raw.subrange(1 + sum_field_widths(fs, k), 1 + sum_field_widths(fs, k + 1))
}

/// Decodes one fixed-length raw record into its ordered sequence of
/// named typed values, walking the descriptors left to right with each
/// consuming exactly its declared width.
pub fn decode_record(
    raw: &[u8],
    fields: &Vec<FieldDescriptor>,
    e: TextEncoding,
    store: &MemoStore,
) -> (r: Vec<(String, FieldValue)>)
    requires
        raw@.len() >= 1 + sum_field_widths(fields@, fields@.len() as int),
    ensures
        r@.len() == fields@.len(),
        forall|k: int|
            0 <= k < fields@.len() ==> {
                &&& (#[trigger] r@[k]).0@ == fields@[k].name@
                &&& r@[k].1@ == spec_decode_field(
                    fields@[k].field_type,
                    spec_field_slice(raw@, fields@, k),
                    e,
                    store@,
                )
            },
{
    let n = fields.len();
    let rawlen = raw.len();
    let mut out: Vec<(String, FieldValue)> = Vec::new();
    let mut off: usize = 1;
    let mut k: usize = 0;
    proof {
        lemma_sum_widths_nonneg(fields@, fields@.len() as int);
    }
    while k < n
        invariant
            k <= n,
            n == fields@.len(),
            rawlen == raw@.len(),
            rawlen >= 1 + sum_field_widths(fields@, n as int),
            off == 1 + sum_field_widths(fields@, k as int),
            out@.len() == k,
            forall|j: int|
                0 <= j < k ==> {
                    &&& (#[trigger] out@[j]).0@ == fields@[j].name@
                    &&& out@[j].1@ == spec_decode_field(
                        fields@[j].field_type,
                        spec_field_slice(raw@, fields@, j),
                        e,
                        store@,
                    )
                },
        decreases n - k,
    {
        proof {
            lemma_sum_widths_mono(fields@, k as int + 1, n as int);
            lemma_sum_widths_nonneg(fields@, k as int);
        }
        let w = fields[k].length as usize;
        let slice = &raw[off..off + w];
        let fv = decode_field(fields[k].field_type, slice, e, store);
        let name = fields[k].name.clone();
        out.push((name, fv));
        off = off + w;
        k = k + 1;
        proof {
            assert(slice@ =~= spec_field_slice(raw@, fields@, k as int - 1));
        }
    }
    out
}

} // verus!
