//! Typed field values and their materialization into plain output scalars.
//!
//! Decoded numbers are exact decimals (`mantissa / 10^scale`), so the
//! value model stays within integer arithmetic; a host layer may render a
//! `Decimal` as a binary floating-point number if it wishes.  An "absent"
//! value stands for a field stored as blank or unresolvable bytes, and
//! materializes to `Null`.
use vstd::prelude::*;

use crate::text::padded;

verus! {

/// An exact signed decimal number: `mantissa / 10^scale`.
#[derive(Debug, Clone, Copy, PartialEq, Eq, Structural)]
pub struct Decimal {
    pub mantissa: i64,
    pub scale: u8,
}

/// A calendar date as stored in an 8-digit date field.
#[derive(Debug, Clone, Copy, PartialEq, Eq, Structural)]
pub struct Date {
    pub year: u32,
    pub month: u32,
    pub day: u32,
}

/// A date and time decoded from the 8-byte binary encoding.
#[derive(Debug, Clone, Copy, PartialEq, Eq, Structural)]
pub struct DateTime {
    pub year: i32,
    pub month: u32,
    pub day: u32,
    pub hour: u32,
    pub minute: u32,
    pub second: u32,
}

/// One decoded field, tagged by its field type.  `None` is the absent
/// value for the types that permit one.
#[derive(Debug, Clone)]
pub enum FieldValue {
    Character(Option<String>),
    Numeric(Option<Decimal>),
    Float(Option<Decimal>),
    Integer(i32),
    Date(Option<Date>),
    DateTime(DateTime),
    Logical(Option<bool>),
    Currency(Decimal),
    Memo(Option<String>),
}

/// The mathematical model of a decoded field: text as character
/// sequences, everything else as the plain value.
pub enum SpecFieldValue {
    Character(Option<Seq<char>>),
    Numeric(Option<Decimal>),
    Float(Option<Decimal>),
    Integer(i32),
    Date(Option<Date>),
    DateTime(DateTime),
    Logical(Option<bool>),
    Currency(Decimal),
    Memo(Option<Seq<char>>),
}

/// The view of optional text.
pub open spec fn opt_text_view(o: Option<String>) -> Option<Seq<char>> {
    match o {
        None => None,
        Some(s) => Some(s@),
    }
}

impl View for FieldValue {
    type V = SpecFieldValue;

    open spec fn view(&self) -> SpecFieldValue {
        match self {
            FieldValue::Character(o) => SpecFieldValue::Character(opt_text_view(*o)),
            FieldValue::Numeric(o) => SpecFieldValue::Numeric(*o),
            FieldValue::Float(o) => SpecFieldValue::Float(*o),
            FieldValue::Integer(i) => SpecFieldValue::Integer(*i),
            FieldValue::Date(o) => SpecFieldValue::Date(*o),
            FieldValue::DateTime(t) => SpecFieldValue::DateTime(*t),
            FieldValue::Logical(o) => SpecFieldValue::Logical(*o),
            FieldValue::Currency(d) => SpecFieldValue::Currency(*d),
            FieldValue::Memo(o) => SpecFieldValue::Memo(opt_text_view(*o)),
        }
    }
}

/// One scalar of the output value tree.
#[derive(Debug, Clone)]
pub enum OutValue {
    /// An absent value.
    Null,
    Text(String),
    Truth(bool),
    Int(i32),
    Number(Decimal),
}

/// The mathematical model of an output scalar.
pub enum SpecOutValue {
    Null,
    Text(Seq<char>),
    Truth(bool),
    Int(i32),
    Number(Decimal),
}

impl View for OutValue {
    type V = SpecOutValue;

    open spec fn view(&self) -> SpecOutValue {
        match self {
            OutValue::Null => SpecOutValue::Null,
            OutValue::Text(s) => SpecOutValue::Text(s@),
            OutValue::Truth(b) => SpecOutValue::Truth(*b),
            OutValue::Int(i) => SpecOutValue::Int(*i),
            OutValue::Number(d) => SpecOutValue::Number(*d),
        }
    }
}

/// The ISO rendering `YYYY-MM-DD` of a date.
pub open spec fn iso_date_chars(d: Date) -> Seq<char> {
    padded(d.year as int, 4) + seq!['-'] + padded(d.month as int, 2) + seq!['-'] + padded(
        d.day as int,
        2,
    )
}

/// The ISO rendering `YYYY-MM-DDTHH:MM:SS` of a date-time; a negative
/// year is rendered with a leading minus sign.
pub open spec fn iso_datetime_chars(t: DateTime) -> Seq<char> {
    (if t.year < 0 {
        seq!['-'] + padded(-(t.year as int), 4)
    } else {
        padded(t.year as int, 4)
    }) + seq!['-'] + padded(t.month as int, 2) + seq!['-'] + padded(t.day as int, 2) + seq!['T']
        + padded(t.hour as int, 2) + seq![':'] + padded(t.minute as int, 2) + seq![':'] + padded(
        t.second as int,
        2,
    )
}

/// Renders a date as `YYYY-MM-DD`.
pub fn render_iso_date(d: Date) -> (r: String)
    ensures
        r@ == iso_date_chars(d),
{
    let mut s = String::new();
    crate::text::push_padded(&mut s, d.year as u64, 4);
    crate::text::push_char(&mut s, '-');
    crate::text::push_padded(&mut s, d.month as u64, 2);
    crate::text::push_char(&mut s, '-');
    crate::text::push_padded(&mut s, d.day as u64, 2);
    proof {
        assert(s@ =~= iso_date_chars(d));
    }
    s
}

/// Renders a date-time as `YYYY-MM-DDTHH:MM:SS`.
pub fn render_iso_datetime(t: DateTime) -> (r: String)
    ensures
        r@ == iso_datetime_chars(t),
{
    let mut s = String::new();
    if t.year < 0 {
        crate::text::push_char(&mut s, '-');
        let mag: u64 = (-(t.year as i64)) as u64;
        crate::text::push_padded(&mut s, mag, 4);
    } else {
        crate::text::push_padded(&mut s, t.year as u64, 4);
    }
    crate::text::push_char(&mut s, '-');
    crate::text::push_padded(&mut s, t.month as u64, 2);
    crate::text::push_char(&mut s, '-');
    crate::text::push_padded(&mut s, t.day as u64, 2);
    crate::text::push_char(&mut s, 'T');
    crate::text::push_padded(&mut s, t.hour as u64, 2);
    crate::text::push_char(&mut s, ':');
    crate::text::push_padded(&mut s, t.minute as u64, 2);
    crate::text::push_char(&mut s, ':');
    crate::text::push_padded(&mut s, t.second as u64, 2);
    proof {
        assert(s@ =~= iso_datetime_chars(t));
    }
    s
}

/// What each decoded field materializes to: text to text, absent to
/// `Null`, logical to a truth value, integers to integers, the decimal
/// kinds to exact decimals, and dates to their ISO renderings.
pub open spec fn spec_materialize(v: SpecFieldValue) -> SpecOutValue {
    match v {
        SpecFieldValue::Character(o) => match o {
            None => SpecOutValue::Null,
            Some(s) => SpecOutValue::Text(s),
        },
        SpecFieldValue::Numeric(o) => match o {
            None => SpecOutValue::Null,
            Some(d) => SpecOutValue::Number(d),
        },
        SpecFieldValue::Float(o) => match o {
            None => SpecOutValue::Null,
            Some(d) => SpecOutValue::Number(d),
        },
        SpecFieldValue::Integer(i) => SpecOutValue::Int(i),
        SpecFieldValue::Date(o) => match o {
            None => SpecOutValue::Null,
            Some(d) => SpecOutValue::Text(iso_date_chars(d)),
        },
        SpecFieldValue::DateTime(t) => SpecOutValue::Text(iso_datetime_chars(t)),
        SpecFieldValue::Logical(o) => match o {
            None => SpecOutValue::Null,
            Some(b) => SpecOutValue::Truth(b),
        },
        SpecFieldValue::Currency(d) => SpecOutValue::Number(d),
        SpecFieldValue::Memo(o) => match o {
            None => SpecOutValue::Null,
            Some(s) => SpecOutValue::Text(s),
        },
    }
}

/// Materializes one decoded field into its output scalar.
pub fn materialize(v: FieldValue) -> (r: OutValue)
    ensures
        r@ == spec_materialize(v@),
{
    match v {
        FieldValue::Character(o) => match o {
            None => OutValue::Null,
            Some(s) => OutValue::Text(s),
        },
        FieldValue::Numeric(o) => match o {
            None => OutValue::Null,
            Some(d) => OutValue::Number(d),
        },
        FieldValue::Float(o) => match o {
            None => OutValue::Null,
            Some(d) => OutValue::Number(d),
        },
        FieldValue::Integer(i) => OutValue::Int(i),
        FieldValue::Date(o) => match o {
            None => OutValue::Null,
            Some(d) => OutValue::Text(render_iso_date(d)),
        },
        FieldValue::DateTime(t) => OutValue::Text(render_iso_datetime(t)),
        FieldValue::Logical(o) => match o {
            None => OutValue::Null,
            Some(b) => OutValue::Truth(b),
        },
        FieldValue::Currency(d) => OutValue::Number(d),
        FieldValue::Memo(o) => match o {
            None => OutValue::Null,
            Some(s) => OutValue::Text(s),
        },
    }
}

} // verus!
