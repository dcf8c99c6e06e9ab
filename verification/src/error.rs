//! Error taxonomy of the decoder.
//!
//! `FormatError` covers a truncated or malformed table file, `ConfigError` a
//! bad encoding selector, and `MemoError` a memo reference that cannot be
//! resolved.  Memo errors are tolerated during record decoding (the field
//! decodes to an absent value); format and configuration errors abort a read.
use vstd::prelude::*;

verus! {

/// A structural fault of the table file itself.
#[derive(Debug, Clone, PartialEq, Eq, Structural)]
pub enum FormatError {
    /// Fewer bytes were supplied than the fixed header or the declared
    /// header length requires.
    TruncatedHeader,
    /// The declared lengths are inconsistent: header length below the
    /// minimum or not on a descriptor boundary, a missing terminator byte,
    /// a zero-width field, or a record length that does not equal one plus
    /// the sum of the field widths.
    MalformedHeader,
    /// A field descriptor's type byte maps to none of the nine recognized
    /// type tags.
    UnknownFieldType(u8),
    /// The buffer ends before the declared record count of fixed-length
    /// records.
    TruncatedRecords,
}

/// A fault of the caller's configuration, found before any byte is decoded.
#[derive(Debug, Clone)]
pub enum ConfigError {
    /// The requested encoding selector is not one of the supported names.
    UnsupportedEncoding(String),
}

/// A memo reference that cannot be resolved against the memo side-file.
#[derive(Debug, Clone, PartialEq, Eq, Structural)]
pub enum MemoError {
    /// A nonzero memo reference was found but no memo bytes were supplied.
    MissingMemoFile,
    /// The referenced block lies outside the memo buffer, or is the
    /// reserved header block.
    BlockOutOfRange,
}

/// Any fatal error of a whole-table read.
#[derive(Debug, Clone)]
pub enum DbfError {
    Format(FormatError),
    Config(ConfigError),
}

/// The message text of each format fault.
pub open spec fn format_error_text(e: FormatError) -> Seq<char> {
    match e {
        FormatError::TruncatedHeader => "table buffer is shorter than the declared header"@,
        FormatError::MalformedHeader => "table header or field descriptors are malformed"@,
        FormatError::UnknownFieldType(_) => "field descriptor holds an unrecognized type tag"@,
        FormatError::TruncatedRecords => "table buffer ends before the declared record count"@,
    }
}

/// The message text of each configuration fault, naming the selector.
pub open spec fn config_error_text(e: ConfigError) -> Seq<char> {
    match e {
        ConfigError::UnsupportedEncoding(name) => "unsupported encoding: "@ + name@,
    }
}

/// The message text of any fatal error.
pub open spec fn error_text(e: DbfError) -> Seq<char> {
    match e {
        DbfError::Format(fe) => format_error_text(fe),
        DbfError::Config(ce) => config_error_text(ce),
    }
}

impl FormatError {
    /// A human-readable description of the fault.
    pub fn message(&self) -> (r: String)
        ensures
            r@ == format_error_text(*self),
    {
        match self {
            FormatError::TruncatedHeader => String::from_str(
                "table buffer is shorter than the declared header",
            ),
            FormatError::MalformedHeader => String::from_str(
                "table header or field descriptors are malformed",
            ),
            FormatError::UnknownFieldType(_) => String::from_str(
                "field descriptor holds an unrecognized type tag",
            ),
            FormatError::TruncatedRecords => String::from_str(
                "table buffer ends before the declared record count",
            ),
        }
    }
}

impl ConfigError {
    /// A human-readable description of the fault, naming the selector.
    pub fn message(&self) -> (r: String)
        ensures
            r@ == config_error_text(*self),
    {
        match self {
            ConfigError::UnsupportedEncoding(name) => {
                let head = String::from_str("unsupported encoding: ");
                head.concat(name.as_str())
            },
        }
    }
}

impl DbfError {
    /// A human-readable description of the fault.
    pub fn message(&self) -> (r: String)
        ensures
            r@ == error_text(*self),
    {
        match self {
            DbfError::Format(e) => e.message(),
            DbfError::Config(e) => e.message(),
        }
    }
}

} // verus!
