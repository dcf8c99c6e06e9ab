//! Selection of the text encoding and byte-to-text decoding.
//!
//! The supported selectors are `"cp850"`, `"cp1252"`, `"utf8"` and
//! `"ascii"`; an absent selector picks the table-family default `cp850`.
//! Decoding never fails: undecodable bytes are replaced, not rejected.
use vstd::prelude::*;

use crate::error::ConfigError;

verus! {

/// The supported byte-to-text decodings.
#[derive(Debug, Clone, Copy, PartialEq, Eq, Structural)]
pub enum TextEncoding {
    Cp850,
    Cp1252,
    Utf8,
    Ascii,
}

/// The characters that decoding the bytes as code page 850 yields.
pub uninterp spec fn cp850_of(s: Seq<u8>) -> Seq<char>;

/// The characters that decoding the bytes as code page 1252 yields.
pub uninterp spec fn cp1252_of(s: Seq<u8>) -> Seq<char>;

/// The characters that decoding the bytes as UTF-8 with lossy
/// substitution yields.
pub uninterp spec fn utf8_lossy_of(s: Seq<u8>) -> Seq<char>;

/// Relies on `yore::code_pages::CP850::decode`: a complete single-byte
/// code page, decoding every byte to exactly one character, never failing.
#[verifier::external_body]
fn cp850_decode(bytes: &[u8]) -> (r: String)
    ensures
        r@ == cp850_of(bytes@),
        r@.len() == bytes@.len(),
{
    yore::code_pages::CP850.decode(bytes).into_owned()
}

/// Relies on `yore::code_pages::CP1252::decode`: a complete single-byte
/// code page, decoding every byte to exactly one character, never failing.
#[verifier::external_body]
fn cp1252_decode(bytes: &[u8]) -> (r: String)
    ensures
        r@ == cp1252_of(bytes@),
        r@.len() == bytes@.len(),
{
    yore::code_pages::CP1252.decode(bytes).into_owned()
}

/// Relies on `String::from_utf8_lossy`: decodes UTF-8, replacing invalid
/// sequences with the replacement character; empty input stays empty.
#[verifier::external_body]
fn utf8_lossy_decode(bytes: &[u8]) -> (r: String)
    ensures
        r@ == utf8_lossy_of(bytes@),
        bytes@.len() == 0 ==> r@.len() == 0,
{
    String::from_utf8_lossy(bytes).into_owned()
}

/// The characters the given encoding yields for the bytes.  The `ascii`
/// selector decodes as lossy Unicode, as the `utf8` selector does.
pub open spec fn decoded_text(e: TextEncoding, s: Seq<u8>) -> Seq<char> {
    match e {
        TextEncoding::Cp850 => cp850_of(s),
        TextEncoding::Cp1252 => cp1252_of(s),
        TextEncoding::Utf8 => utf8_lossy_of(s),
        TextEncoding::Ascii => utf8_lossy_of(s),
    }
}

/// Decodes the bytes to text under the given encoding.
pub fn decode_text(e: TextEncoding, bytes: &[u8]) -> (r: String)
    ensures
        r@ == decoded_text(e, bytes@),
{
    match e {
        TextEncoding::Cp850 => cp850_decode(bytes),
        TextEncoding::Cp1252 => cp1252_decode(bytes),
        TextEncoding::Utf8 => utf8_lossy_decode(bytes),
        TextEncoding::Ascii => utf8_lossy_decode(bytes),
    }
}

/// The view of an optional selector string.
pub open spec fn opt_str_view(n: Option<String>) -> Option<Seq<char>> {
    match n {
        None => None,
        Some(s) => Some(s@),
    }
}

/// The encoding a selector names, or `None` for an unsupported selector.
/// An absent selector picks the default `cp850`.
pub open spec fn spec_select(n: Option<Seq<char>>) -> Option<TextEncoding> {
    match n {
        None => Some(TextEncoding::Cp850),
        Some(s) => if s == "cp850"@ {
            Some(TextEncoding::Cp850)
        } else if s == "cp1252"@ {
            Some(TextEncoding::Cp1252)
        } else if s == "utf8"@ {
            Some(TextEncoding::Utf8)
        } else if s == "ascii"@ {
            Some(TextEncoding::Ascii)
        } else {
            None
        },
    }
}

/// Maps the requested selector to its encoding, or fails with a
/// configuration error naming the unsupported selector.
pub fn select_encoding(name: &Option<String>) -> (r: Result<TextEncoding, ConfigError>)
    ensures
        match r {
            Ok(e) => spec_select(opt_str_view(*name)) == Some(e),
            Err(ce) => ({
                &&& spec_select(opt_str_view(*name)) is None
                &&& match (ce, name) {
                    (ConfigError::UnsupportedEncoding(n), Some(orig)) => n@ == orig@,
                    _ => false,
                }
            }),
        },
{
    match name {
        None => Ok(TextEncoding::Cp850),
        Some(s) => {
            if s.eq(&String::from_str("cp850")) {
                Ok(TextEncoding::Cp850)
            } else if s.eq(&String::from_str("cp1252")) {
                Ok(TextEncoding::Cp1252)
            } else if s.eq(&String::from_str("utf8")) {
                Ok(TextEncoding::Utf8)
            } else if s.eq(&String::from_str("ascii")) {
                Ok(TextEncoding::Ascii)
            } else {
                Err(ConfigError::UnsupportedEncoding(s.clone()))
            }
        },
    }
}

} // verus!
