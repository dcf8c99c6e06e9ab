//! A verified decoder for dBASE table files.
//!
//! The library parses the fixed-size table header and field descriptors,
//! decodes each fixed-length record into typed values dispatched by field
//! type, resolves memo references against an optional block-structured memo
//! side-file, decodes text under a selectable legacy code page, and
//! materializes the result into an ordered value tree of plain scalars.
pub mod bytes;
pub mod encoding;
pub mod error;
pub mod header;
pub mod laws;
pub mod memo;
pub mod reader;
pub mod record;
pub mod text;
pub mod value;

pub use header::{FieldDescriptor, FieldType, TableHeader};
pub use reader::{dbf_needs_memo, read_dbf, read_dbf_with_types, DbfResult};
pub use value::{Date, DateTime, Decimal, FieldValue, OutValue};
