//! Parsing and formatting primitives for HTTP header values: decoding raw
//! byte-sequence header values into typed values, decoding comma-delimited
//! lists, formatting sequences back into wire text, and parsing HTTP dates
//! in the three historically-defined textual formats.

pub mod date;
pub mod decode;
pub mod format;
pub mod items;
pub mod text;

pub use date::Timestamp;
pub use date::tm_from_str;
pub use decode::FromText;
pub use decode::from_comma_delimited;
pub use decode::from_one_comma_delimited;
pub use decode::from_one_raw_str;
pub use format::ToText;
pub use format::fmt_comma_delimited;
pub use items::Token;
