//! A verified bidirectional codec for the WSV ("whitespace separated value")
//! text format: rows of optional string cells separated by runs of whitespace,
//! with quoted-string escaping, inline comments, and `-` as the null cell.
//!
//! Parsing is available eagerly (`parse`, the whole document at once) and
//! lazily (`parse_lazy`, one row per pull), with token-level access through
//! `WSVTokenizer` and `WSVLazyTokenizer`. Writing is the inverse
//! (`WSVWriter`): packed with single-space separators, or with columns
//! padded to their widest cell. The contracts of every function are stated
//! against the mathematical scanner in `scan` and the writer model in
//! `write_spec`; the `laws` module proves, among others, that parsing the
//! serialization of a document restores it.

pub mod chars;
pub mod error;
pub mod laws;
pub mod location;
pub mod parse;
pub mod rows;
pub mod scan;
pub mod scanner;
mod strutil;
pub mod token;
pub mod tokenizer;
pub mod views;
pub mod write_spec;
pub mod writer;

pub use error::WSVError;
pub use error::WSVErrorType;
pub use location::Location;
pub use parse::parse;
pub use parse::parse_with_col_count;
pub use rows::parse_lazy;
pub use rows::WSVLineIterator;
pub use token::are_equal;
pub use token::owned_are_equal;
pub use token::OwnedWSVToken;
pub use token::WSVToken;
pub use tokenizer::WSVLazyTokenizer;
pub use tokenizer::WSVTokenizer;
pub use writer::ColumnAlignment;
pub use writer::WSVWriter;
