//! Row specifications for tabular text: a small template language of literal
//! text and left- or right-aligned column placeholders, with a parser and an
//! exact-inverse serializer.

pub mod error;
pub mod column_spec;
pub mod lemmas;

pub use error::{Error, ErrorView, Result};
pub use column_spec::{parse_row_spec, row_spec_to_string, Alignment, ColumnSpec};
