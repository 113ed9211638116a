//! BinOcular — schema-driven binary inspection.
//!
//! The crate holds the schema model, its validation and YAML decoding, the
//! field interpreter that reads typed values out of a byte buffer, and the
//! rendering and search helpers used by the front ends.
pub mod ast;
pub mod buffer;
pub mod document;
pub mod error;
pub mod interpret;
pub mod loader;
pub mod panes;
pub mod parser;
pub mod render;
pub mod schema_error;
pub mod search;
pub mod text;
pub mod viewer;
pub mod yaml;
