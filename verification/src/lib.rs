//! Core data handling of a small CAD/BIM toolkit: the attribute codec of IFC
//! entity instances and their in-memory storage, STEP physical-file tokens,
//! header and scanning, how attribute values read from a file are gathered,
//! a schema registry, a message logger and assorted IFC string utilities.
pub mod bytes;
pub mod text;
pub mod seq_concat;
pub mod entity_data;
pub mod attribute_codec;
pub mod logger;
pub mod util;
pub mod schema;
pub mod spf;
pub mod p21;
pub mod lexer;
pub mod bitset_codec;
pub mod file_kind;
pub mod header;
pub mod valuation;
pub mod memory_storage;
pub mod fetch;
