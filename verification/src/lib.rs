//! Argus: a content-search library with verified core logic.
//!
//! Given extracted file contents and a pattern, the library classifies files
//! by extension, recovers searchable text from several file formats (plain
//! text, DOCX archives, PDF text layers and embedded raster images), matches
//! literal or regular-expression patterns line by line, ranks matching files
//! by a fixed-point confidence score, and encodes a persistent cache of
//! extracted text keyed by path with a `(modified time, size)` staleness
//! fingerprint.
//!
//! All file and terminal input/output stays outside this crate: callers hand
//! in file bytes and metadata as plain values and receive value results back.

pub mod binary;
pub mod digits;
pub mod engine;
pub mod extractors;
pub mod index;
pub mod index_doc;
pub mod matcher;
pub mod pdf_images;
pub mod rank;
pub mod text;
pub mod types;
