//! The compression algorithms, in the order the pipeline applies them.

pub mod text_preprocessing;

pub mod semantic_compression;
