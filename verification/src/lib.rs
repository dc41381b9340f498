//! A writer for the ORC (Optimized Row Columnar) file format.
//!
//! Values are pushed column by column into a tree of column writers that
//! mirrors the schema; the writer assembles stripes, statistics, row-group
//! indexes and the trailing file metadata, and hands back the finished file
//! as a byte vector.

pub mod buffer;
pub mod schema;
pub mod count_write;
pub mod compression;
pub mod encoder;
pub mod statistics;
pub mod proto;
pub mod data;
pub mod stripe;
pub mod writer;
