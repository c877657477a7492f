//! Ingestion layer of a columnar data engine: reconstructs typed, nested,
//! in-memory columnar arrays from a self-describing binary interchange
//! format — a flat pre-order sequence of field-metadata nodes plus a flat
//! sequence of raw byte buffers — together with the surrounding file
//! orchestration (projection, row limits, memory-map fallback) and a few
//! neighbouring utilities of the engine.

pub mod arrays;
pub mod bitmap;
pub mod buffers;
pub mod cursor;
pub mod decode;
pub mod encode;
pub mod dtypes;
pub mod errors;
pub mod hf;
pub mod laws;
pub mod reader;
pub mod selector;
pub mod time_unit;
pub mod topk;
