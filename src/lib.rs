//! An in-memory columnar data core: shared immutable buffers and validity bitmaps,
//! typed arrays over them, builders that assemble arrays from slices of other arrays,
//! and a kernel that selects the slots of an array by a boolean mask.

pub mod error;
pub mod buffer;
pub mod bitmap;
pub mod datatypes;
pub mod native;
pub mod select;
pub mod primitive;
pub mod boolean;
pub mod utf8;
pub mod union;
pub mod array;
pub mod chunk;
pub mod growable;
pub mod filter;
