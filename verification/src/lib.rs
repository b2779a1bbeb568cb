//! Columnar arrays with pluggable encodings.
//!
//! An array is a tree of encodings over buffers; whatever the encoding, it stands for a
//! sequence of elements of one logical type. The kernels (slice, take, filter, compare,
//! search) are stated over those elements and proved for every encoding. On top of the
//! arrays stand expressions over the columns of a batch, the planning of a scan over the
//! column layout of a file, and the framing of batches in a stream.

pub mod array;
pub mod bits;
pub mod builders;
pub mod canonical;
pub mod compressors;
pub mod compute;
pub mod dtype;
pub mod encodings;
pub mod error;
pub mod expr;
pub mod fuzz;
pub mod interop;
pub mod ipc;
pub mod layouts;
pub mod metadata;
pub mod scalar;
pub mod stats;
pub mod tpch;
pub mod tree;
pub mod validate;
pub mod validity;
